//! Material descriptors: the parsed key/value table of one material
//! text file, the bitmap dependencies its recognized keys name, and the
//! chain to a further descriptor that its directive key may name.

use vstd::prelude::*;
use vstd::string::*;
use crate::kv::{lower_keys, map_of_pairs, parse_vmt, PropTable};
use crate::paths::{ext_of, join_path, path_ext, path_strip_first, strip_first_component, with_suffix};
use crate::scan::quoted_pairs;
use crate::text::str_eq;

verus! {

/// The key whose value names a further material descriptor to resolve.
pub open spec fn chain_key_seq() -> Seq<char> {
    seq!['i', 'n', 'c', 'l', 'u', 'd', 'e']
}

/// The directive key, as a string.
pub fn chain_key() -> (r: String)
    ensures
        r@ == chain_key_seq(),
{
    let r = String::from_str("inclu").concat("de");
    proof {
        reveal_strlit("inclu");
        reveal_strlit("de");
        assert(r@ =~= chain_key_seq());
    }
    r
}

/// The bitmap-reference keys a material descriptor is searched for by
/// default.
pub open spec fn default_vmt_keys() -> Seq<Seq<char>> {
    seq!["$basetexture"@, "$detail"@, "$bumpmap"@, "$envmapmask"@, "$selfillummask"@]
}

/// The default bitmap-reference keys, as strings.
pub fn default_keys() -> (r: Vec<String>)
    ensures
        r.deep_view() == default_vmt_keys(),
{
    let mut r: Vec<String> = Vec::new();
    r.push(String::from_str("$basetexture"));
    r.push(String::from_str("$detail"));
    r.push(String::from_str("$bumpmap"));
    r.push(String::from_str("$envmapmask"));
    r.push(String::from_str("$selfillummask"));
    proof {
        assert(r.deep_view() =~= default_vmt_keys());
    }
    r
}

/// The bitmap paths named by `keys` in the table `m`, in key order: a
/// key bound to a non-empty value contributes the value with the
/// texture file extension appended.
pub open spec fn vtf_rels(m: Map<Seq<char>, Seq<char>>, keys: Seq<Seq<char>>) -> Seq<Seq<char>>
    decreases keys.len(),
{
    if keys.len() == 0 {
        Seq::empty()
    } else {
        vtf_rels(m, keys.drop_last()) + (if m.contains_key(keys.last()) && m[keys.last()].len()
            > 0 {
            seq![m[keys.last()] + ".vtf"@]
        } else {
            Seq::empty()
        })
    }
}

/// One file copy: source and destination path.
#[derive(Debug)]
pub struct CopyJob {
    /// Path to copy from.
    pub from: String,
    /// Path to copy to.
    pub to: String,
}

/// Everything one material descriptor asks to be done: copy the
/// descriptor file itself, copy its bitmap dependencies that exist, and
/// follow the chained descriptor, if any.
#[derive(Debug)]
pub struct VmtPlan {
    /// Source path of the descriptor file.
    pub vmt_from: String,
    /// Destination path of the descriptor file.
    pub vmt_to: String,
    /// Copies of the bitmap dependencies; each is to be skipped when
    /// its source does not exist.
    pub vtfs: Vec<CopyJob>,
    /// Relative path of the chained descriptor, its leading component
    /// removed; none when the table has no directive key.
    pub chain_rel: Option<String>,
}

/// A parsed material descriptor, remembering where it was found.
#[derive(Debug)]
pub struct VMTInfo {
    path: String,
    rel_path: String,
    vmt_data: PropTable,
}

impl VMTInfo {
    /// The descriptor file's own path under the material search root.
    pub closed spec fn path_spec(&self) -> Seq<char> {
        self.path@
    }

    /// The descriptor file's path relative to the material search
    /// root.
    pub closed spec fn rel_spec(&self) -> Seq<char> {
        self.rel_path@
    }

    /// The descriptor's key/value table.
    pub closed spec fn data_spec(&self) -> Map<Seq<char>, Seq<char>> {
        self.vmt_data@
    }

    /// Parses the descriptor found at `vmt_tex_rel_path` under
    /// `find_mats_path`, whose text is `text`. `None` exactly when the
    /// path does not carry the material file extension.
    pub fn new(vmt_tex_rel_path: &String, find_mats_path: &String, text: &str) -> (r: Option<
        VMTInfo,
    >)
        ensures
            r is Some <==> ext_of(vmt_tex_rel_path@) == Some("vmt"@),
            r matches Some(v) ==> {
                &&& v.path_spec() == find_mats_path@ + "/"@ + vmt_tex_rel_path@
                &&& v.rel_spec() == vmt_tex_rel_path@
                &&& v.data_spec() == map_of_pairs(lower_keys(quoted_pairs(text@)))
            },
    {
        let ext_ok = match path_ext(vmt_tex_rel_path.as_str()) {
            Some(e) => str_eq(e.as_str(), "vmt"),
            None => false,
        };
        if !ext_ok {
            return None;
        }
        let table = parse_vmt(text).unwrap();
        Some(
            VMTInfo {
                path: join_path(find_mats_path.as_str(), vmt_tex_rel_path.as_str()),
                rel_path: vmt_tex_rel_path.clone(),
                vmt_data: table,
            },
        )
    }

    /// The value bound to `key` in the descriptor's table, if any.
    pub fn get(&self, key: &str) -> (r: Option<&String>)
        ensures
            r is Some <==> self.data_spec().contains_key(key@),
            r matches Some(v) ==> self.data_spec().contains_key(key@) && self.data_spec()[key@]
                == v@,
    {
        self.vmt_data.get(key)
    }

    /// The copy of the descriptor file itself: from its own path to
    /// the same relative path under `output_mats_path`.
    pub fn download_vmt(&self, output_mats_path: &String) -> (r: CopyJob)
        ensures
            r.from@ == self.path_spec(),
            r.to@ == output_mats_path@ + "/"@ + self.rel_spec(),
    {
        CopyJob {
            from: self.path.clone(),
            to: join_path(output_mats_path.as_str(), self.rel_path.as_str()),
        }
    }

    /// The bitmap copies that `keys` name, in key order, and the
    /// chained descriptor's relative path, if the directive key is
    /// bound.
    pub fn download_vtf(&self, find_mats_path: &String, output_mats_path: &String, keys: &Vec<
        String,
    >) -> (r: (Vec<CopyJob>, Option<String>))
        ensures
            ({
                let rels = vtf_rels(self.data_spec(), keys.deep_view());
                &&& r.0@.len() == rels.len()
                &&& forall|i: int|
                    0 <= i < rels.len() ==> (#[trigger] r.0@[i]).from@ == find_mats_path@ + "/"@
                        + rels[i] && r.0@[i].to@ == output_mats_path@ + "/"@ + rels[i]
            }),
            r.1 is Some <==> self.data_spec().contains_key(chain_key_seq()),
            r.1 matches Some(p) ==> p@ == strip_first_component(
                self.data_spec()[chain_key_seq()],
            ),
    {
        let mut jobs: Vec<CopyJob> = Vec::new();
        let n = keys.len();
        let mut i: usize = 0;
        while i < n
            invariant
                n == keys@.len(),
                keys.deep_view().len() == n,
                i <= n,
                ({
                    let rels = vtf_rels(self.data_spec(), keys.deep_view().take(i as int));
                    &&& jobs@.len() == rels.len()
                    &&& forall|j: int|
                        0 <= j < rels.len() ==> (#[trigger] jobs@[j]).from@ == find_mats_path@
                            + "/"@ + rels[j] && jobs@[j].to@ == output_mats_path@ + "/"@ + rels[j]
                }),
            decreases n - i,
        {
            proof {
                let kd = keys.deep_view();
                assert(kd.take(i + 1).drop_last() =~= kd.take(i as int));
                assert(kd.take(i + 1).last() == kd[i as int]);
                assert(kd[i as int] == keys@[i as int]@);
            }
            match self.vmt_data.get(keys[i].as_str()) {
                Some(v) => {
                    if !v.as_str().is_empty() {
                        let rel = with_suffix(v.as_str(), ".vtf");
                        jobs.push(
                            CopyJob {
                                from: join_path(find_mats_path.as_str(), rel.as_str()),
                                to: join_path(output_mats_path.as_str(), rel.as_str()),
                            },
                        );
                    } else {
                        proof {
                            assert(v@.len() == 0);
                        }
                    }
                },
                None => {},
            }
            i = i + 1;
        }
        proof {
            assert(keys.deep_view().take(n as int) =~= keys.deep_view());
        }
        let ck = chain_key();
        let chain = match self.vmt_data.get(ck.as_str()) {
            Some(v) => Some(path_strip_first(v.as_str())),
            None => None,
        };
        (jobs, chain)
    }

    /// Everything this descriptor asks to be done, searched with the
    /// given `keys`.
    pub fn download(&self, find_mats_path: &String, output_mats_path: &String, keys: &Vec<
        String,
    >) -> (r: VmtPlan)
        ensures
            r.vmt_from@ == self.path_spec(),
            r.vmt_to@ == output_mats_path@ + "/"@ + self.rel_spec(),
            ({
                let rels = vtf_rels(self.data_spec(), keys.deep_view());
                &&& r.vtfs@.len() == rels.len()
                &&& forall|i: int|
                    0 <= i < rels.len() ==> (#[trigger] r.vtfs@[i]).from@ == find_mats_path@
                        + "/"@ + rels[i] && r.vtfs@[i].to@ == output_mats_path@ + "/"@ + rels[i]
            }),
            r.chain_rel is Some <==> self.data_spec().contains_key(chain_key_seq()),
            r.chain_rel matches Some(p) ==> p@ == strip_first_component(
                self.data_spec()[chain_key_seq()],
            ),
    {
        let vmt_job = self.download_vmt(output_mats_path);
        let (vtfs, chain_rel) = self.download_vtf(find_mats_path, output_mats_path, keys);
        VmtPlan { vmt_from: vmt_job.from, vmt_to: vmt_job.to, vtfs, chain_rel }
    }

    /// Everything this descriptor asks to be done, searched with the
    /// default bitmap-reference keys.
    pub fn download_with_def_keys(&self, find_mats_path: &String, output_mats_path: &String) -> (r:
        VmtPlan)
        ensures
            r.vmt_from@ == self.path_spec(),
            r.vmt_to@ == output_mats_path@ + "/"@ + self.rel_spec(),
            ({
                let rels = vtf_rels(self.data_spec(), default_vmt_keys());
                &&& r.vtfs@.len() == rels.len()
                &&& forall|i: int|
                    0 <= i < rels.len() ==> (#[trigger] r.vtfs@[i]).from@ == find_mats_path@
                        + "/"@ + rels[i] && r.vtfs@[i].to@ == output_mats_path@ + "/"@ + rels[i]
            }),
            r.chain_rel is Some <==> self.data_spec().contains_key(chain_key_seq()),
            r.chain_rel matches Some(p) ==> p@ == strip_first_component(
                self.data_spec()[chain_key_seq()],
            ),
    {
        let keys = default_keys();
        self.download(find_mats_path, output_mats_path, &keys)
    }
}

} // verus!
