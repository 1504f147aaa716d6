//! The model container: the texture and texture-directory tables found
//! through the format's fixed header layout, and the candidate material
//! paths built from them.

use vstd::prelude::*;
use vstd::string::*;
use vstd::utf8::{decode_utf8, valid_utf8};
use crate::bytes::{filter_nonzero, find_byte, find_byte_exec, i32_at, le_i32_at, le_u16_at, u16_at};
use crate::text::{bytes_to_utf8, contains_seq, contains_sub, lower_of, lowercase};

verus! {

/// Byte offset of the texture-table fields: seventeen 32-bit fields,
/// six twelve-byte vectors and a 64-byte name field precede them.
pub const OFS_TO_TEX: usize = 204;

/// Bytes per texture record.
pub const TEX_RECORD_SIZE: usize = 64;

/// The texture-record count of the model file.
pub open spec fn tex_count_of(d: Seq<u8>) -> int {
    le_i32_at(d, OFS_TO_TEX as int)
}

/// The texture-table offset of the model file.
pub open spec fn tex_ofs_of(d: Seq<u8>) -> int {
    le_i32_at(d, OFS_TO_TEX + 4)
}

/// The texture-directory count of the model file.
pub open spec fn texdir_count_of(d: Seq<u8>) -> int {
    le_i32_at(d, OFS_TO_TEX + 8)
}

/// The texture-directory-table offset of the model file.
pub open spec fn texdir_ofs_of(d: Seq<u8>) -> int {
    le_i32_at(d, OFS_TO_TEX + 12)
}

/// Whether the four texture-table fields lie inside the file.
pub open spec fn tex_info_readable(d: Seq<u8>) -> bool {
    OFS_TO_TEX + 16 <= d.len()
}

/// The bytes of the NUL-terminated string at `ofs`: everything up to
/// the first NUL, or to the end of the file; empty when `ofs` lies
/// outside the file.
pub open spec fn cstr_bytes(d: Seq<u8>, ofs: int) -> Seq<u8> {
    if 0 <= ofs && ofs <= d.len() {
        let t = d.subrange(ofs, d.len() as int);
        t.take(find_byte(t, 0))
    } else {
        Seq::empty()
    }
}

/// The name of texture record `i` of the table at `ofs`: the record's
/// leading 32-bit field is a relative offset to a NUL-terminated
/// string. None when the record does not lie inside the file or the
/// string is not UTF-8.
pub open spec fn tex_name_at(d: Seq<u8>, ofs: int, i: int) -> Option<Seq<char>> {
    let rec = ofs + 64 * i;
    if !(0 <= rec && rec + 64 <= d.len()) {
        None
    } else {
        let b = cstr_bytes(d, rec + le_i32_at(d, rec));
        if valid_utf8(b) {
            Some(decode_utf8(b))
        } else {
            None
        }
    }
}

/// The names of the first `n` texture records, in order; a record
/// without a name is skipped.
pub open spec fn tex_names(d: Seq<u8>, ofs: int, n: int) -> Seq<Seq<char>>
    decreases n,
{
    if n <= 0 {
        Seq::empty()
    } else {
        tex_names(d, ofs, n - 1) + match tex_name_at(d, ofs, n - 1) {
            Some(s) => seq![s],
            None => Seq::empty(),
        }
    }
}

/// The directory name of entry `i` of the table at `ofs`: the table is
/// a run of consecutive 16-bit absolute offsets, each to a
/// NUL-terminated string. None when the entry does not lie inside the
/// file or the string is not UTF-8.
pub open spec fn texdir_name_at(d: Seq<u8>, ofs: int, i: int) -> Option<Seq<char>> {
    let entry = ofs + 2 * i;
    if !(0 <= entry && entry + 2 <= d.len()) {
        None
    } else {
        let b = cstr_bytes(d, le_u16_at(d, entry));
        if valid_utf8(b) {
            Some(decode_utf8(b))
        } else {
            None
        }
    }
}

/// The names of the first `n` directory entries, in order; an entry
/// without a name is skipped.
pub open spec fn texdir_names(d: Seq<u8>, ofs: int, n: int) -> Seq<Seq<char>>
    decreases n,
{
    if n <= 0 {
        Seq::empty()
    } else {
        texdir_names(d, ofs, n - 1) + match texdir_name_at(d, ofs, n - 1) {
            Some(s) => seq![s],
            None => Seq::empty(),
        }
    }
}

/// The model's own name: the 64-byte field after the three leading
/// 32-bit fields, NUL padding removed, decoded as UTF-8.
pub open spec fn mdl_name_of(d: Seq<u8>) -> Option<Seq<char>> {
    if 12 + 64 <= d.len() {
        let b = d.subrange(12, 76).filter(|x: u8| x != 0);
        if valid_utf8(b) {
            Some(decode_utf8(b))
        } else {
            None
        }
    } else {
        None
    }
}

/// The candidate material path for one directory and one texture name:
/// the directory, a separator, and the texture name with the material
/// file extension.
pub open spec fn candidate_path(dir: Seq<char>, tex: Seq<char>) -> Seq<char> {
    dir + "/"@ + tex + ".vmt"@
}

/// The candidate material paths of one directory, one per texture
/// name, in order.
pub open spec fn candidate_row(dir: Seq<char>, texs: Seq<Seq<char>>) -> Seq<Seq<char>>
    decreases texs.len(),
{
    if texs.len() == 0 {
        Seq::empty()
    } else {
        candidate_row(dir, texs.drop_last()).push(candidate_path(dir, texs.last()))
    }
}

/// The full candidate set: every directory crossed with every texture
/// name, directory by directory.
pub open spec fn candidate_cross(dirs: Seq<Seq<char>>, texs: Seq<Seq<char>>) -> Seq<Seq<char>>
    decreases dirs.len(),
{
    if dirs.len() == 0 {
        Seq::empty()
    } else {
        candidate_cross(dirs.drop_last(), texs) + candidate_row(dirs.last(), texs)
    }
}

/// The candidate set holds one path per directory/texture combination.
pub proof fn lemma_candidate_cross_len(dirs: Seq<Seq<char>>, texs: Seq<Seq<char>>)
    ensures
        candidate_cross(dirs, texs).len() == dirs.len() * texs.len(),
    decreases dirs.len(),
{
    lemma_candidate_row_len(texs);
    if dirs.len() > 0 {
        lemma_candidate_cross_len(dirs.drop_last(), texs);
        assert((dirs.len() - 1) * texs.len() + texs.len() == dirs.len() * texs.len())
            by (nonlinear_arith);
    }
}

proof fn lemma_candidate_row_len(texs: Seq<Seq<char>>)
    ensures
        forall|dir: Seq<char>| (#[trigger] candidate_row(dir, texs)).len() == texs.len(),
    decreases texs.len(),
{
    if texs.len() > 0 {
        lemma_candidate_row_len(texs.drop_last());
        assert forall|dir: Seq<char>| (#[trigger] candidate_row(dir, texs)).len()
            == texs.len() by {
            assert(candidate_row(dir, texs.drop_last()).len() == texs.drop_last().len());
        }
    }
}

/// Reads the NUL-terminated string at `ofs`.
fn read_cstr(d: &Vec<u8>, ofs: usize) -> (r: Vec<u8>)
    requires
        ofs <= d@.len(),
    ensures
        r@ == cstr_bytes(d@, ofs as int),
{
    let tail = vstd::slice::slice_to_vec(vstd::slice::slice_subrange(d.as_slice(), ofs, d.len()));
    match find_byte_exec(&tail, 0) {
        Some(j) => vstd::slice::slice_to_vec(vstd::slice::slice_subrange(tail.as_slice(), 0, j)),
        None => {
            proof {
                assert(tail@.take(find_byte(tail@, 0)) =~= tail@);
            }
            tail
        },
    }
}

/// The NUL-terminated string at `ofs`: the bytes up to the first NUL
/// or the end of the buffer — empty when `ofs` lies past the end —
/// decoded as UTF-8; `None` when they are not UTF-8.
pub fn null_term_str(d: &Vec<u8>, ofs: u64) -> (r: Option<String>)
    ensures
        r is Some <==> valid_utf8(cstr_bytes(d@, ofs as int)),
        r matches Some(s) ==> s@ == decode_utf8(cstr_bytes(d@, ofs as int)),
{
    let b: Vec<u8> = if ofs > d.len() as u64 {
        proof {
            assert(cstr_bytes(d@, ofs as int) =~= Seq::<u8>::empty());
        }
        Vec::new()
    } else {
        read_cstr(d, ofs as usize)
    };
    bytes_to_utf8(b.as_slice())
}

/// One texture record: the name its relative offset points at.
#[derive(Debug)]
pub struct Texture {
    /// The texture's name, read from the record's string reference.
    pub name: String,
}

impl Texture {
    /// Decodes texture record `i` of the table at `tex_ofs`; `None`
    /// when the record does not lie inside the buffer or its name is
    /// not UTF-8.
    pub fn new(data: &Vec<u8>, i: i32, tex_ofs: i32) -> (r: Option<Texture>)
        ensures
            r is Some <==> tex_name_at(data@, tex_ofs as int, i as int) is Some,
            r matches Some(t) ==> tex_name_at(data@, tex_ofs as int, i as int) == Some(t.name@),
    {
        let rec64: i64 = tex_ofs as i64 + 64i64 * (i as i64);
        if rec64 < 0 || (rec64 as u64) + 64 > data.len() as u64 {
            return None;
        }
        let rec = rec64 as usize;
        let name_ofs = i32_at(data, rec).unwrap();
        let str64: i64 = rec64 + name_ofs as i64;
        let b: Vec<u8> = if str64 < 0 || (str64 as u64) > data.len() as u64 {
            proof {
                assert(cstr_bytes(data@, str64 as int) =~= Seq::<u8>::empty());
            }
            Vec::new()
        } else {
            read_cstr(data, str64 as usize)
        };
        match bytes_to_utf8(b.as_slice()) {
            Some(s) => Some(Texture { name: s }),
            None => None,
        }
    }
}

/// The texture tables of a model container: the model's own name, its
/// texture-directory names and its texture names.
#[derive(Debug)]
pub struct TexturesInfo {
    /// The model's own relative path, from its 64-byte name field.
    pub name: String,
    /// The texture-directory names, in table order.
    pub dirs: Vec<String>,
    /// The texture names, in table order.
    pub textures: Vec<String>,
}

impl TexturesInfo {
    /// Decodes the texture tables from the model file's bytes; `None`
    /// when the table fields do not lie inside the file or the model's
    /// name is not UTF-8.
    pub fn new(data: &Vec<u8>) -> (r: Option<TexturesInfo>)
        ensures
            r is Some <==> tex_info_readable(data@) && mdl_name_of(data@) is Some,
            r matches Some(t) ==> {
                &&& mdl_name_of(data@) == Some(t.name@)
                &&& t.dirs.deep_view() == texdir_names(
                    data@,
                    texdir_ofs_of(data@),
                    texdir_count_of(data@),
                )
                &&& t.textures.deep_view() == tex_names(
                    data@,
                    tex_ofs_of(data@),
                    tex_count_of(data@),
                )
            },
    {
        if data.len() < OFS_TO_TEX + 16 {
            return None;
        }
        let tex_count = i32_at(data, OFS_TO_TEX).unwrap();
        let tex_ofs = i32_at(data, OFS_TO_TEX + 4).unwrap();
        let texdir_count = i32_at(data, OFS_TO_TEX + 8).unwrap();
        let texdir_ofs = i32_at(data, OFS_TO_TEX + 12).unwrap();

        let mut dirs: Vec<String> = Vec::new();
        let nd: i32 = if texdir_count < 0 {
            0
        } else {
            texdir_count
        };
        let mut i: i32 = 0;
        while i < nd
            invariant
                texdir_ofs as int == texdir_ofs_of(data@),
                nd == if texdir_count < 0 {
                    0i32
                } else {
                    texdir_count
                },
                texdir_count as int == texdir_count_of(data@),
                0 <= i <= nd,
                dirs.deep_view() == texdir_names(data@, texdir_ofs as int, i as int),
            decreases nd - i,
        {
            let ghost old_dirs = dirs.deep_view();
            let entry64: i64 = texdir_ofs as i64 + 2i64 * (i as i64);
            if entry64 >= 0 && (entry64 as u64) + 2 <= data.len() as u64 {
                let str_ofs = u16_at(data, entry64 as usize).unwrap();
                let b: Vec<u8> = if str_ofs as usize > data.len() {
                    proof {
                        assert(cstr_bytes(data@, str_ofs as int) =~= Seq::<u8>::empty());
                    }
                    Vec::new()
                } else {
                    read_cstr(data, str_ofs as usize)
                };
                match bytes_to_utf8(b.as_slice()) {
                    Some(s) => {
                        proof {
                            assert(texdir_name_at(data@, texdir_ofs as int, i as int) == Some(
                                s@,
                            ));
                        }
                        dirs.push(s);
                        proof {
                            assert(dirs.deep_view() =~= old_dirs + seq![
                                texdir_name_at(data@, texdir_ofs as int, i as int)->0,
                            ]);
                        }
                    },
                    None => {
                        proof {
                            assert(texdir_name_at(data@, texdir_ofs as int, i as int) is None);
                        }
                    },
                }
            } else {
                proof {
                    assert(texdir_name_at(data@, texdir_ofs as int, i as int) is None);
                }
            }
            i = i + 1;
        }

        let mut textures: Vec<String> = Vec::new();
        let nt: i32 = if tex_count < 0 {
            0
        } else {
            tex_count
        };
        let mut j: i32 = 0;
        while j < nt
            invariant
                tex_ofs as int == tex_ofs_of(data@),
                nt == if tex_count < 0 {
                    0i32
                } else {
                    tex_count
                },
                tex_count as int == tex_count_of(data@),
                0 <= j <= nt,
                textures.deep_view() == tex_names(data@, tex_ofs as int, j as int),
            decreases nt - j,
        {
            let ghost old_texs = textures.deep_view();
            match Texture::new(data, j, tex_ofs) {
                Some(t) => {
                    proof {
                        assert(tex_name_at(data@, tex_ofs as int, j as int) == Some(t.name@));
                    }
                    let ghost namev = t.name@;
                    textures.push(t.name);
                    proof {
                        assert(textures.deep_view() =~= old_texs + seq![namev]);
                    }
                },
                None => {},
            }
            j = j + 1;
        }

        let name_field = vstd::slice::slice_to_vec(
            vstd::slice::slice_subrange(data.as_slice(), 12, 76),
        );
        let kept = filter_nonzero(&name_field);
        match bytes_to_utf8(kept.as_slice()) {
            Some(s) => Some(TexturesInfo { name: s, dirs, textures }),
            None => None,
        }
    }

    /// The candidate material paths of one directory: one per texture
    /// name, in table order.
    pub fn dir_candidates(&self, dir: &String) -> (r: Vec<String>)
        ensures
            r.deep_view() == candidate_row(dir@, self.textures.deep_view()),
    {
        let mut r: Vec<String> = Vec::new();
        let n = self.textures.len();
        let mut i: usize = 0;
        while i < n
            invariant
                n == self.textures@.len(),
                self.textures.deep_view().len() == n,
                i <= n,
                r.deep_view() == candidate_row(dir@, self.textures.deep_view().take(i as int)),
            decreases n - i,
        {
            let ghost old_r = r.deep_view();
            let ghost texs = self.textures.deep_view();
            let mut p = dir.clone();
            p.append("/");
            p.append(self.textures[i].as_str());
            p.append(".vmt");
            r.push(p);
            proof {
                assert(texs.take(i + 1).drop_last() =~= texs.take(i as int));
                assert(texs.take(i + 1).last() == texs[i as int]);
                assert(r.deep_view() =~= old_r.push(candidate_path(dir@, texs[i as int])));
            }
            i = i + 1;
        }
        proof {
            assert(self.textures.deep_view().take(n as int) =~= self.textures.deep_view());
        }
        r
    }

    /// The full candidate material-path set: every directory crossed
    /// with every texture name.
    pub fn material_candidates(&self) -> (r: Vec<String>)
        ensures
            r.deep_view() == candidate_cross(self.dirs.deep_view(), self.textures.deep_view()),
    {
        let mut r: Vec<String> = Vec::new();
        let n = self.dirs.len();
        let mut i: usize = 0;
        while i < n
            invariant
                n == self.dirs@.len(),
                self.dirs.deep_view().len() == n,
                i <= n,
                r.deep_view() == candidate_cross(
                    self.dirs.deep_view().take(i as int),
                    self.textures.deep_view(),
                ),
            decreases n - i,
        {
            let ghost old_r = r.deep_view();
            let ghost ds = self.dirs.deep_view();
            let mut row = self.dir_candidates(&self.dirs[i]);
            let ghost rowv = row.deep_view();
            r.append(&mut row);
            proof {
                assert(ds.take(i + 1).drop_last() =~= ds.take(i as int));
                assert(ds.take(i + 1).last() == ds[i as int]);
                assert(r.deep_view() =~= old_r + rowv);
            }
            i = i + 1;
        }
        proof {
            assert(self.dirs.deep_view().take(n as int) =~= self.dirs.deep_view());
        }
        r
    }
}

/// Whether a directory entry belongs to the model: its lowercased file
/// name holds the model's lowercased stem.
pub fn sibling_matches(stem: &str, file_name: &str) -> (r: bool)
    ensures
        r == contains_seq(lower_of(file_name@), lower_of(stem@)),
{
    let lf = lowercase(file_name);
    let ls = lowercase(stem);
    contains_sub(lf.as_str(), ls.as_str())
}

} // verus!
