//! The key/value tables produced by the text decoders: entity records
//! and material descriptors are both maps from string keys to string
//! values, where a later occurrence of a key replaces an earlier one.

use vstd::prelude::*;
use vstd::string::*;
use crate::scan::{quoted_pairs, scan_brace_blocks, scan_quoted_pairs};
use crate::text::{lower_of, lowercase, str_eq};

verus! {

/// The map described by a pair list read left to right, a later pair
/// for a key replacing an earlier one.
pub open spec fn map_of_pairs(ps: Seq<(Seq<char>, Seq<char>)>) -> Map<Seq<char>, Seq<char>>
    decreases ps.len(),
{
    if ps.len() == 0 {
        Map::empty()
    } else {
        map_of_pairs(ps.drop_last()).insert(ps.last().0, ps.last().1)
    }
}

/// The same pair list with every key lowercased.
pub open spec fn lower_keys(ps: Seq<(Seq<char>, Seq<char>)>) -> Seq<(Seq<char>, Seq<char>)> {
    ps.map_values(|p: (Seq<char>, Seq<char>)| (lower_of(p.0), p.1))
}

/// A key absent from the whole pair list is absent from its map.
pub proof fn lemma_map_of_pairs_absent(ps: Seq<(Seq<char>, Seq<char>)>, k: Seq<char>)
    requires
        forall|i: int| 0 <= i < ps.len() ==> (#[trigger] ps[i]).0 != k,
    ensures
        !map_of_pairs(ps).contains_key(k),
    decreases ps.len(),
{
    if ps.len() > 0 {
        assert(ps.last() == ps[ps.len() - 1]);
        assert(forall|i: int| 0 <= i < ps.drop_last().len() ==> (#[trigger] ps.drop_last()[i])
            == ps[i]);
        lemma_map_of_pairs_absent(ps.drop_last(), k);
    }
}

/// The map holds, for each key that occurs, the value of its last
/// occurrence.
pub proof fn lemma_map_of_pairs_last(ps: Seq<(Seq<char>, Seq<char>)>, i: int)
    requires
        0 <= i < ps.len(),
        forall|j: int| i < j < ps.len() ==> (#[trigger] ps[j]).0 != ps[i].0,
    ensures
        map_of_pairs(ps).contains_key(ps[i].0),
        map_of_pairs(ps)[ps[i].0] == ps[i].1,
    decreases ps.len(),
{
    if i == ps.len() - 1 {
        assert(ps.last() == ps[i]);
    } else {
        assert(ps.last() == ps[ps.len() - 1]);
        assert(ps.last().0 != ps[i].0);
        assert(forall|j: int| 0 <= j < ps.drop_last().len() ==> (#[trigger] ps.drop_last()[j])
            == ps[j]);
        lemma_map_of_pairs_last(ps.drop_last(), i);
    }
}

/// Replacing the pair at `i`, whose key is `k` and occurs nowhere else,
/// by `(k, v)` turns the map into the map with `k` bound to `v`.
proof fn lemma_map_of_pairs_update(
    ps: Seq<(Seq<char>, Seq<char>)>,
    i: int,
    k: Seq<char>,
    v: Seq<char>,
)
    requires
        0 <= i < ps.len(),
        ps[i].0 == k,
        forall|j: int| 0 <= j < ps.len() && j != i ==> (#[trigger] ps[j]).0 != k,
    ensures
        map_of_pairs(ps.update(i, (k, v))) == map_of_pairs(ps).insert(k, v),
    decreases ps.len(),
{
    let ps2 = ps.update(i, (k, v));
    if i == ps.len() - 1 {
        assert(ps2.drop_last() =~= ps.drop_last());
        assert(ps2.last() == (k, v));
        assert(ps.last() == ps[i]);
        assert(map_of_pairs(ps2) == map_of_pairs(ps.drop_last()).insert(k, v));
        assert(map_of_pairs(ps).insert(k, v) =~= map_of_pairs(ps.drop_last()).insert(
            ps[i].0,
            ps[i].1,
        ).insert(k, v));
        assert(map_of_pairs(ps.drop_last()).insert(ps[i].0, ps[i].1).insert(k, v)
            =~= map_of_pairs(ps.drop_last()).insert(k, v));
    } else {
        let last = ps[ps.len() - 1];
        assert(ps.last() == last);
        assert(ps2.last() == last);
        assert(ps2.drop_last() =~= ps.drop_last().update(i, (k, v)));
        assert(forall|j: int| 0 <= j < ps.drop_last().len() ==> (#[trigger] ps.drop_last()[j])
            == ps[j]);
        lemma_map_of_pairs_update(ps.drop_last(), i, k, v);
        assert(last.0 != k);
        assert(map_of_pairs(ps2) == map_of_pairs(ps.drop_last()).insert(k, v).insert(
            last.0,
            last.1,
        ));
        assert(map_of_pairs(ps.drop_last()).insert(k, v).insert(last.0, last.1)
            =~= map_of_pairs(ps.drop_last()).insert(last.0, last.1).insert(k, v));
    }
}

/// A key → value table; a later `insert` for a key replaces the earlier
/// value.
#[derive(Debug)]
pub struct PropTable {
    pairs: Vec<(String, String)>,
}

impl View for PropTable {
    type V = Map<Seq<char>, Seq<char>>;

    closed spec fn view(&self) -> Map<Seq<char>, Seq<char>> {
        map_of_pairs(self.pairs.deep_view())
    }
}

impl PropTable {
    #[verifier::type_invariant]
    spec fn wf(self) -> bool {
        forall|i: int, j: int|
            0 <= i < j < self.pairs.deep_view().len() ==> (#[trigger] self.pairs.deep_view()[i]).0
                != (#[trigger] self.pairs.deep_view()[j]).0
    }

    /// An empty table.
    pub fn new() -> (r: PropTable)
        ensures
            r@ == Map::<Seq<char>, Seq<char>>::empty(),
    {
        let r = PropTable { pairs: Vec::new() };
        proof {
            assert(r.pairs.deep_view() =~= Seq::<(Seq<char>, Seq<char>)>::empty());
        }
        r
    }

    /// Index of the entry holding key `k`, if any.
    fn find(&self, k: &str) -> (r: Option<usize>)
        ensures
            r matches Some(i) ==> i < self.pairs.deep_view().len() && self.pairs.deep_view()[
                i as int
            ].0 == k@,
            r is None ==> forall|i: int|
                0 <= i < self.pairs.deep_view().len() ==> (#[trigger] self.pairs.deep_view()[
                    i
                ]).0 != k@,
    {
        let n = self.pairs.len();
        let mut i: usize = 0;
        while i < n
            invariant
                n == self.pairs.deep_view().len(),
                i <= n,
                forall|j: int|
                    0 <= j < i ==> (#[trigger] self.pairs.deep_view()[j]).0 != k@,
            decreases n - i,
        {
            if str_eq(self.pairs[i].0.as_str(), k) {
                return Some(i);
            }
            i = i + 1;
        }
        None
    }

    /// The table with `k` bound to `v`, any earlier value for `k`
    /// replaced.
    pub fn insert(self, k: String, v: String) -> (r: PropTable)
        ensures
            r@ == self@.insert(k@, v@),
    {
        proof {
            use_type_invariant(&self);
        }
        let found = self.find(k.as_str());
        let PropTable { mut pairs } = self;
        match found {
            Some(i) => {
                proof {
                    lemma_map_of_pairs_update(pairs.deep_view(), i as int, k@, v@);
                }
                let ghost old_pairs = pairs.deep_view();
                pairs[i] = (k, v);
                proof {
                    assert(pairs.deep_view() =~= old_pairs.update(i as int, (k@, v@)));
                }
            },
            None => {
                let ghost old_pairs = pairs.deep_view();
                pairs.push((k, v));
                proof {
                    assert(pairs.deep_view() =~= old_pairs.push((k@, v@)));
                    assert(pairs.deep_view().drop_last() =~= old_pairs);
                }
            },
        }
        PropTable { pairs }
    }

    /// The value bound to `k`, if any.
    pub fn get(&self, k: &str) -> (r: Option<&String>)
        ensures
            r is Some <==> self@.contains_key(k@),
            r matches Some(v) ==> self@.contains_key(k@) && self@[k@] == v@,
    {
        proof {
            use_type_invariant(&*self);
        }
        match self.find(k) {
            Some(i) => {
                proof {
                    lemma_map_of_pairs_last(self.pairs.deep_view(), i as int);
                }
                let p = &self.pairs[i];
                Some(&p.1)
            },
            None => {
                proof {
                    lemma_map_of_pairs_absent(self.pairs.deep_view(), k@);
                }
                None
            },
        }
    }
}

/// Folds a scanned pair list into a table, a later pair replacing an
/// earlier one.
pub fn table_of_pairs(ps: &Vec<(String, String)>) -> (r: PropTable)
    ensures
        r@ == map_of_pairs(ps.deep_view()),
{
    let mut r = PropTable::new();
    let n = ps.len();
    let mut i: usize = 0;
    while i < n
        invariant
            n == ps.deep_view().len(),
            n == ps@.len(),
            i <= n,
            r@ == map_of_pairs(ps.deep_view().take(i as int)),
        decreases n - i,
    {
        let p = &ps[i];
        let (k, v) = (p.0.clone(), p.1.clone());
        r = r.insert(k, v);
        proof {
            let dv = ps.deep_view();
            assert(dv.take(i + 1).drop_last() =~= dv.take(i as int));
            assert(dv.take(i + 1).last() == dv[i as int]);
        }
        i = i + 1;
    }
    proof {
        assert(ps.deep_view().take(n as int) =~= ps.deep_view());
    }
    r
}

/// Folds a scanned pair list into a table with lowercased keys, a later
/// pair replacing an earlier one.
pub fn table_of_pairs_lowered(ps: &Vec<(String, String)>) -> (r: PropTable)
    ensures
        r@ == map_of_pairs(lower_keys(ps.deep_view())),
{
    let mut r = PropTable::new();
    let n = ps.len();
    let mut i: usize = 0;
    while i < n
        invariant
            n == ps.deep_view().len(),
            n == ps@.len(),
            i <= n,
            r@ == map_of_pairs(lower_keys(ps.deep_view()).take(i as int)),
        decreases n - i,
    {
        let p = &ps[i];
        let k = lowercase(p.0.as_str());
        let v = p.1.clone();
        r = r.insert(k, v);
        proof {
            let lk = lower_keys(ps.deep_view());
            assert(lk.take(i + 1).drop_last() =~= lk.take(i as int));
            assert(lk.take(i + 1).last() == lk[i as int]);
        }
        i = i + 1;
    }
    proof {
        assert(lower_keys(ps.deep_view()).take(n as int) =~= lower_keys(ps.deep_view()));
    }
    r
}

/// Parses a material descriptor: every quoted key/value pair of the
/// text, keys lowercased, a later pair replacing an earlier one. The
/// result is present for every input — a text without pairs gives an
/// empty table, never an absent one.
pub fn parse_vmt(vmt_str: &str) -> (r: Option<PropTable>)
    ensures
        r is Some,
        r matches Some(t) ==> t@ == map_of_pairs(lower_keys(quoted_pairs(vmt_str@))),
{
    let ps = scan_quoted_pairs(vmt_str).unwrap();
    Some(table_of_pairs_lowered(&ps))
}

/// Parses entity text: one table per brace block, holding the block's
/// quoted key/value pairs, a later pair replacing an earlier one. The
/// result is present for every input — a text without blocks gives an
/// empty list, never an absent one.
pub fn parse_entities(text: &str) -> (r: Option<Vec<PropTable>>)
    ensures
        r is Some,
        r matches Some(ts) ==> {
            let blocks = crate::scan::brace_blocks(text@);
            &&& ts@.len() == blocks.len()
            &&& forall|i: int|
                0 <= i < blocks.len() ==> (#[trigger] ts@[i])@ == map_of_pairs(
                    quoted_pairs(blocks[i]),
                )
        },
{
    let blocks = scan_brace_blocks(text).unwrap();
    let mut ts: Vec<PropTable> = Vec::new();
    let n = blocks.len();
    let mut i: usize = 0;
    while i < n
        invariant
            n == blocks@.len(),
            blocks.deep_view().len() == blocks@.len(),
            i <= n,
            ts@.len() == i,
            forall|j: int|
                0 <= j < i ==> (#[trigger] ts@[j])@ == map_of_pairs(
                    quoted_pairs(blocks.deep_view()[j]),
                ),
        decreases n - i,
    {
        let ps = scan_quoted_pairs(blocks[i].as_str()).unwrap();
        let t = table_of_pairs(&ps);
        proof {
            assert(blocks.deep_view()[i as int] == blocks@[i as int]@);
        }
        ts.push(t);
        i = i + 1;
    }
    Some(ts)
}

} // verus!
