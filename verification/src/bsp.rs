//! The level container: its fixed 64-entry lump directory and the
//! decoders for the lumps the dependency walk consumes.

use vstd::prelude::*;
use vstd::string::*;
use vstd::utf8::{decode_utf8, valid_utf8};
use crate::bytes::{
    filter_nonzero, find_byte, find_byte_exec, get_bytes_4, i32_at, le_i32_at, le_u16_at,
    lemma_find_byte, u16_at,
};
use crate::kv::{map_of_pairs, PropTable};
use crate::paths::with_suffix;
use crate::scan::{brace_blocks, quoted_pairs};
use crate::text::{bytes_to_utf8, lower_of, lowercase};

verus! {

/// Number of entries in the lump directory.
pub const HEADER_LUMPS: usize = 64;

/// Bytes per lump descriptor: three 32-bit fields and a four-byte tag.
pub const LUMP_SIZE: usize = 16;

/// Bytes of the fixed header: identifier, format version, the lump
/// directory, and the map revision.
pub const HEADER_SIZE: usize = 1036;

/// One lump descriptor of the directory.
#[derive(Debug)]
pub struct LumpT {
    /// Byte offset of the lump in the file.
    pub file_ofs: i32,
    /// Byte length of the lump.
    pub file_len: i32,
    /// Format version of the lump.
    pub version: i32,
    /// Four-byte identifying tag.
    pub four_cc: [u8; 4],
}

/// Byte offset of lump descriptor `i` inside the header.
pub open spec fn lump_desc_ofs(i: int) -> int {
    8 + 16 * i
}

/// Whether `l` holds exactly the fields of descriptor `i` as the bytes
/// of `d` spell them.
pub open spec fn lump_matches(l: LumpT, d: Seq<u8>, i: int) -> bool {
    let off = lump_desc_ofs(i);
    &&& l.file_ofs as int == le_i32_at(d, off)
    &&& l.file_len as int == le_i32_at(d, off + 4)
    &&& l.version as int == le_i32_at(d, off + 8)
    &&& l.four_cc@ == d.subrange(off + 12, off + 16)
}

/// File offset of lump `id`, read from the directory of `d`.
pub open spec fn lump_ofs(d: Seq<u8>, id: int) -> int {
    le_i32_at(d, lump_desc_ofs(id))
}

/// Byte length of lump `id`, read from the directory of `d`.
pub open spec fn lump_len(d: Seq<u8>, id: int) -> int {
    le_i32_at(d, lump_desc_ofs(id) + 4)
}

/// Whether lump `id` lies inside the file: offset and length are
/// non-negative and `offset + length` does not pass the end.
pub open spec fn lump_in_range(d: Seq<u8>, id: int) -> bool {
    &&& 0 <= lump_ofs(d, id)
    &&& 0 <= lump_len(d, id)
    &&& lump_ofs(d, id) + lump_len(d, id) <= d.len()
}

/// The bytes of lump `id`: exactly `lump_len` bytes starting at
/// `lump_ofs`.
pub open spec fn lump_data(d: Seq<u8>, id: int) -> Seq<u8> {
    d.subrange(lump_ofs(d, id), lump_ofs(d, id) + lump_len(d, id))
}

impl LumpT {
    /// Decodes descriptor `lump_num` from the header bytes; `None` when
    /// the descriptor does not lie inside the buffer.
    pub fn new(header_bytes: &Vec<u8>, lump_num: usize) -> (r: Option<LumpT>)
        ensures
            r is Some <==> lump_desc_ofs(lump_num as int) + 16 <= header_bytes@.len(),
            r matches Some(l) ==> lump_matches(l, header_bytes@, lump_num as int),
    {
        if header_bytes.len() >= 24 && lump_num <= (header_bytes.len() - 24) / 16 {
            let off: usize = 8 + 16 * lump_num;
            let file_ofs = i32_at(header_bytes, off).unwrap();
            let file_len = i32_at(header_bytes, off + 4).unwrap();
            let version = i32_at(header_bytes, off + 8).unwrap();
            let four_cc = get_bytes_4(header_bytes, off + 12).unwrap();
            Some(LumpT { file_ofs, file_len, version, four_cc })
        } else {
            None
        }
    }
}

/// Law: a lump descriptor's decoded fields are a pure reading of its
/// sixteen bytes: two buffers that agree on descriptor `i`'s byte
/// range decode identical offset, length, version and tag fields.
pub proof fn lemma_lump_fields_from_bytes(d1: Seq<u8>, d2: Seq<u8>, i: int, l1: LumpT, l2: LumpT)
    requires
        0 <= i,
        lump_desc_ofs(i) + 16 <= d1.len(),
        lump_desc_ofs(i) + 16 <= d2.len(),
        d1.subrange(lump_desc_ofs(i), lump_desc_ofs(i) + 16) == d2.subrange(
            lump_desc_ofs(i),
            lump_desc_ofs(i) + 16,
        ),
        lump_matches(l1, d1, i),
        lump_matches(l2, d2, i),
    ensures
        l1.file_ofs == l2.file_ofs,
        l1.file_len == l2.file_len,
        l1.version == l2.version,
        l1.four_cc@ == l2.four_cc@,
{
    let off = lump_desc_ofs(i);
    let w1 = d1.subrange(off, off + 16);
    let w2 = d2.subrange(off, off + 16);
    assert forall|k: int| 0 <= k < 16 implies #[trigger] d1[off + k] == d2[off + k] by {
        assert(w1[k] == d1[off + k]);
        assert(w2[k] == d2[off + k]);
    }
    assert(d1.subrange(off, off + 4) =~= d2.subrange(off, off + 4));
    assert forall|k: int| 0 <= k < 4 implies #[trigger] d1.subrange(off + 4, off + 8)[k]
        == d2.subrange(off + 4, off + 8)[k] by {
        assert(d1[off + (4 + k)] == d2[off + (4 + k)]);
    }
    assert(d1.subrange(off + 4, off + 8) =~= d2.subrange(off + 4, off + 8));
    assert forall|k: int| 0 <= k < 4 implies #[trigger] d1.subrange(off + 8, off + 12)[k]
        == d2.subrange(off + 8, off + 12)[k] by {
        assert(d1[off + (8 + k)] == d2[off + (8 + k)]);
    }
    assert(d1.subrange(off + 8, off + 12) =~= d2.subrange(off + 8, off + 12));
    assert forall|k: int| 0 <= k < 4 implies #[trigger] d1.subrange(off + 12, off + 16)[k]
        == d2.subrange(off + 12, off + 16)[k] by {
        assert(d1[off + (12 + k)] == d2[off + (12 + k)]);
    }
    assert(d1.subrange(off + 12, off + 16) =~= d2.subrange(off + 12, off + 16));
}

/// Identifier of the static-prop game lump: the tag `prps` packed into
/// a little-endian 32-bit value.
pub const PROP_STATIC_ID: i32 = 1936749168;

/// Bytes per static-prop dictionary name record.
pub const PS_NAME_SIZE: usize = 128;

/// One entry of the game-lump directory.
#[derive(Debug, Clone, Copy, PartialEq, Eq, Structural)]
pub struct DGameLumpT {
    /// Identifier: a four-character tag packed into a 32-bit value.
    pub id: i32,
    /// Entry flags.
    pub flags: u16,
    /// Format version of this game lump.
    pub version: u16,
    /// Byte offset of the game lump in the file.
    pub file_ofs: i32,
    /// Byte length of the game lump.
    pub file_len: i32,
}

/// The map described by an entry list read left to right, a later entry
/// for an identifier replacing an earlier one.
pub open spec fn map_of_entries(es: Seq<DGameLumpT>) -> Map<int, DGameLumpT>
    decreases es.len(),
{
    if es.len() == 0 {
        Map::empty()
    } else {
        map_of_entries(es.drop_last()).insert(es.last().id as int, es.last())
    }
}

/// An identifier absent from the whole entry list is absent from its
/// map.
proof fn lemma_map_of_entries_absent(es: Seq<DGameLumpT>, id: int)
    requires
        forall|i: int| 0 <= i < es.len() ==> (#[trigger] es[i]).id != id,
    ensures
        !map_of_entries(es).contains_key(id),
    decreases es.len(),
{
    if es.len() > 0 {
        assert(es.last() == es[es.len() - 1]);
        assert(forall|i: int| 0 <= i < es.drop_last().len() ==> (#[trigger] es.drop_last()[i])
            == es[i]);
        lemma_map_of_entries_absent(es.drop_last(), id);
    }
}

/// The map holds, for each identifier that occurs, the entry of its
/// last occurrence.
proof fn lemma_map_of_entries_last(es: Seq<DGameLumpT>, i: int)
    requires
        0 <= i < es.len(),
        forall|j: int| i < j < es.len() ==> (#[trigger] es[j]).id != es[i].id,
    ensures
        map_of_entries(es).contains_key(es[i].id as int),
        map_of_entries(es)[es[i].id as int] == es[i],
    decreases es.len(),
{
    if i == es.len() - 1 {
        assert(es.last() == es[i]);
    } else {
        assert(es.last() == es[es.len() - 1]);
        assert(forall|j: int| 0 <= j < es.drop_last().len() ==> (#[trigger] es.drop_last()[j])
            == es[j]);
        lemma_map_of_entries_last(es.drop_last(), i);
    }
}

/// Replacing the entry at `i`, whose identifier occurs nowhere else, by
/// another entry `e` with the same identifier turns the map into the
/// map with that identifier bound to `e`.
proof fn lemma_map_of_entries_update(es: Seq<DGameLumpT>, i: int, e: DGameLumpT)
    requires
        0 <= i < es.len(),
        es[i].id == e.id,
        forall|j: int| 0 <= j < es.len() && j != i ==> (#[trigger] es[j]).id != e.id,
    ensures
        map_of_entries(es.update(i, e)) == map_of_entries(es).insert(e.id as int, e),
    decreases es.len(),
{
    let es2 = es.update(i, e);
    if i == es.len() - 1 {
        assert(es2.drop_last() =~= es.drop_last());
        assert(es2.last() == e);
        assert(es.last() == es[i]);
        assert(map_of_entries(es).insert(e.id as int, e) =~= map_of_entries(
            es.drop_last(),
        ).insert(es[i].id as int, es[i]).insert(e.id as int, e));
        assert(map_of_entries(es.drop_last()).insert(es[i].id as int, es[i]).insert(
            e.id as int,
            e,
        ) =~= map_of_entries(es.drop_last()).insert(e.id as int, e));
    } else {
        let last = es[es.len() - 1];
        assert(es.last() == last);
        assert(es2.last() == last);
        assert(es2.drop_last() =~= es.drop_last().update(i, e));
        assert(forall|j: int| 0 <= j < es.drop_last().len() ==> (#[trigger] es.drop_last()[j])
            == es[j]);
        lemma_map_of_entries_update(es.drop_last(), i, e);
        assert(last.id != e.id);
        assert(map_of_entries(es.drop_last()).insert(e.id as int, e).insert(last.id as int, last)
            =~= map_of_entries(es.drop_last()).insert(last.id as int, last).insert(
            e.id as int,
            e,
        ));
    }
}

/// The game-lump directory: entries keyed by identifier, a later entry
/// replacing an earlier one with the same identifier.
pub struct GameLumpDir {
    entries: Vec<DGameLumpT>,
}

impl View for GameLumpDir {
    type V = Map<int, DGameLumpT>;

    closed spec fn view(&self) -> Map<int, DGameLumpT> {
        map_of_entries(self.entries@)
    }
}

impl GameLumpDir {
    #[verifier::type_invariant]
    spec fn wf(self) -> bool {
        forall|i: int, j: int|
            0 <= i < j < self.entries@.len() ==> (#[trigger] self.entries@[i]).id
                != (#[trigger] self.entries@[j]).id
    }

    /// An empty directory.
    pub fn new() -> (r: GameLumpDir)
        ensures
            r@ == Map::<int, DGameLumpT>::empty(),
    {
        let r = GameLumpDir { entries: Vec::new() };
        proof {
            assert(r.entries@ =~= Seq::<DGameLumpT>::empty());
        }
        r
    }

    /// Index of the entry with identifier `id`, if any.
    fn find(&self, id: i32) -> (r: Option<usize>)
        ensures
            r matches Some(i) ==> i < self.entries@.len() && self.entries@[i as int].id == id,
            r is None ==> forall|i: int|
                0 <= i < self.entries@.len() ==> (#[trigger] self.entries@[i]).id != id,
    {
        let n = self.entries.len();
        let mut i: usize = 0;
        while i < n
            invariant
                n == self.entries@.len(),
                i <= n,
                forall|j: int| 0 <= j < i ==> (#[trigger] self.entries@[j]).id != id,
            decreases n - i,
        {
            if self.entries[i].id == id {
                return Some(i);
            }
            i = i + 1;
        }
        None
    }

    /// The directory with `e` bound to its identifier, any earlier
    /// entry for that identifier replaced.
    pub fn insert(self, e: DGameLumpT) -> (r: GameLumpDir)
        ensures
            r@ == self@.insert(e.id as int, e),
    {
        proof {
            use_type_invariant(&self);
        }
        let found = self.find(e.id);
        let GameLumpDir { mut entries } = self;
        match found {
            Some(i) => {
                proof {
                    lemma_map_of_entries_update(entries@, i as int, e);
                }
                entries[i] = e;
            },
            None => {
                let ghost old_entries = entries@;
                entries.push(e);
                proof {
                    assert(entries@.drop_last() =~= old_entries);
                }
            },
        }
        GameLumpDir { entries }
    }

    /// The entry with identifier `id`, if any.
    pub fn get(&self, id: i32) -> (r: Option<&DGameLumpT>)
        ensures
            r is Some <==> self@.contains_key(id as int),
            r matches Some(e) ==> self@.contains_key(id as int) && self@[id as int] == *e,
    {
        proof {
            use_type_invariant(&*self);
        }
        match self.find(id) {
            Some(i) => {
                proof {
                    lemma_map_of_entries_last(self.entries@, i as int);
                }
                Some(&self.entries[i])
            },
            None => {
                proof {
                    lemma_map_of_entries_absent(self.entries@, id as int);
                }
                None
            },
        }
    }
}

/// Byte offset of game-lump directory record `i`, for a directory that
/// starts at `base`.
pub open spec fn game_rec_ofs(base: int, i: int) -> int {
    base + 4 + 16 * i
}

/// Whether record `i` of the directory at `base` lies inside the file.
pub open spec fn game_rec_ok(d: Seq<u8>, base: int, i: int) -> bool {
    0 <= game_rec_ofs(base, i) && game_rec_ofs(base, i) + 16 <= d.len()
}

/// The fields of record `i` of the directory at `base`, as the bytes of
/// `d` spell them.
pub open spec fn spec_game_rec(d: Seq<u8>, base: int, i: int) -> DGameLumpT {
    let off = game_rec_ofs(base, i);
    DGameLumpT {
        id: le_i32_at(d, off) as i32,
        flags: le_u16_at(d, off + 4) as u16,
        version: le_u16_at(d, off + 6) as u16,
        file_ofs: le_i32_at(d, off + 8) as i32,
        file_len: le_i32_at(d, off + 12) as i32,
    }
}

/// The directory built from the first `n` records at `base`, keyed by
/// identifier; a record that does not lie inside the file is skipped,
/// and a later record replaces an earlier one with the same identifier.
pub open spec fn game_dir_map(d: Seq<u8>, base: int, n: int) -> Map<int, DGameLumpT>
    decreases n,
{
    if n <= 0 {
        Map::empty()
    } else {
        let m = game_dir_map(d, base, n - 1);
        if game_rec_ok(d, base, n - 1) {
            m.insert(spec_game_rec(d, base, n - 1).id as int, spec_game_rec(d, base, n - 1))
        } else {
            m
        }
    }
}

/// Whether the record count of the game-lump directory can be read: the
/// directory lump's offset is non-negative and four bytes fit.
pub open spec fn game_dir_readable(d: Seq<u8>) -> bool {
    0 <= lump_ofs(d, 35) && lump_ofs(d, 35) + 4 <= d.len()
}

/// The game-lump directory of the file: the records that its leading
/// count announces, keyed by identifier.
pub open spec fn game_dir_of(d: Seq<u8>) -> Map<int, DGameLumpT> {
    game_dir_map(d, lump_ofs(d, 35), le_i32_at(d, lump_ofs(d, 35)))
}

/// Byte offset of static-prop name record `i`, for a dictionary that
/// starts at `base`.
pub open spec fn prop_rec_ofs(base: int, i: int) -> int {
    base + 4 + 128 * i
}

/// Whether name record `i` of the dictionary at `base` lies inside the
/// file.
pub open spec fn prop_rec_ok(d: Seq<u8>, base: int, i: int) -> bool {
    0 <= prop_rec_ofs(base, i) && prop_rec_ofs(base, i) + 128 <= d.len()
}

/// The name of record `i` of the dictionary at `base`: its 128 bytes
/// with the NUL padding removed, decoded as UTF-8; none when the record
/// does not lie inside the file or the remaining bytes are not UTF-8.
pub open spec fn prop_name_at(d: Seq<u8>, base: int, i: int) -> Option<Seq<char>> {
    if !prop_rec_ok(d, base, i) {
        None
    } else {
        let b = d.subrange(prop_rec_ofs(base, i), prop_rec_ofs(base, i) + 128).filter(
            |x: u8| x != 0,
        );
        if valid_utf8(b) {
            Some(decode_utf8(b))
        } else {
            None
        }
    }
}

/// The names of the first `n` records of the dictionary at `base`, in
/// order; a record without a name is skipped.
pub open spec fn prop_names(d: Seq<u8>, base: int, n: int) -> Seq<Seq<char>>
    decreases n,
{
    if n <= 0 {
        Seq::empty()
    } else {
        prop_names(d, base, n - 1) + match prop_name_at(d, base, n - 1) {
            Some(s) => seq![s],
            None => Seq::empty(),
        }
    }
}

/// Law: a dictionary whose `n` records all lie inside the file and
/// decode yields exactly `n` names, in order, and no name has more
/// characters than its record had source bytes.
pub proof fn lemma_prop_names_count(d: Seq<u8>, base: int, n: int)
    requires
        0 <= n,
        forall|i: int| 0 <= i < n ==> (#[trigger] prop_name_at(d, base, i)) is Some,
    ensures
        prop_names(d, base, n).len() == n,
        forall|i: int|
            0 <= i < n ==> #[trigger] prop_names(d, base, n)[i] == prop_name_at(d, base, i)->0,
        forall|i: int| 0 <= i < n ==> (#[trigger] prop_names(d, base, n)[i]).len() <= 128,
    decreases n,
{
    if n > 0 {
        lemma_prop_names_count(d, base, n - 1);
        assert(prop_name_at(d, base, n - 1) is Some);
        let rec = d.subrange(prop_rec_ofs(base, n - 1), prop_rec_ofs(base, n - 1) + 128);
        let kept = rec.filter(|x: u8| x != 0);
        assert(valid_utf8(kept));
        rec.lemma_filter_len(|x: u8| x != 0);
        crate::text::lemma_decode_utf8_len(kept);
    }
}

/// `b` split at every NUL byte: one segment per stretch between NULs,
/// including empty ones.
pub open spec fn split_nul(b: Seq<u8>) -> Seq<Seq<u8>>
    decreases b.len(),
    via split_nul_decreases
{
    let j = find_byte(b, 0);
    if j >= b.len() {
        seq![b]
    } else {
        seq![b.take(j)] + split_nul(b.subrange(j + 1, b.len() as int))
    }
}

#[via_fn]
proof fn split_nul_decreases(b: Seq<u8>) {
    lemma_find_byte(b, 0);
}

/// `b` split at every NUL byte, a trailing empty segment dropped: the
/// NUL-terminated tokens of `b`.
pub open spec fn nul_segments(b: Seq<u8>) -> Seq<Seq<u8>> {
    let segs = split_nul(b);
    if segs.len() > 0 && segs.last().len() == 0 {
        segs.drop_last()
    } else {
        segs
    }
}

/// The material name made from one token: the token decoded as UTF-8,
/// lowercased, with the material file extension appended.
pub open spec fn material_name_of(seg: Seq<u8>) -> Seq<char> {
    lower_of(decode_utf8(seg)) + ".vmt"@
}

/// Splits `b` at every NUL byte.
fn split_nul_exec(b: Vec<u8>) -> (r: Vec<Vec<u8>>)
    ensures
        r.deep_view() == split_nul(b@),
    decreases b@.len(),
{
    proof {
        lemma_find_byte(b@, 0);
    }
    match find_byte_exec(&b, 0) {
        None => {
            let ghost bv = b@;
            let mut r: Vec<Vec<u8>> = Vec::new();
            r.push(b);
            proof {
                assert(r.deep_view() =~~= seq![bv]);
                assert(split_nul(bv) == seq![bv]);
            }
            r
        },
        Some(j) => {
            let blen = b.len();
            assert(j < blen);
            let head = vstd::slice::slice_to_vec(vstd::slice::slice_subrange(b.as_slice(), 0, j));
            let tail = vstd::slice::slice_to_vec(
                vstd::slice::slice_subrange(b.as_slice(), j + 1, blen),
            );
            let ghost bv = b@;
            let ghost headv = head@;
            let mut r = split_nul_exec(tail);
            let ghost pre = r.deep_view();
            let ghost prev = r@;
            r.insert(0, head);
            proof {
                let want = seq![bv.take(j as int)] + split_nul(bv.subrange(j + 1, bv.len() as int));
                assert(r@ == prev.insert(0, head));
                assert(r@.len() == prev.len() + 1);
                assert forall|k: int| 0 <= k < r@.len() implies #[trigger] r.deep_view()[k]
                    == want[k] by {
                    if k == 0 {
                        assert(headv == bv.take(j as int));
                        assert(r.deep_view()[0] =~= headv);
                    } else {
                        assert(r@[k] == prev[k - 1]);
                        assert(pre[k - 1] == prev[k - 1].deep_view());
                    }
                }
                assert(r.deep_view() =~= want);
            }
            r
        },
    }
}

/// The decoded level container: the file's bytes together with its
/// checked header fields.
pub struct DHeaderT {
    data: Vec<u8>,
    ident: [u8; 4],
    version: i32,
    lumps: Vec<LumpT>,
    map_revision: i32,
}

impl DHeaderT {
    #[verifier::type_invariant]
    spec fn wf(self) -> bool {
        &&& self.data@.len() >= HEADER_SIZE
        &&& self.lumps@.len() == HEADER_LUMPS
        &&& forall|i: int| 0 <= i < 64 ==> lump_matches(#[trigger] self.lumps@[i], self.data@, i)
        &&& self.ident@ == self.data@.subrange(0, 4)
        &&& self.version as int == le_i32_at(self.data@, 4)
        &&& self.map_revision as int == le_i32_at(self.data@, 1032)
    }

    /// The container file's bytes.
    pub closed spec fn file_data(&self) -> Seq<u8> {
        self.data@
    }

    /// Decodes the fixed header from the container file's bytes; `None`
    /// when the file is shorter than the fixed header size.
    pub fn new(data: Vec<u8>) -> (r: Option<DHeaderT>)
        ensures
            r is Some <==> data@.len() >= HEADER_SIZE,
            r matches Some(h) ==> h.file_data() == data@,
    {
        if data.len() < HEADER_SIZE {
            return None;
        }
        let ident = get_bytes_4(&data, 0).unwrap();
        let version = i32_at(&data, 4).unwrap();
        let map_revision = i32_at(&data, 1032).unwrap();
        let mut lumps: Vec<LumpT> = Vec::new();
        let mut i: usize = 0;
        while i < HEADER_LUMPS
            invariant
                data@.len() >= HEADER_SIZE,
                i <= HEADER_LUMPS,
                lumps@.len() == i,
                forall|j: int| 0 <= j < i ==> lump_matches(#[trigger] lumps@[j], data@, j),
            decreases HEADER_LUMPS - i,
        {
            let l = match LumpT::new(&data, i) {
                Some(l) => l,
                None => LumpT { file_ofs: 0, file_len: 0, version: 0, four_cc: [0, 0, 0, 0] },
            };
            lumps.push(l);
            i = i + 1;
        }
        Some(DHeaderT { data, ident, version, lumps, map_revision })
    }

    /// The four-byte file identifier.
    pub fn ident(&self) -> (r: [u8; 4])
        ensures
            r@ == self.file_data().subrange(0, 4),
    {
        proof {
            use_type_invariant(&*self);
        }
        self.ident
    }

    /// The container format version.
    pub fn version(&self) -> (r: i32)
        ensures
            r as int == le_i32_at(self.file_data(), 4),
    {
        proof {
            use_type_invariant(&*self);
        }
        self.version
    }

    /// The map revision counter following the lump directory.
    pub fn map_revision(&self) -> (r: i32)
        ensures
            r as int == le_i32_at(self.file_data(), 1032),
    {
        proof {
            use_type_invariant(&*self);
        }
        self.map_revision
    }

    /// The descriptor of lump `lump_id`; `None` when `lump_id` is not an
    /// index of the 64-entry directory.
    pub fn get_lump_info(&self, lump_id: usize) -> (r: Option<&LumpT>)
        ensures
            r is Some <==> lump_id < HEADER_LUMPS,
            r matches Some(l) ==> lump_matches(*l, self.file_data(), lump_id as int),
    {
        proof {
            use_type_invariant(&*self);
        }
        if lump_id < HEADER_LUMPS {
            Some(&self.lumps[lump_id])
        } else {
            None
        }
    }

    /// The raw bytes of lump `lump_id`: exactly its descriptor's length,
    /// starting at its descriptor's offset. `None` when the index is out
    /// of the directory or the lump does not lie inside the file.
    pub fn lump_bytes(&self, lump_id: usize) -> (r: Option<Vec<u8>>)
        ensures
            r is Some <==> lump_id < HEADER_LUMPS && lump_in_range(
                self.file_data(),
                lump_id as int,
            ),
            r matches Some(v) ==> v@ == lump_data(self.file_data(), lump_id as int) && v@.len()
                == lump_len(self.file_data(), lump_id as int),
    {
        proof {
            use_type_invariant(&*self);
        }
        if lump_id >= HEADER_LUMPS {
            return None;
        }
        let info = &self.lumps[lump_id];
        if info.file_ofs < 0 || info.file_len < 0 {
            return None;
        }
        let ofs = info.file_ofs as usize;
        let len = info.file_len as usize;
        if ofs > self.data.len() || self.data.len() - ofs < len {
            return None;
        }
        let s = vstd::slice::slice_subrange(self.data.as_slice(), ofs, ofs + len);
        Some(vstd::slice::slice_to_vec(s))
    }

    /// The entity records of lump 0: one table per brace block of the
    /// lump's text. `None` exactly when the lump does not lie inside
    /// the file or its bytes are not UTF-8; text without blocks gives
    /// an empty list.
    pub fn get_lump_0(&self) -> (r: Option<Vec<PropTable>>)
        ensures
            r is Some <==> lump_in_range(self.file_data(), 0) && valid_utf8(
                lump_data(self.file_data(), 0),
            ),
            r matches Some(ts) ==> {
                let blocks = brace_blocks(decode_utf8(lump_data(self.file_data(), 0)));
                &&& ts@.len() == blocks.len()
                &&& forall|i: int|
                    0 <= i < blocks.len() ==> (#[trigger] ts@[i])@ == map_of_pairs(
                        quoted_pairs(blocks[i]),
                    )
            },
    {
        let data = match self.lump_bytes(0) {
            Some(v) => v,
            None => return None,
        };
        let text = match bytes_to_utf8(data.as_slice()) {
            Some(t) => t,
            None => return None,
        };
        crate::kv::parse_entities(text.as_str())
    }

    /// The game-lump directory: a leading record count at the
    /// directory lump's offset, then that many fixed-size entries keyed
    /// by identifier; a record outside the file is skipped, and a later
    /// duplicate identifier replaces an earlier one. `None` when the
    /// count cannot be read.
    pub fn get_lump_35(&self) -> (r: Option<GameLumpDir>)
        ensures
            r is Some <==> game_dir_readable(self.file_data()),
            r matches Some(g) ==> g@ == game_dir_of(self.file_data()),
    {
        proof {
            use_type_invariant(&*self);
        }
        let info = &self.lumps[35];
        if info.file_ofs < 0 {
            return None;
        }
        let base = info.file_ofs as usize;
        let count = match i32_at(&self.data, base) {
            Some(c) => c,
            None => return None,
        };
        let n: i32 = if count < 0 {
            0
        } else {
            count
        };
        let mut dir = GameLumpDir::new();
        let mut i: i32 = 0;
        while i < n
            invariant
                base as int == lump_ofs(self.data@, 35),
                count as int == le_i32_at(self.data@, base as int),
                n == if count < 0 {
                    0i32
                } else {
                    count
                },
                0 <= i <= n,
                dir@ == game_dir_map(self.data@, base as int, i as int),
            decreases n - i,
        {
            let off64: u64 = base as u64 + 4 + 16 * (i as u64);
            if off64 + 16 <= self.data.len() as u64 {
                let off = off64 as usize;
                let rec = DGameLumpT {
                    id: i32_at(&self.data, off).unwrap(),
                    flags: u16_at(&self.data, off + 4).unwrap(),
                    version: u16_at(&self.data, off + 6).unwrap(),
                    file_ofs: i32_at(&self.data, off + 8).unwrap(),
                    file_len: i32_at(&self.data, off + 12).unwrap(),
                };
                proof {
                    assert(rec == spec_game_rec(self.data@, base as int, i as int));
                }
                dir = dir.insert(rec);
            } else {
                proof {
                    assert(!game_rec_ok(self.data@, base as int, i as int));
                }
            }
            i = i + 1;
        }
        Some(dir)
    }

    /// The static-prop model names: the game lump with the static-prop
    /// identifier holds a leading name count, then that many 128-byte
    /// NUL-padded name records. A record outside the file, or one whose
    /// bytes are not UTF-8, is skipped. `None` when the game-lump
    /// directory, the static-prop entry or its count cannot be read.
    pub fn get_prop_static(&self) -> (r: Option<Vec<String>>)
        ensures
            r is Some <==> game_dir_readable(self.file_data()) && game_dir_of(
                self.file_data(),
            ).contains_key(PROP_STATIC_ID as int) && 0 <= game_dir_of(self.file_data())[
                PROP_STATIC_ID as int
            ].file_ofs && game_dir_of(self.file_data())[PROP_STATIC_ID as int].file_ofs + 4
                <= self.file_data().len(),
            r matches Some(names) ==> {
                let base = game_dir_of(self.file_data())[PROP_STATIC_ID as int].file_ofs as int;
                names.deep_view() == prop_names(
                    self.file_data(),
                    base,
                    le_i32_at(self.file_data(), base),
                )
            },
    {
        proof {
            use_type_invariant(&*self);
        }
        let dir = match self.get_lump_35() {
            Some(d) => d,
            None => return None,
        };
        let entry = match dir.get(PROP_STATIC_ID) {
            Some(e) => *e,
            None => return None,
        };
        if entry.file_ofs < 0 {
            return None;
        }
        let base = entry.file_ofs as usize;
        let count = match i32_at(&self.data, base) {
            Some(c) => c,
            None => return None,
        };
        let n: i32 = if count < 0 {
            0
        } else {
            count
        };
        let mut names: Vec<String> = Vec::new();
        let mut i: i32 = 0;
        while i < n
            invariant
                base as int == game_dir_of(self.data@)[PROP_STATIC_ID as int].file_ofs as int,
                count as int == le_i32_at(self.data@, base as int),
                n == if count < 0 {
                    0i32
                } else {
                    count
                },
                0 <= i <= n,
                names.deep_view() == prop_names(self.data@, base as int, i as int),
            decreases n - i,
        {
            let ghost old_names = names.deep_view();
            let off64: u64 = base as u64 + 4 + 128 * (i as u64);
            if off64 + 128 <= self.data.len() as u64 {
                let off = off64 as usize;
                let rec = vstd::slice::slice_to_vec(
                    vstd::slice::slice_subrange(self.data.as_slice(), off, off + 128),
                );
                let kept = filter_nonzero(&rec);
                match bytes_to_utf8(kept.as_slice()) {
                    Some(s) => {
                        proof {
                            assert(prop_name_at(self.data@, base as int, i as int) == Some(s@));
                        }
                        names.push(s);
                        proof {
                            assert(names.deep_view() =~= old_names + seq![s@]);
                        }
                    },
                    None => {
                        proof {
                            assert(prop_name_at(self.data@, base as int, i as int) is None);
                        }
                    },
                }
            } else {
                proof {
                    assert(!prop_rec_ok(self.data@, base as int, i as int));
                }
            }
            i = i + 1;
        }
        Some(names)
    }

    /// The material-name list of lump 43: the lump's bytes split at NUL
    /// terminators, each token decoded as UTF-8, lowercased and given
    /// the material file extension. `None` when the lump does not lie
    /// inside the file or any token is not UTF-8.
    pub fn get_lump_43(&self) -> (r: Option<Vec<String>>)
        ensures
            ({
                let segs = nul_segments(lump_data(self.file_data(), 43));
                &&& (r is Some <==> lump_in_range(self.file_data(), 43) && (forall|i: int|
                    0 <= i < segs.len() ==> valid_utf8(#[trigger] segs[i])))
                &&& (r matches Some(names) ==> names.deep_view().len() == segs.len() && (forall|
                    i: int,
                |
                    0 <= i < segs.len() ==> names.deep_view()[i] == material_name_of(
                        #[trigger] segs[i],
                    )))
            }),
    {
        let data = match self.lump_bytes(43) {
            Some(v) => v,
            None => return None,
        };
        let ghost ld = data@;
        let mut segs = split_nul_exec(data);
        proof {
            assert(split_nul(ld).len() > 0);
            assert(segs.deep_view().len() == segs@.len());
        }
        if segs[segs.len() - 1].len() == 0 {
            segs.pop();
            proof {
                assert(segs.deep_view() =~= split_nul(ld).drop_last());
            }
        }
        proof {
            assert(segs.deep_view() == nul_segments(ld));
        }
        let mut names: Vec<String> = Vec::new();
        let m = segs.len();
        let mut idx: usize = 0;
        while idx < m
            invariant
                m == segs@.len(),
                segs.deep_view().len() == m,
                segs.deep_view() == nul_segments(lump_data(self.file_data(), 43)),
                lump_in_range(self.file_data(), 43),
                idx <= m,
                names.deep_view().len() == idx,
                forall|j: int| 0 <= j < idx ==> valid_utf8(#[trigger] segs.deep_view()[j]),
                forall|j: int|
                    0 <= j < idx ==> #[trigger] names.deep_view()[j] == material_name_of(
                        segs.deep_view()[j],
                    ),
            decreases m - idx,
        {
            let ghost old_names = names.deep_view();
            proof {
                assert(segs.deep_view()[idx as int] =~= segs@[idx as int]@);
            }
            let s = match bytes_to_utf8(segs[idx].as_slice()) {
                Some(s) => s,
                None => {
                    proof {
                        assert(!valid_utf8(
                            nul_segments(lump_data(self.file_data(), 43))[idx as int],
                        ));
                    }
                    return None;
                },
            };
            let low = lowercase(s.as_str());
            names.push(with_suffix(low.as_str(), ".vmt"));
            proof {
                assert(names.deep_view() =~= old_names + seq![
                    material_name_of(segs.deep_view()[idx as int]),
                ]);
            }
            idx = idx + 1;
        }
        Some(names)
    }
}

} // verus!
