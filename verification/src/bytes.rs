//! Little-endian scalar decoding from byte buffers.
//!
//! Every record of the container formats is a sequence of little-endian
//! integers at fixed offsets; these are the primitive readers that all
//! decoders share.

use vstd::prelude::*;

verus! {

/// Value of two little-endian bytes, as an unsigned integer.
pub open spec fn le_u16(b: Seq<u8>) -> int
    recommends
        b.len() == 2,
{
    b[0] + 0x100 * b[1]
}

/// Value of four little-endian bytes, as an unsigned integer.
pub open spec fn le_u32(b: Seq<u8>) -> int
    recommends
        b.len() == 4,
{
    b[0] + 0x100 * b[1] + 0x10000 * b[2] + 0x100_0000 * b[3]
}

/// Value of two little-endian bytes, as a two's-complement signed integer.
pub open spec fn le_i16(b: Seq<u8>) -> int
    recommends
        b.len() == 2,
{
    if le_u16(b) < 0x8000 {
        le_u16(b)
    } else {
        le_u16(b) - 0x1_0000
    }
}

/// Value of four little-endian bytes, as a two's-complement signed integer.
pub open spec fn le_i32(b: Seq<u8>) -> int
    recommends
        b.len() == 4,
{
    if le_u32(b) < 0x8000_0000 {
        le_u32(b)
    } else {
        le_u32(b) - 0x1_0000_0000
    }
}

/// The unsigned 16-bit field at byte offset `off` of `d`.
pub open spec fn le_u16_at(d: Seq<u8>, off: int) -> int
    recommends
        0 <= off && off + 2 <= d.len(),
{
    le_u16(d.subrange(off, off + 2))
}

/// The signed 32-bit field at byte offset `off` of `d`.
pub open spec fn le_i32_at(d: Seq<u8>, off: int) -> int
    recommends
        0 <= off && off + 4 <= d.len(),
{
    le_i32(d.subrange(off, off + 4))
}

/// Index of the first occurrence of `x` in `s`, or `s.len()` when `s`
/// does not contain `x`.
pub open spec fn find_byte(s: Seq<u8>, x: u8) -> int
    decreases s.len(),
{
    if s.len() == 0 {
        0
    } else if s[0] == x {
        0
    } else {
        1 + find_byte(s.drop_first(), x)
    }
}

/// `find_byte` is the position of the first occurrence.
pub broadcast proof fn lemma_find_byte(s: Seq<u8>, x: u8)
    ensures
        0 <= #[trigger] find_byte(s, x) <= s.len(),
        find_byte(s, x) < s.len() ==> s[find_byte(s, x)] == x,
        forall|i: int| 0 <= i < find_byte(s, x) ==> s[i] != x,
    decreases s.len(),
{
    if s.len() != 0 && s[0] != x {
        lemma_find_byte(s.drop_first(), x);
        assert forall|i: int| 0 <= i < find_byte(s, x) implies s[i] != x by {
            if i > 0 {
                assert(s.drop_first()[i - 1] == s[i]);
            }
        }
    }
}

/// Index of the first occurrence of `x` in `b`, or none.
pub fn find_byte_exec(b: &Vec<u8>, x: u8) -> (r: Option<usize>)
    ensures
        r matches Some(i) ==> i == find_byte(b@, x) && i < b@.len() && b@[i as int] == x,
        r is None ==> find_byte(b@, x) == b@.len(),
{
    let n = b.len();
    let mut i: usize = 0;
    while i < n
        invariant
            n == b@.len(),
            i <= n,
            forall|k: int| 0 <= k < i ==> b@[k] != x,
        decreases n - i,
    {
        if b[i] == x {
            proof {
                lemma_find_byte(b@, x);
                let f = find_byte(b@, x);
                if f < i as int {
                    assert(b@[f] != x);
                }
                if f > i as int {
                    assert(b@[i as int] != x);
                }
            }
            return Some(i);
        }
        i = i + 1;
    }
    proof {
        lemma_find_byte(b@, x);
    }
    None
}

/// The bytes of `v` that differ from zero, in order.
pub fn filter_nonzero(v: &Vec<u8>) -> (r: Vec<u8>)
    ensures
        r@ == v@.filter(|b: u8| b != 0),
{
    let mut r: Vec<u8> = Vec::new();
    let n = v.len();
    let mut i: usize = 0;
    proof {
        reveal(Seq::filter);
    }
    while i < n
        invariant
            n == v@.len(),
            i <= n,
            r@ == v@.take(i as int).filter(|b: u8| b != 0),
        decreases n - i,
    {
        proof {
            reveal(Seq::filter);
            assert(v@.take(i + 1).drop_last() =~= v@.take(i as int));
            assert(v@.take(i + 1).last() == v@[i as int]);
        }
        if v[i] != 0 {
            r.push(v[i]);
        }
        i = i + 1;
    }
    proof {
        assert(v@.take(n as int) =~= v@);
    }
    r
}

/// A scalar that can be decoded from a little-endian byte slice of its
/// exact width.
pub trait FromSlice: Sized {
    /// What `from_u8_slice` returns on a buffer with this byte content.
    spec fn spec_from_slice(b: Seq<u8>) -> Option<Self>;

    /// Decodes the scalar; `None` when the slice has the wrong length.
    fn from_u8_slice(slice: &[u8]) -> (r: Option<Self>)
        ensures
            r == Self::spec_from_slice(slice@),
    ;
}

impl FromSlice for u16 {
    open spec fn spec_from_slice(b: Seq<u8>) -> Option<u16> {
        if b.len() == 2 {
            Some(le_u16(b) as u16)
        } else {
            None
        }
    }

    fn from_u8_slice(slice: &[u8]) -> (r: Option<u16>) {
        if slice.len() == 2 {
            let b0 = *vstd::slice::slice_index_get(slice, 0);
            let b1 = *vstd::slice::slice_index_get(slice, 1);
            Some(b0 as u16 + b1 as u16 * 0x100)
        } else {
            None
        }
    }
}

impl FromSlice for i16 {
    open spec fn spec_from_slice(b: Seq<u8>) -> Option<i16> {
        if b.len() == 2 {
            Some(le_i16(b) as i16)
        } else {
            None
        }
    }

    fn from_u8_slice(slice: &[u8]) -> (r: Option<i16>) {
        match u16::from_u8_slice(slice) {
            Some(u) => {
                if u < 0x8000 {
                    Some(u as i16)
                } else {
                    Some(((u - 0x8000) as i16) - 0x7fff - 1)
                }
            },
            None => None,
        }
    }
}

impl FromSlice for i32 {
    open spec fn spec_from_slice(b: Seq<u8>) -> Option<i32> {
        if b.len() == 4 {
            Some(le_i32(b) as i32)
        } else {
            None
        }
    }

    fn from_u8_slice(slice: &[u8]) -> (r: Option<i32>) {
        if slice.len() == 4 {
            let b0 = *vstd::slice::slice_index_get(slice, 0);
            let b1 = *vstd::slice::slice_index_get(slice, 1);
            let b2 = *vstd::slice::slice_index_get(slice, 2);
            let b3 = *vstd::slice::slice_index_get(slice, 3);
            let u: u32 = b0 as u32 + b1 as u32 * 0x100 + b2 as u32 * 0x10000 + b3 as u32
                * 0x100_0000;
            if u < 0x8000_0000 {
                Some(u as i32)
            } else {
                Some(((u - 0x8000_0000) as i32) - 0x7fff_ffff - 1)
            }
        } else {
            None
        }
    }
}

/// Decodes the little-endian signed 32-bit value filling `slice`.
pub fn i32_from_slice(slice: &[u8]) -> (r: Option<i32>)
    ensures
        r == <i32 as FromSlice>::spec_from_slice(slice@),
{
    i32::from_u8_slice(slice)
}

/// Reads the unsigned 16-bit field at offset `off`; `None` when the field
/// does not lie inside the buffer.
pub fn u16_at(d: &Vec<u8>, off: usize) -> (r: Option<u16>)
    ensures
        r is Some <==> off + 2 <= d@.len(),
        r matches Some(v) ==> v == le_u16_at(d@, off as int),
{
    if off <= d.len() && d.len() - off >= 2 {
        let b0 = d[off];
        let b1 = d[off + 1];
        let v: u16 = b0 as u16 + b1 as u16 * 0x100;
        assert(d@.subrange(off as int, off as int + 2)[0] == b0);
        assert(d@.subrange(off as int, off as int + 2)[1] == b1);
        Some(v)
    } else {
        None
    }
}

/// Reads the signed 32-bit field at offset `off`; `None` when the field
/// does not lie inside the buffer.
pub fn i32_at(d: &Vec<u8>, off: usize) -> (r: Option<i32>)
    ensures
        r is Some <==> off + 4 <= d@.len(),
        r matches Some(v) ==> v == le_i32_at(d@, off as int),
{
    if off <= d.len() && d.len() - off >= 4 {
        let b0 = d[off];
        let b1 = d[off + 1];
        let b2 = d[off + 2];
        let b3 = d[off + 3];
        let u: u32 = b0 as u32 + b1 as u32 * 0x100 + b2 as u32 * 0x10000 + b3 as u32 * 0x100_0000;
        assert(d@.subrange(off as int, off as int + 4)[0] == b0);
        assert(d@.subrange(off as int, off as int + 4)[1] == b1);
        assert(d@.subrange(off as int, off as int + 4)[2] == b2);
        assert(d@.subrange(off as int, off as int + 4)[3] == b3);
        if u < 0x8000_0000 {
            Some(u as i32)
        } else {
            Some(((u - 0x8000_0000) as i32) - 0x7fff_ffff - 1)
        }
    } else {
        None
    }
}

/// Copies the four bytes starting at `start`; `None` when they do not lie
/// inside the buffer.
pub fn get_bytes_4(bytes: &Vec<u8>, start: usize) -> (r: Option<[u8; 4]>)
    ensures
        r is Some <==> start + 4 <= bytes@.len(),
        r matches Some(a) ==> a@ == bytes@.subrange(start as int, start as int + 4),
{
    if start <= bytes.len() && bytes.len() - start >= 4 {
        let a: [u8; 4] = [bytes[start], bytes[start + 1], bytes[start + 2], bytes[start + 3]];
        assert(a@ =~= bytes@.subrange(start as int, start as int + 4));
        Some(a)
    } else {
        None
    }
}

} // verus!
