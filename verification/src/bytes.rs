//! Byte-string and little-endian integer helpers shared by the on-device
//! formats (superblock, bitmap, file table) and the wire-format parsers.

use vstd::prelude::*;

verus! {

/// The two little-endian bytes of `v`.
pub open spec fn u16_le(v: u16) -> Seq<u8> {
    Seq::new(2, |i: int| (v >> (8 * i)) as u8)
}

/// The four little-endian bytes of `v`.
pub open spec fn u32_le(v: u32) -> Seq<u8> {
    Seq::new(4, |i: int| (v >> (8 * i)) as u8)
}

/// The eight little-endian bytes of `v`.
pub open spec fn u64_le(v: u64) -> Seq<u8> {
    Seq::new(8, |i: int| (v >> (8 * i)) as u8)
}

/// The `u16` read little-endian from the first two entries of `s`.
pub open spec fn u16_from_le(s: Seq<u8>) -> u16 {
    (s[0] as u16) | ((s[1] as u16) << 8)
}

/// The `u32` read little-endian from the first four entries of `s`.
pub open spec fn u32_from_le(s: Seq<u8>) -> u32 {
    (s[0] as u32) | ((s[1] as u32) << 8) | ((s[2] as u32) << 16) | ((s[3] as u32) << 24)
}

/// The `u64` read little-endian from the first eight entries of `s`.
pub open spec fn u64_from_le(s: Seq<u8>) -> u64 {
    (s[0] as u64) | ((s[1] as u64) << 8) | ((s[2] as u64) << 16) | ((s[3] as u64) << 24) | (
    (s[4] as u64) << 32) | ((s[5] as u64) << 40) | ((s[6] as u64) << 48) | ((s[7] as u64) << 56)
}

/// Encoding then decoding a `u16` gives the value back.
pub proof fn lemma_u16_le_round_trip(v: u16)
    ensures
        u16_from_le(u16_le(v)) == v,
{
    let s = u16_le(v);
    assert(((v >> 0) as u8 as u16) | (((v >> 8) as u8 as u16) << 8) == v) by (bit_vector);
}

/// Encoding then decoding a `u32` gives the value back.
pub proof fn lemma_u32_le_round_trip(v: u32)
    ensures
        u32_from_le(u32_le(v)) == v,
{
    let s = u32_le(v);
    assert(((v >> 0) as u8 as u32) | (((v >> 8) as u8 as u32) << 8) | (((v >> 16) as u8 as u32)
        << 16) | (((v >> 24) as u8 as u32) << 24) == v) by (bit_vector);
}

/// Encoding then decoding a `u64` gives the value back.
pub proof fn lemma_u64_le_round_trip(v: u64)
    ensures
        u64_from_le(u64_le(v)) == v,
{
    let s = u64_le(v);
    assert(((v >> 0) as u8 as u64) | (((v >> 8) as u8 as u64) << 8) | (((v >> 16) as u8 as u64)
        << 16) | (((v >> 24) as u8 as u64) << 24) | (((v >> 32) as u8 as u64) << 32) | (((v >> 40)
        as u8 as u64) << 40) | (((v >> 48) as u8 as u64) << 48) | (((v >> 56) as u8 as u64) << 56)
        == v) by (bit_vector);
}

/// Append the two little-endian bytes of `v`.
pub fn put_u16(out: &mut Vec<u8>, v: u16)
    ensures
        final(out)@ == old(out)@ + u16_le(v),
{
    out.push((v >> 0) as u8);
    out.push((v >> 8) as u8);
    proof {
        assert(final(out)@ =~= old(out)@ + u16_le(v));
    }
}

/// Append the four little-endian bytes of `v`.
pub fn put_u32(out: &mut Vec<u8>, v: u32)
    ensures
        final(out)@ == old(out)@ + u32_le(v),
{
    out.push((v >> 0) as u8);
    out.push((v >> 8) as u8);
    out.push((v >> 16) as u8);
    out.push((v >> 24) as u8);
    proof {
        assert(final(out)@ =~= old(out)@ + u32_le(v));
    }
}

/// Append the eight little-endian bytes of `v`.
pub fn put_u64(out: &mut Vec<u8>, v: u64)
    ensures
        final(out)@ == old(out)@ + u64_le(v),
{
    out.push((v >> 0) as u8);
    out.push((v >> 8) as u8);
    out.push((v >> 16) as u8);
    out.push((v >> 24) as u8);
    out.push((v >> 32) as u8);
    out.push((v >> 40) as u8);
    out.push((v >> 48) as u8);
    out.push((v >> 56) as u8);
    proof {
        assert(final(out)@ =~= old(out)@ + u64_le(v));
    }
}

/// Read a `u16` little-endian at `off`.
pub fn get_u16(data: &[u8], off: usize) -> (r: u16)
    requires
        off + 2 <= data@.len(),
    ensures
        r == u16_from_le(data@.subrange(off as int, off + 2)),
{
    let r = (data[off] as u16) | ((data[off + 1] as u16) << 8);
    proof {
        let s = data@.subrange(off as int, off + 2);
        assert(s[0] == data@[off as int] && s[1] == data@[off + 1]);
    }
    r
}

/// Read a `u32` little-endian at `off`.
pub fn get_u32(data: &[u8], off: usize) -> (r: u32)
    requires
        off + 4 <= data@.len(),
    ensures
        r == u32_from_le(data@.subrange(off as int, off + 4)),
{
    let r = (data[off] as u32) | ((data[off + 1] as u32) << 8) | ((data[off + 2] as u32) << 16) | (
    (data[off + 3] as u32) << 24);
    proof {
        let s = data@.subrange(off as int, off + 4);
        assert(s[0] == data@[off as int] && s[1] == data@[off + 1] && s[2] == data@[off + 2]
            && s[3] == data@[off + 3]);
    }
    r
}

/// Read a `u64` little-endian at `off`.
pub fn get_u64(data: &[u8], off: usize) -> (r: u64)
    requires
        off + 8 <= data@.len(),
    ensures
        r == u64_from_le(data@.subrange(off as int, off + 8)),
{
    let r = (data[off] as u64) | ((data[off + 1] as u64) << 8) | ((data[off + 2] as u64) << 16) | (
    (data[off + 3] as u64) << 24) | ((data[off + 4] as u64) << 32) | ((data[off + 5] as u64) << 40)
        | ((data[off + 6] as u64) << 48) | ((data[off + 7] as u64) << 56);
    proof {
        let s = data@.subrange(off as int, off + 8);
        assert(s[0] == data@[off as int] && s[1] == data@[off + 1] && s[2] == data@[off + 2]
            && s[3] == data@[off + 3] && s[4] == data@[off + 4] && s[5] == data@[off + 5] && s[6]
            == data@[off + 6] && s[7] == data@[off + 7]);
    }
    r
}

/// `base` with `src` written over it starting at `off`.
pub open spec fn overlay(base: Seq<u8>, off: int, src: Seq<u8>) -> Seq<u8> {
    Seq::new(base.len(), |i: int| if off <= i < off + src.len() {
        src[i - off]
    } else {
        base[i]
    })
}

/// Exact equality of two byte strings.
pub fn bytes_eq(a: &[u8], b: &[u8]) -> (r: bool)
    ensures
        r == (a@ == b@),
{
    if a.len() != b.len() {
        proof {
            assert(a@.len() != b@.len());
        }
        return false;
    }
    let n = a.len();
    let mut i: usize = 0;
    while i < n
        invariant
            i <= n,
            n == a@.len(),
            n == b@.len(),
            forall|k: int| 0 <= k < i ==> a@[k] == b@[k],
        decreases n - i,
    {
        if a[i] != b[i] {
            return false;
        }
        i += 1;
    }
    proof {
        assert(a@ =~= b@);
    }
    true
}

} // verus!
