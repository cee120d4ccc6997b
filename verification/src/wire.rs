//! Little-endian fixed-width fields, as they lie in guest memory.

use vstd::prelude::*;

verus! {

/// The 16-bit value whose little-endian bytes are `s[at]` and `s[at + 1]`.
pub open spec fn le_u16(s: Seq<u8>, at: int) -> int {
    s[at] as int + 0x100 * (s[at + 1] as int)
}

/// The 32-bit value whose little-endian bytes are `s[at] .. s[at + 3]`.
pub open spec fn le_u32(s: Seq<u8>, at: int) -> int {
    le_u16(s, at) + 0x1_0000 * le_u16(s, at + 2)
}

/// The 64-bit value whose little-endian bytes are `s[at] .. s[at + 7]`.
pub open spec fn le_u64(s: Seq<u8>, at: int) -> int {
    le_u32(s, at) + 0x1_0000_0000 * le_u32(s, at + 4)
}

/// The two little-endian bytes of `v`.
pub open spec fn u16_le_bytes(v: int) -> Seq<u8> {
    seq![(v % 0x100) as u8, (v / 0x100 % 0x100) as u8]
}

/// The four little-endian bytes of `v`.
pub open spec fn u32_le_bytes(v: int) -> Seq<u8> {
    u16_le_bytes(v % 0x1_0000) + u16_le_bytes(v / 0x1_0000 % 0x1_0000)
}

/// The eight little-endian bytes of `v`.
pub open spec fn u64_le_bytes(v: int) -> Seq<u8> {
    u32_le_bytes(v % 0x1_0000_0000) + u32_le_bytes(v / 0x1_0000_0000 % 0x1_0000_0000)
}

/// Decoding the encoding of a 16-bit value gives the value back.
pub proof fn lemma_u16_round_trip(v: int)
    requires
        0 <= v < 0x1_0000,
    ensures
        u16_le_bytes(v).len() == 2,
        le_u16(u16_le_bytes(v), 0) == v,
{
}

/// Decoding the encoding of a 32-bit value gives the value back.
pub proof fn lemma_u32_round_trip(v: int)
    requires
        0 <= v < 0x1_0000_0000,
    ensures
        u32_le_bytes(v).len() == 4,
        le_u32(u32_le_bytes(v), 0) == v,
{
    lemma_u16_round_trip(v % 0x1_0000);
    lemma_u16_round_trip(v / 0x1_0000 % 0x1_0000);
    let lo = u16_le_bytes(v % 0x1_0000);
    let hi = u16_le_bytes(v / 0x1_0000 % 0x1_0000);
    let s = u32_le_bytes(v);
    assert(s[0] == lo[0] && s[1] == lo[1] && s[2] == hi[0] && s[3] == hi[1]);
}

/// Decoding the encoding of a 64-bit value gives the value back.
pub proof fn lemma_u64_round_trip(v: int)
    requires
        0 <= v < 0x1_0000_0000_0000_0000,
    ensures
        u64_le_bytes(v).len() == 8,
        le_u64(u64_le_bytes(v), 0) == v,
{
    lemma_u32_round_trip(v % 0x1_0000_0000);
    lemma_u32_round_trip(v / 0x1_0000_0000 % 0x1_0000_0000);
    let lo = u32_le_bytes(v % 0x1_0000_0000);
    let hi = u32_le_bytes(v / 0x1_0000_0000 % 0x1_0000_0000);
    let s = u64_le_bytes(v);
    assert(forall|i: int| 0 <= i < 4 ==> s[i] == lo[i]);
    assert(forall|i: int| 0 <= i < 4 ==> s[4 + i] == hi[i]);
    assert(s[4] == hi[0] && s[5] == hi[1] && s[6] == hi[2] && s[7] == hi[3]);
}

/// Reads a little-endian `u16` at offset `at` of `b`.
pub fn read_u16(b: &[u8], at: usize) -> (v: u16)
    requires
        at + 2 <= b.len(),
    ensures
        v as int == le_u16(b@, at as int),
{
    let lo: u16 = b[at] as u16;
    let hi: u16 = b[at + 1] as u16;
    lo + hi * 0x100
}

/// Reads a little-endian `u32` at offset `at` of `b`.
pub fn read_u32(b: &[u8], at: usize) -> (v: u32)
    requires
        at + 4 <= b.len(),
    ensures
        v as int == le_u32(b@, at as int),
{
    let lo: u32 = read_u16(b, at) as u32;
    let hi: u32 = read_u16(b, at + 2) as u32;
    lo + hi * 0x1_0000
}

/// Reads a little-endian `u64` at offset `at` of `b`.
pub fn read_u64(b: &[u8], at: usize) -> (v: u64)
    requires
        at + 8 <= b.len(),
    ensures
        v as int == le_u64(b@, at as int),
{
    let lo: u64 = read_u32(b, at) as u64;
    let hi: u64 = read_u32(b, at + 4) as u64;
    lo + hi * 0x1_0000_0000
}

/// Appends the two little-endian bytes of `v` to `out`.
pub fn push_u16(out: &mut Vec<u8>, v: u16)
    ensures
        final(out)@ == old(out)@ + u16_le_bytes(v as int),
{
    out.push((v % 0x100) as u8);
    out.push((v / 0x100) as u8);
}

/// Appends the four little-endian bytes of `v` to `out`.
pub fn push_u32(out: &mut Vec<u8>, v: u32)
    ensures
        final(out)@ == old(out)@ + u32_le_bytes(v as int),
{
    let lo: u16 = (v % 0x1_0000) as u16;
    let hi: u16 = (v / 0x1_0000) as u16;
    push_u16(out, lo);
    push_u16(out, hi);
    assert(out@ =~= old(out)@ + (u16_le_bytes(lo as int) + u16_le_bytes(hi as int)));
}

/// Appends the eight little-endian bytes of `v` to `out`.
pub fn push_u64(out: &mut Vec<u8>, v: u64)
    ensures
        final(out)@ == old(out)@ + u64_le_bytes(v as int),
{
    let lo: u32 = (v % 0x1_0000_0000) as u32;
    let hi: u32 = (v / 0x1_0000_0000) as u32;
    push_u32(out, lo);
    push_u32(out, hi);
    proof {
        let low = u32_le_bytes(lo as int);
        let high = u32_le_bytes(hi as int);
        assert(hi as int == (v as int) / 0x1_0000_0000 % 0x1_0000_0000);
        assert(u64_le_bytes(v as int) == low + high);
        assert((old(out)@ + low) + high =~= old(out)@ + (low + high));
    }
}

} // verus!
