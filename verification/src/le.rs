//! Little-endian integer encoding shared by every binary format here.
use vstd::prelude::*;

verus! {

/// The unsigned value of the two bytes at `at`, least significant first.
pub open spec fn le_u16_at(s: Seq<u8>, at: int) -> int {
    s[at] + s[at + 1] * 0x100
}

/// The unsigned value of the four bytes at `at`, least significant first.
pub open spec fn le_u32_at(s: Seq<u8>, at: int) -> int {
    s[at] + s[at + 1] * 0x100 + s[at + 2] * 0x1_0000 + s[at + 3] * 0x100_0000
}

/// The unsigned value of the eight bytes at `at`, least significant first.
pub open spec fn le_u64_at(s: Seq<u8>, at: int) -> int {
    le_u32_at(s, at) + le_u32_at(s, at + 4) * 0x1_0000_0000
}

/// The four little-endian bytes of `v`.
pub open spec fn u32_le(v: u32) -> Seq<u8> {
    seq![
        (v % 0x100) as u8,
        ((v / 0x100) % 0x100) as u8,
        ((v / 0x1_0000) % 0x100) as u8,
        ((v / 0x100_0000) % 0x100) as u8,
    ]
}

/// The eight little-endian bytes of `v`.
pub open spec fn u64_le(v: u64) -> Seq<u8> {
    u32_le((v % 0x1_0000_0000) as u32) + u32_le((v / 0x1_0000_0000) as u32)
}

/// Decoding the encoding of `v`, wherever it sits, gives `v` back.
pub proof fn lemma_u32_le_roundtrip(v: u32, pre: Seq<u8>, post: Seq<u8>)
    ensures
        le_u32_at(pre + u32_le(v) + post, pre.len() as int) == v,
        u32_le(v).len() == 4,
{
    let s = pre + u32_le(v) + post;
    let p = pre.len() as int;
    assert(s[p] == (v % 0x100) as u8);
    assert(s[p + 1] == ((v / 0x100) % 0x100) as u8);
    assert(s[p + 2] == ((v / 0x1_0000) % 0x100) as u8);
    assert(s[p + 3] == ((v / 0x100_0000) % 0x100) as u8);
    assert((v % 0x100) + ((v / 0x100) % 0x100) * 0x100 + ((v / 0x1_0000) % 0x100) * 0x1_0000
        + ((v / 0x100_0000) % 0x100) * 0x100_0000 == v) by (nonlinear_arith);
}

/// Decoding the encoding of `v`, wherever it sits, gives `v` back.
pub proof fn lemma_u64_le_roundtrip(v: u64, pre: Seq<u8>, post: Seq<u8>)
    ensures
        le_u64_at(pre + u64_le(v) + post, pre.len() as int) == v,
        u64_le(v).len() == 8,
{
    let lo = (v % 0x1_0000_0000) as u32;
    let hi = (v / 0x1_0000_0000) as u32;
    let s = pre + u64_le(v) + post;
    assert(s =~= pre + u32_le(lo) + (u32_le(hi) + post));
    lemma_u32_le_roundtrip(lo, pre, u32_le(hi) + post);
    assert(s =~= (pre + u32_le(lo)) + u32_le(hi) + post);
    lemma_u32_le_roundtrip(hi, pre + u32_le(lo), post);
    assert(lo + hi * 0x1_0000_0000 == v) by (nonlinear_arith)
        requires
            lo == v % 0x1_0000_0000,
            hi == v / 0x1_0000_0000,
    ;
}

/// Read the little-endian `u16` at `at`.
pub fn get_u16_le(bytes: &[u8], at: usize) -> (res: u16)
    requires
        at + 2 <= bytes@.len(),
    ensures
        res == le_u16_at(bytes@, at as int),
{
    let b0 = bytes[at];
    let b1 = bytes[at + 1];
    let r = (b0 as u16) | ((b1 as u16) << 8u16);
    assert(r == b0 + b1 * 0x100) by (bit_vector)
        requires
            r == (b0 as u16) | ((b1 as u16) << 8u16),
    ;
    r
}

/// Read the little-endian `u32` at `at`.
pub fn get_u32_le(bytes: &[u8], at: usize) -> (res: u32)
    requires
        at + 4 <= bytes@.len(),
    ensures
        res == le_u32_at(bytes@, at as int),
{
    let b0 = bytes[at];
    let b1 = bytes[at + 1];
    let b2 = bytes[at + 2];
    let b3 = bytes[at + 3];
    let r = (b0 as u32) | ((b1 as u32) << 8u32) | ((b2 as u32) << 16u32) | ((b3 as u32) << 24u32);
    assert(r == b0 + b1 * 0x100 + b2 * 0x1_0000 + b3 * 0x100_0000) by (bit_vector)
        requires
            r == (b0 as u32) | ((b1 as u32) << 8u32) | ((b2 as u32) << 16u32) | ((b3 as u32)
                << 24u32),
    ;
    r
}

/// Read the little-endian `u64` at `at`.
pub fn get_u64_le(bytes: &[u8], at: usize) -> (res: u64)
    requires
        at + 8 <= bytes@.len(),
    ensures
        res == le_u64_at(bytes@, at as int),
{
    let _n = bytes.len();
    let lo = get_u32_le(bytes, at) as u64;
    let hi = get_u32_le(bytes, at + 4) as u64;
    let r = lo | (hi << 32u64);
    assert(r == lo + hi * 0x1_0000_0000) by (bit_vector)
        requires
            lo < 0x1_0000_0000,
            hi < 0x1_0000_0000,
            r == lo | (hi << 32u64),
    ;
    r
}

/// Append the four little-endian bytes of `v`.
pub fn push_u32_le(out: &mut Vec<u8>, v: u32)
    ensures
        final(out)@ == old(out)@ + u32_le(v),
{
    let b0 = (v & 0xff) as u8;
    let b1 = ((v >> 8u32) & 0xff) as u8;
    let b2 = ((v >> 16u32) & 0xff) as u8;
    let b3 = ((v >> 24u32) & 0xff) as u8;
    assert(b0 == v % 0x100 && b1 == (v / 0x100) % 0x100 && b2 == (v / 0x1_0000) % 0x100 && b3 == (v
        / 0x100_0000) % 0x100) by (bit_vector)
        requires
            b0 == (v & 0xff) as u8,
            b1 == ((v >> 8u32) & 0xff) as u8,
            b2 == ((v >> 16u32) & 0xff) as u8,
            b3 == ((v >> 24u32) & 0xff) as u8,
    ;
    out.push(b0);
    out.push(b1);
    out.push(b2);
    out.push(b3);
    assert(out@ =~= old(out)@ + u32_le(v));
}

/// Append the eight little-endian bytes of `v`.
pub fn push_u64_le(out: &mut Vec<u8>, v: u64)
    ensures
        final(out)@ == old(out)@ + u64_le(v),
{
    let lo = (v & 0xffff_ffff) as u32;
    let hi = (v >> 32u64) as u32;
    assert(lo == v % 0x1_0000_0000 && hi == v / 0x1_0000_0000) by (bit_vector)
        requires
            lo == (v & 0xffff_ffff) as u32,
            hi == (v >> 32u64) as u32,
    ;
    push_u32_le(out, lo);
    push_u32_le(out, hi);
    assert(out@ =~= old(out)@ + u64_le(v));
}


/// The two little-endian bytes of `v`.
pub open spec fn u16_le(v: u16) -> Seq<u8> {
    seq![(v % 0x100) as u8, (v / 0x100) as u8]
}

/// Append the two little-endian bytes of `v`.
pub fn push_u16_le(out: &mut Vec<u8>, v: u16)
    ensures
        final(out)@ == old(out)@ + u16_le(v),
{
    let b0 = (v & 0xff) as u8;
    let b1 = (v >> 8u16) as u8;
    assert(b0 == v % 0x100 && b1 == v / 0x100) by (bit_vector)
        requires
            b0 == (v & 0xff) as u8,
            b1 == (v >> 8u16) as u8,
    ;
    out.push(b0);
    out.push(b1);
    assert(out@ =~= old(out)@ + u16_le(v));
}

} // verus!

verus! {

/// A `u32` whose encoding sits at `at` decodes to itself.
pub proof fn lemma_u32_le_at(s: Seq<u8>, at: int, v: u32)
    requires
        0 <= at,
        at + 4 <= s.len(),
        s.subrange(at, at + 4) == u32_le(v),
    ensures
        le_u32_at(s, at) == v,
{
    assert(s[at] == s.subrange(at, at + 4)[0]);
    assert(s[at + 1] == s.subrange(at, at + 4)[1]);
    assert(s[at + 2] == s.subrange(at, at + 4)[2]);
    assert(s[at + 3] == s.subrange(at, at + 4)[3]);
    assert((v % 0x100) + ((v / 0x100) % 0x100) * 0x100 + ((v / 0x1_0000) % 0x100) * 0x1_0000 + ((v
        / 0x100_0000) % 0x100) * 0x100_0000 == v) by (nonlinear_arith);
}

/// A `u64` whose encoding sits at `at` decodes to itself.
pub proof fn lemma_u64_le_at(s: Seq<u8>, at: int, v: u64)
    requires
        0 <= at,
        at + 8 <= s.len(),
        s.subrange(at, at + 8) == u64_le(v),
    ensures
        le_u64_at(s, at) == v,
{
    let lo = (v % 0x1_0000_0000) as u32;
    let hi = (v / 0x1_0000_0000) as u32;
    assert(s.subrange(at, at + 4) =~= s.subrange(at, at + 8).subrange(0, 4));
    assert(s.subrange(at + 4, at + 8) =~= s.subrange(at, at + 8).subrange(4, 8));
    assert(u64_le(v).subrange(0, 4) =~= u32_le(lo));
    assert(u64_le(v).subrange(4, 8) =~= u32_le(hi));
    lemma_u32_le_at(s, at, lo);
    lemma_u32_le_at(s, at + 4, hi);
    assert(lo + hi * 0x1_0000_0000 == v) by (nonlinear_arith)
        requires
            lo == v % 0x1_0000_0000,
            hi == v / 0x1_0000_0000,
    ;
}


/// A `u16` whose encoding sits at `at` decodes to itself.
pub proof fn lemma_u16_le_at(s: Seq<u8>, at: int, v: u16)
    requires
        0 <= at,
        at + 2 <= s.len(),
        s.subrange(at, at + 2) == u16_le(v),
    ensures
        le_u16_at(s, at) == v,
{
    assert(s[at] == s.subrange(at, at + 2)[0]);
    assert(s[at + 1] == s.subrange(at, at + 2)[1]);
    assert((v % 0x100) + (v / 0x100) * 0x100 == v) by (nonlinear_arith);
}

} // verus!
