//! Little-endian integer fields, as they appear in the block container
//! and the index file.

use vstd::prelude::*;

verus! {

/// The value of a two-byte little-endian field.
pub open spec fn u16_from_le(s: Seq<u8>) -> u16
    recommends
        s.len() == 2,
{
    (s[0] + s[1] * 0x100) as u16
}

/// The value of a four-byte little-endian field.
pub open spec fn u32_from_le(s: Seq<u8>) -> u32
    recommends
        s.len() == 4,
{
    (s[0] + s[1] * 0x100 + s[2] * 0x1_0000 + s[3] * 0x100_0000) as u32
}

/// The value of an eight-byte little-endian field.
pub open spec fn u64_from_le(s: Seq<u8>) -> u64
    recommends
        s.len() == 8,
{
    (u32_from_le(s.subrange(0, 4)) + u32_from_le(s.subrange(4, 8)) * 0x1_0000_0000) as u64
}

/// The two-byte little-endian form of a value.
pub open spec fn u16_to_le(v: u16) -> Seq<u8> {
    seq![(v % 0x100) as u8, (v / 0x100) as u8]
}

/// The four-byte little-endian form of a value.
pub open spec fn u32_to_le(v: u32) -> Seq<u8> {
    seq![
        (v % 0x100) as u8,
        ((v / 0x100) % 0x100) as u8,
        ((v / 0x1_0000) % 0x100) as u8,
        (v / 0x100_0000) as u8,
    ]
}

/// The eight-byte little-endian form of a value.
pub open spec fn u64_to_le(v: u64) -> Seq<u8> {
    u32_to_le((v % 0x1_0000_0000) as u32) + u32_to_le((v / 0x1_0000_0000) as u32)
}

/// Encoding a value and reading it back yields the value, for each width.
#[verifier::rlimit(60)]
pub proof fn lemma_le_round_trip(v16: u16, v32: u32, v64: u64)
    ensures
        u16_from_le(u16_to_le(v16)) == v16,
        u32_from_le(u32_to_le(v32)) == v32,
        u64_from_le(u64_to_le(v64)) == v64,
        u16_to_le(v16).len() == 2,
        u32_to_le(v32).len() == 4,
        u64_to_le(v64).len() == 8,
{
    assert(u16_from_le(u16_to_le(v16)) == v16) by {
        assert(v16 % 0x100 + (v16 / 0x100) * 0x100 == v16) by (nonlinear_arith);
    }
    assert(u32_from_le(u32_to_le(v32)) == v32) by {
        assert(v32 % 0x100 + ((v32 / 0x100) % 0x100) * 0x100 + ((v32 / 0x1_0000) % 0x100)
            * 0x1_0000 + (v32 / 0x100_0000) * 0x100_0000 == v32) by (nonlinear_arith);
    }
    let lo = (v64 % 0x1_0000_0000) as u32;
    let hi = (v64 / 0x1_0000_0000) as u32;
    assert(u64_to_le(v64).subrange(0, 4) =~= u32_to_le(lo));
    assert(u64_to_le(v64).subrange(4, 8) =~= u32_to_le(hi));
    assert(v64 % 0x1_0000_0000 + (v64 / 0x1_0000_0000) * 0x1_0000_0000 == v64)
        by (nonlinear_arith);
}

/// Reads the two-byte little-endian field at `i`.
pub fn read_u16_le(src: &Vec<u8>, i: usize) -> (r: u16)
    requires
        i + 2 <= src.len(),
    ensures
        r == u16_from_le(src@.subrange(i as int, i + 2)),
{
    src[i] as u16 + src[i + 1] as u16 * 0x100
}

/// Reads the four-byte little-endian field at `i`.
pub fn read_u32_le(src: &Vec<u8>, i: usize) -> (r: u32)
    requires
        i + 4 <= src.len(),
    ensures
        r == u32_from_le(src@.subrange(i as int, i + 4)),
{
    src[i] as u32 + src[i + 1] as u32 * 0x100 + src[i + 2] as u32 * 0x1_0000 + src[i + 3] as u32
        * 0x100_0000
}

/// Reads the eight-byte little-endian field at `i`.
pub fn read_u64_le(src: &Vec<u8>, i: usize) -> (r: u64)
    requires
        i + 8 <= src.len(),
    ensures
        r == u64_from_le(src@.subrange(i as int, i + 8)),
{
    let lo = read_u32_le(src, i);
    let hi = read_u32_le(src, i + 4);
    proof {
        let s = src@.subrange(i as int, i + 8);
        assert(s.subrange(0, 4) =~= src@.subrange(i as int, i + 4));
        assert(s.subrange(4, 8) =~= src@.subrange(i + 4, i + 8));
    }
    lo as u64 + hi as u64 * 0x1_0000_0000
}

/// Appends the two-byte little-endian form of `v`.
pub fn push_u16_le(dst: &mut Vec<u8>, v: u16)
    ensures
        final(dst)@ == old(dst)@ + u16_to_le(v),
{
    dst.push((v % 0x100) as u8);
    dst.push((v / 0x100) as u8);
    proof {
        assert(dst@ =~= old(dst)@ + u16_to_le(v));
    }
}

/// Appends the four-byte little-endian form of `v`.
pub fn push_u32_le(dst: &mut Vec<u8>, v: u32)
    ensures
        final(dst)@ == old(dst)@ + u32_to_le(v),
{
    dst.push((v % 0x100) as u8);
    dst.push(((v / 0x100) % 0x100) as u8);
    dst.push(((v / 0x1_0000) % 0x100) as u8);
    dst.push((v / 0x100_0000) as u8);
    proof {
        assert(dst@ =~= old(dst)@ + u32_to_le(v));
    }
}

/// Appends the eight-byte little-endian form of `v`.
pub fn push_u64_le(dst: &mut Vec<u8>, v: u64)
    ensures
        final(dst)@ == old(dst)@ + u64_to_le(v),
{
    push_u32_le(dst, (v % 0x1_0000_0000) as u32);
    push_u32_le(dst, (v / 0x1_0000_0000) as u32);
    proof {
        assert(dst@ =~= old(dst)@ + u64_to_le(v));
    }
}

} // verus!
