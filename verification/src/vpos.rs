//! Virtual positions: 64-bit addresses into a block-compressed stream.
//!
//! A virtual position packs a 48-bit compressed-stream byte offset (a block
//! boundary) with a 16-bit offset into that block's decompressed data.
//! The natural integer order of the packed value orders positions; this is
//! a meaningful stream order only for positions within one stream, where
//! in-block offsets are compared under equal compressed offsets or across
//! strictly increasing block boundaries.

use vstd::prelude::*;

use crate::endian::{u64_from_le, u64_to_le};
use crate::error::Error;

verus! {

/// The largest compressed-stream offset a virtual position can carry.
pub const MAX_COMPRESSED_OFFSET: u64 = 0xFFFF_FFFF_FFFF;

/// A packed (compressed offset, in-block offset) address.
#[derive(Clone, Copy, Debug, PartialEq, Eq, Hash, Structural)]
pub struct VirtualPosition {
    value: u64,
}

/// The packed integer form of an offset pair.
pub open spec fn packed(compressed_offset: u64, in_block_offset: u16) -> u64
    recommends
        compressed_offset <= MAX_COMPRESSED_OFFSET,
{
    (compressed_offset * 0x1_0000 + in_block_offset) as u64
}

impl VirtualPosition {
    /// The packed 64-bit value.
    pub closed spec fn spec_value(self) -> u64 {
        self.value
    }

    /// The compressed-stream byte offset (the high 48 bits).
    pub open spec fn spec_compressed_offset(self) -> u64 {
        self.spec_value() / 0x1_0000
    }

    /// The offset into the block's decompressed data (the low 16 bits).
    pub open spec fn spec_in_block_offset(self) -> u16 {
        (self.spec_value() % 0x1_0000) as u16
    }

    /// Packs an offset pair; fails if the compressed offset needs more
    /// than 48 bits.
    pub fn pack(compressed_offset: u64, in_block_offset: u16) -> (r: Result<Self, Error>)
        ensures
            compressed_offset <= MAX_COMPRESSED_OFFSET ==> (r matches Ok(v) && v.spec_value()
                == packed(compressed_offset, in_block_offset)),
            compressed_offset > MAX_COMPRESSED_OFFSET ==> (r matches Err(e) && e
                == Error::OffsetOverflow),
    {
        if compressed_offset > MAX_COMPRESSED_OFFSET {
            Err(Error::OffsetOverflow)
        } else {
            Ok(VirtualPosition { value: compressed_offset * 0x1_0000 + in_block_offset as u64 })
        }
    }

    /// The raw packed value.
    pub fn value(self) -> (r: u64)
        ensures
            r == self.spec_value(),
    {
        self.value
    }

    /// Reconstructs a position from its raw packed value.
    pub fn from_value(value: u64) -> (r: Self)
        ensures
            r.spec_value() == value,
    {
        VirtualPosition { value }
    }

    /// Unpacks into (compressed offset, in-block offset).
    pub fn unpack(self) -> (r: (u64, u16))
        ensures
            r.0 == self.spec_compressed_offset(),
            r.1 == self.spec_in_block_offset(),
    {
        (self.value / 0x1_0000, (self.value % 0x1_0000) as u16)
    }

    /// The compressed-stream byte offset.
    pub fn compressed_offset(self) -> (r: u64)
        ensures
            r == self.spec_compressed_offset(),
    {
        self.value / 0x1_0000
    }

    /// The offset into the block's decompressed data.
    pub fn in_block_offset(self) -> (r: u16)
        ensures
            r == self.spec_in_block_offset(),
    {
        (self.value % 0x1_0000) as u16
    }

    /// The fixed eight-byte little-endian external form.
    pub fn to_le_bytes(self) -> (r: Vec<u8>)
        ensures
            r@ == u64_to_le(self.spec_value()),
            r@.len() == 8,
    {
        let mut out: Vec<u8> = Vec::new();
        crate::endian::push_u64_le(&mut out, self.value);
        proof {
            crate::endian::lemma_le_round_trip(0, 0, self.value);
        }
        out
    }

    /// Reads the eight-byte little-endian external form.
    pub fn from_le_bytes(src: &Vec<u8>, i: usize) -> (r: Self)
        requires
            i + 8 <= src.len(),
        ensures
            r.spec_value() == u64_from_le(src@.subrange(i as int, i + 8)),
    {
        VirtualPosition { value: crate::endian::read_u64_le(src, i) }
    }
}

/// Packing and unpacking are mutually inverse, and packing is strictly
/// monotone in the compressed offset: any position in an earlier block
/// orders before any position in a later block.
pub proof fn lemma_pack_unpack(c1: u64, x: u16, c2: u64, y: u16)
    requires
        c1 <= MAX_COMPRESSED_OFFSET,
        c2 <= MAX_COMPRESSED_OFFSET,
    ensures
        packed(c1, x) / 0x1_0000 == c1,
        packed(c1, x) % 0x1_0000 == x,
        c1 < c2 ==> packed(c1, x) < packed(c2, y),
{
    assert((c1 * 0x1_0000 + x) / 0x1_0000 == c1 && (c1 * 0x1_0000 + x) % 0x1_0000 == x)
        by (nonlinear_arith)
        requires
            c1 <= MAX_COMPRESSED_OFFSET,
            x < 0x1_0000,
    ;
    assert(c1 < c2 ==> c1 * 0x1_0000 + x < c2 * 0x1_0000 + y) by (nonlinear_arith)
        requires
            x < 0x1_0000,
    ;
}

impl PartialOrd for VirtualPosition {
    fn partial_cmp(&self, other: &Self) -> (r: Option<core::cmp::Ordering>) {
        if self.value < other.value {
            Some(core::cmp::Ordering::Less)
        } else if self.value == other.value {
            Some(core::cmp::Ordering::Equal)
        } else {
            Some(core::cmp::Ordering::Greater)
        }
    }
}

impl vstd::std_specs::cmp::PartialOrdSpecImpl for VirtualPosition {
    open spec fn obeys_partial_cmp_spec() -> bool {
        true
    }

    open spec fn partial_cmp_spec(&self, other: &Self) -> Option<core::cmp::Ordering> {
        if self.spec_value() < other.spec_value() {
            Some(core::cmp::Ordering::Less)
        } else if self.spec_value() == other.spec_value() {
            Some(core::cmp::Ordering::Equal)
        } else {
            Some(core::cmp::Ordering::Greater)
        }
    }
}

} // verus!
