//! The block codec: one gzip-compatible compressed block at a time.
//!
//! A block is a fixed gzip header carrying an extra-field subfield with the
//! on-disk block size, a raw-DEFLATE payload, and a CRC-32 plus
//! uncompressed-size trailer. A reserved 28-byte empty block is the stream
//! terminator.

use vstd::prelude::*;

use crate::endian::{
    push_u16_le, push_u32_le, read_u16_le, read_u32_le, u16_from_le, u16_to_le, u32_from_le,
    u32_to_le,
};
use crate::error::Error;
use crate::vpos::{packed, VirtualPosition, MAX_COMPRESSED_OFFSET};
use crate::zlib::{crc32, crc32_of, deflate, deflate_of, inflate, inflate_result};

verus! {

/// Largest payload the encoder accepts for one block, so that the on-disk
/// size always fits its 16-bit field even when the payload is
/// incompressible.
pub const MAX_BLOCK_PAYLOAD: usize = 65280;

/// The fixed first 16 bytes of every block this codec writes: the gzip
/// header (magic, extra-field flag, six-byte extra field) and the
/// block-size subfield header.
pub open spec fn fixed_prefix() -> Seq<u8> {
    seq![
        0x1fu8,
        0x8bu8,
        0x08u8,
        0x04u8,
        0u8,
        0u8,
        0u8,
        0u8,
        0u8,
        0xffu8,
        0x06u8,
        0u8,
        0x42u8,
        0x43u8,
        0x02u8,
        0u8,
    ]
}

/// The reserved 28-byte terminator block.
pub open spec fn eof_marker() -> Seq<u8> {
    fixed_prefix() + seq![0x1bu8, 0u8, 0x03u8, 0u8, 0u8, 0u8, 0u8, 0u8, 0u8, 0u8, 0u8, 0u8]
}

/// Whether the bytes at `pos` are exactly the terminator block.
pub open spec fn is_eof_at(s: Seq<u8>, pos: int) -> bool {
    &&& 0 <= pos
    &&& pos + 28 <= s.len()
    &&& s.subrange(pos, pos + 28) == eof_marker()
}

/// The block-size value carried by the first well-formed size subfield of
/// an extra field, if any.
pub open spec fn spec_find_bsize(extra: Seq<u8>) -> Option<u16>
    decreases extra.len(),
{
    if extra.len() < 4 {
        None
    } else {
        let slen = u16_from_le(extra.subrange(2, 4)) as int;
        if extra[0] == 0x42 && extra[1] == 0x43 && slen == 2 {
            if extra.len() >= 6 {
                Some(u16_from_le(extra.subrange(4, 6)))
            } else {
                None
            }
        } else if 4 + slen <= extra.len() {
            spec_find_bsize(extra.skip(4 + slen))
        } else {
            None
        }
    }
}

/// What decoding one block at `pos` yields: the decompressed payload and
/// the number of bytes consumed, or the first error the input forces.
pub open spec fn spec_decode(s: Seq<u8>, pos: int) -> Result<(Seq<u8>, int), Error> {
    if pos + 12 > s.len() {
        Err(Error::UnexpectedEof)
    } else if !(s[pos] == 0x1f && s[pos + 1] == 0x8b && s[pos + 2] == 0x08 && s[pos + 3]
        == 0x04) {
        Err(Error::BadMagic)
    } else {
        let xlen = u16_from_le(s.subrange(pos + 10, pos + 12)) as int;
        if pos + 12 + xlen > s.len() {
            Err(Error::UnexpectedEof)
        } else {
            match spec_find_bsize(s.subrange(pos + 12, pos + 12 + xlen)) {
                None => Err(Error::MissingBlockSize),
                Some(bsize) => {
                    let total = bsize + 1;
                    if total < 12 + xlen + 8 {
                        Err(Error::InvalidBlockSize)
                    } else if pos + total > s.len() {
                        Err(Error::UnexpectedEof)
                    } else {
                        let cdata = s.subrange(pos + 12 + xlen, pos + total - 8);
                        let crc = u32_from_le(s.subrange(pos + total - 8, pos + total - 4));
                        let isz = u32_from_le(s.subrange(pos + total - 4, pos + total));
                        match inflate_result(cdata) {
                            None => Err(Error::InvalidPayload),
                            Some(d) => {
                                if d.len() != isz {
                                    Err(Error::SizeMismatch)
                                } else if d.len() >= 0x1_0000 {
                                    Err(Error::InvalidBlockSize)
                                } else if crc32_of(d) != crc {
                                    Err(Error::ChecksumMismatch)
                                } else {
                                    Ok((d, total))
                                }
                            },
                        }
                    }
                },
            }
        }
    }
}

/// The encoded form of a payload: fixed prefix, on-disk size, compressed
/// payload, checksum and uncompressed size.
pub open spec fn spec_encode(p: Seq<u8>) -> Seq<u8> {
    let c = deflate_of(p);
    fixed_prefix() + u16_to_le((25 + c.len()) as u16) + c + u32_to_le(crc32_of(p)) + u32_to_le(
        p.len() as u32,
    )
}

/// Whether a payload can be carried by one block: it is within the payload
/// cap and its compressed form leaves the on-disk size within 16 bits.
pub open spec fn encode_fits(p: Seq<u8>) -> bool {
    p.len() <= MAX_BLOCK_PAYLOAD && 26 + deflate_of(p).len() <= 0x1_0000
}

/// Appends the fixed 16-byte prefix.
fn push_fixed_prefix(dst: &mut Vec<u8>)
    ensures
        final(dst)@ == old(dst)@ + fixed_prefix(),
{
    dst.push(0x1f);
    dst.push(0x8b);
    dst.push(0x08);
    dst.push(0x04);
    dst.push(0);
    dst.push(0);
    dst.push(0);
    dst.push(0);
    dst.push(0);
    dst.push(0xff);
    dst.push(0x06);
    dst.push(0);
    dst.push(0x42);
    dst.push(0x43);
    dst.push(0x02);
    dst.push(0);
    proof {
        assert(dst@ =~= old(dst)@ + fixed_prefix());
    }
}

/// The terminator block as bytes.
pub fn eof_marker_bytes() -> (r: Vec<u8>)
    ensures
        r@ == eof_marker(),
        r@.len() == 28,
{
    let mut out: Vec<u8> = Vec::new();
    push_fixed_prefix(&mut out);
    out.push(0x1b);
    out.push(0);
    out.push(0x03);
    out.push(0);
    out.push(0);
    out.push(0);
    out.push(0);
    out.push(0);
    out.push(0);
    out.push(0);
    out.push(0);
    out.push(0);
    proof {
        assert(out@ =~= eof_marker());
    }
    out
}

/// Whether the bytes at `pos` are exactly the terminator block.
pub fn is_eof_block(src: &Vec<u8>, pos: usize) -> (r: bool)
    requires
        pos <= src.len(),
    ensures
        r == is_eof_at(src@, pos as int),
{
    if src.len() - pos < 28 {
        return false;
    }
    let marker = eof_marker_bytes();
    let mut i: usize = 0;
    while i < 28
        invariant
            0 <= i <= 28,
            pos + 28 <= src.len(),
            marker@ == eof_marker(),
            forall|j: int| 0 <= j < i ==> src@[pos + j] == eof_marker()[j],
        decreases 28 - i,
    {
        if src[pos + i] != marker[i] {
            proof {
                assert(src@.subrange(pos as int, pos + 28)[i as int] != eof_marker()[i as int]);
            }
            return false;
        }
        i += 1;
    }
    proof {
        assert(src@.subrange(pos as int, pos + 28) =~= eof_marker());
    }
    true
}

/// Encodes one payload as a self-contained block.
///
/// Fails with `InvalidInput` exactly when the payload is over the cap or
/// its compressed form would push the on-disk size past its 16-bit field.
pub fn encode_block(data: &Vec<u8>) -> (r: Result<Vec<u8>, Error>)
    ensures
        (r is Ok) == encode_fits(data@),
        r matches Ok(out) ==> out@ == spec_encode(data@) && out@.len() == 26 + deflate_of(
            data@,
        ).len() && spec_decode(out@, 0) == Ok::<(Seq<u8>, int), Error>(
            (data@, out@.len() as int),
        ) && inflate_result(deflate_of(data@)) == Some(data@),
        r matches Err(e) ==> e == Error::InvalidInput,
{
    if data.len() > MAX_BLOCK_PAYLOAD {
        return Err(Error::InvalidInput);
    }
    let mut c = deflate(data);
    if c.len() > 0x1_0000 - 26 {
        return Err(Error::InvalidInput);
    }
    let ghost cs = c@;
    let bsize: u16 = (25 + c.len()) as u16;
    let crc = crc32(data);
    let mut out: Vec<u8> = Vec::new();
    push_fixed_prefix(&mut out);
    push_u16_le(&mut out, bsize);
    out.append(&mut c);
    push_u32_le(&mut out, crc);
    push_u32_le(&mut out, data.len() as u32);
    proof {
        crate::endian::lemma_le_round_trip(bsize, crc, 0);
        crate::endian::lemma_le_round_trip(0, data.len() as u32, 0);
        assert(out@ =~= spec_encode(data@));
        lemma_decode_of_encode(data@);
    }
    Ok(out)
}

/// Decoding the encoded form of a payload yields the payload back, given
/// the round-trip facts the compression boundary provides.
proof fn lemma_decode_of_encode(p: Seq<u8>)
    requires
        encode_fits(p),
        inflate_result(deflate_of(p)) == Some(p),
    ensures
        spec_decode(spec_encode(p), 0) == Ok::<(Seq<u8>, int), Error>(
            (p, spec_encode(p).len() as int),
        ),
{
    let s = spec_encode(p);
    let c = deflate_of(p);
    let total = 26 + c.len() as int;
    crate::endian::lemma_le_round_trip((25 + c.len()) as u16, crc32_of(p), 0);
    crate::endian::lemma_le_round_trip(0, p.len() as u32, 0);
    assert(s.len() == total);
    assert(s.subrange(10, 12) =~= seq![0x06u8, 0u8]);
    assert(u16_from_le(seq![0x06u8, 0u8]) == 6);
    let extra = s.subrange(12, 18);
    assert(extra =~= seq![0x42u8, 0x43u8, 0x02u8, 0u8] + u16_to_le((25 + c.len()) as u16));
    assert(extra.subrange(2, 4) =~= seq![0x02u8, 0u8]);
    assert(u16_from_le(seq![0x02u8, 0u8]) == 2);
    assert(extra.subrange(4, 6) =~= u16_to_le((25 + c.len()) as u16));
    assert(spec_find_bsize(extra) == Some((25 + c.len()) as u16));
    assert(s.subrange(18, total - 8) =~= c);
    assert(s.subrange(total - 8, total - 4) =~= u32_to_le(crc32_of(p)));
    assert(s.subrange(total - 4, total) =~= u32_to_le(p.len() as u32));
}

/// Scans an extra field for the block-size subfield.
fn find_bsize(src: &Vec<u8>, lo: usize, hi: usize) -> (r: Option<u16>)
    requires
        lo <= hi <= src.len(),
    ensures
        r == spec_find_bsize(src@.subrange(lo as int, hi as int)),
    decreases hi - lo,
{
    let ghost extra = src@.subrange(lo as int, hi as int);
    if hi - lo < 4 {
        return None;
    }
    let slen = read_u16_le(src, lo + 2);
    proof {
        assert(extra.subrange(2, 4) =~= src@.subrange(lo + 2, lo + 4));
    }
    if src[lo] == 0x42 && src[lo + 1] == 0x43 && slen == 2 {
        if hi - lo >= 6 {
            let v = read_u16_le(src, lo + 4);
            proof {
                assert(extra.subrange(4, 6) =~= src@.subrange(lo + 4, lo + 6));
            }
            Some(v)
        } else {
            None
        }
    } else if 4 + slen as usize <= hi - lo {
        let r = find_bsize(src, lo + 4 + slen as usize, hi);
        proof {
            assert(extra.skip(4 + slen as int) =~= src@.subrange(
                lo + 4 + slen as int,
                hi as int,
            ));
        }
        r
    } else {
        None
    }
}

/// Decodes exactly one block starting at `pos`, returning its decompressed
/// payload and the number of input bytes it occupied.
pub fn decode_block(src: &Vec<u8>, pos: usize) -> (r: Result<(Vec<u8>, usize), Error>)
    requires
        pos <= src.len(),
    ensures
        r matches Ok(p) ==> spec_decode(src@, pos as int) == Ok::<(Seq<u8>, int), Error>(
            (p.0@, p.1 as int),
        ) && pos + p.1 <= src.len() && 20 <= p.1 && p.0.len() < 0x1_0000,
        r matches Err(e) ==> spec_decode(src@, pos as int) == Err::<(Seq<u8>, int), Error>(e),
{
    if src.len() - pos < 12 {
        return Err(Error::UnexpectedEof);
    }
    if !(src[pos] == 0x1f && src[pos + 1] == 0x8b && src[pos + 2] == 0x08 && src[pos + 3]
        == 0x04) {
        return Err(Error::BadMagic);
    }
    let xlen = read_u16_le(src, pos + 10) as usize;
    proof {
        assert(src@.subrange(pos + 10, pos + 12) =~= src@.subrange(pos + 10, pos + 10 + 2));
    }
    if src.len() - pos - 12 < xlen {
        return Err(Error::UnexpectedEof);
    }
    let bsize = match find_bsize(src, pos + 12, pos + 12 + xlen) {
        Some(b) => b,
        None => {
            return Err(Error::MissingBlockSize);
        },
    };
    let total = bsize as usize + 1;
    if total < 12 + xlen + 8 {
        return Err(Error::InvalidBlockSize);
    }
    if src.len() - pos < total {
        return Err(Error::UnexpectedEof);
    }
    let mut cdata: Vec<u8> = Vec::new();
    let mut i: usize = pos + 12 + xlen;
    while i < pos + total - 8
        invariant
            pos + 12 + xlen <= i <= pos + total - 8,
            pos + total <= src.len(),
            total >= 12 + xlen + 8,
            cdata@ == src@.subrange(pos + 12 + xlen, i as int),
        decreases pos + total - 8 - i,
    {
        cdata.push(src[i]);
        proof {
            assert(cdata@ =~= src@.subrange(pos + 12 + xlen, i + 1));
        }
        i += 1;
    }
    let d = match inflate(&cdata) {
        Ok(d) => d,
        Err(e) => {
            return Err(e);
        },
    };
    let crc_stored = read_u32_le(src, pos + total - 8);
    let isz = read_u32_le(src, pos + total - 4);
    proof {
        assert(src@.subrange(pos + total - 8, pos + total - 4) =~= src@.subrange(
            pos + total - 8,
            pos + total - 8 + 4,
        ));
        assert(src@.subrange(pos + total - 4, pos + total) =~= src@.subrange(
            pos + total - 4,
            pos + total - 4 + 4,
        ));
    }
    if d.len() as u64 != isz as u64 {
        return Err(Error::SizeMismatch);
    }
    if d.len() >= 0x1_0000 {
        return Err(Error::InvalidBlockSize);
    }
    let crc_computed = crc32(&d);
    if crc_computed != crc_stored {
        return Err(Error::ChecksumMismatch);
    }
    Ok((d, total))
}

/// One decompressed block with its stream position and read cursor.
pub struct Block {
    /// Compressed-stream byte offset where the block began.
    position: u64,
    /// On-disk size of the block.
    size: u64,
    /// The decompressed payload.
    data: Vec<u8>,
    /// How many payload bytes the consumer has taken.
    cursor: usize,
}

impl Block {
    /// The block's structural invariant: the cursor stays within the
    /// payload, the payload is below the 16-bit in-block limit, and the
    /// position is a valid 48-bit offset.
    pub open spec fn wf(self) -> bool {
        &&& self.spec_cursor() <= self.spec_data().len() < 0x1_0000
        &&& self.spec_position() <= MAX_COMPRESSED_OFFSET
    }

    /// The block's stream position.
    pub closed spec fn spec_position(self) -> u64 {
        self.position
    }

    /// The block's on-disk size.
    pub closed spec fn spec_size(self) -> u64 {
        self.size
    }

    /// The block's decompressed payload.
    pub closed spec fn spec_data(self) -> Seq<u8> {
        self.data@
    }

    /// The block's read cursor.
    pub closed spec fn spec_cursor(self) -> usize {
        self.cursor
    }

    /// An empty block at position zero.
    pub fn new() -> (r: Block)
        ensures
            r.wf(),
            r.spec_position() == 0,
            r.spec_size() == 0,
            r.spec_data() == Seq::<u8>::empty(),
            r.spec_cursor() == 0,
    {
        Block { position: 0, size: 0, data: Vec::new(), cursor: 0 }
    }

    /// A block freshly decoded from `size` on-disk bytes.
    pub fn from_decoded(data: Vec<u8>, size: u64) -> (r: Block)
        requires
            data.len() < 0x1_0000,
        ensures
            r.wf(),
            r.spec_position() == 0,
            r.spec_size() == size,
            r.spec_data() == data@,
            r.spec_cursor() == 0,
    {
        Block { position: 0, size, data, cursor: 0 }
    }

    /// Stamps the stream position the consumer tracked for this block.
    pub fn set_position(&mut self, position: u64)
        requires
            position <= MAX_COMPRESSED_OFFSET,
        ensures
            final(self).spec_position() == position,
            final(self).spec_size() == old(self).spec_size(),
            final(self).spec_data() == old(self).spec_data(),
            final(self).spec_cursor() == old(self).spec_cursor(),
            old(self).wf() ==> final(self).wf(),
    {
        self.position = position;
    }

    /// The block's stream position.
    pub fn position(&self) -> (r: u64)
        ensures
            r == self.spec_position(),
    {
        self.position
    }

    /// The block's on-disk size.
    pub fn size(&self) -> (r: u64)
        ensures
            r == self.spec_size(),
    {
        self.size
    }

    /// The payload bytes not yet consumed.
    pub fn remaining(&self) -> (r: usize)
        requires
            self.wf(),
        ensures
            r == self.spec_data().len() - self.spec_cursor(),
    {
        self.data.len() - self.cursor
    }

    /// The payload byte at the cursor.
    pub fn peek(&self) -> (r: u8)
        requires
            self.wf(),
            self.spec_cursor() < self.spec_data().len(),
        ensures
            r == self.spec_data()[self.spec_cursor() as int],
    {
        self.data[self.cursor]
    }

    /// The payload byte `i` places past the cursor.
    pub fn peek_at(&self, i: usize) -> (r: u8)
        requires
            self.wf(),
            self.spec_cursor() + i < self.spec_data().len(),
        ensures
            r == self.spec_data()[self.spec_cursor() + i],
    {
        self.data[self.cursor + i]
    }

    /// Advances the cursor by `amt`.
    pub fn consume(&mut self, amt: usize)
        requires
            old(self).wf(),
            old(self).spec_cursor() + amt <= old(self).spec_data().len(),
        ensures
            final(self).wf(),
            final(self).spec_cursor() == old(self).spec_cursor() + amt,
            final(self).spec_position() == old(self).spec_position(),
            final(self).spec_size() == old(self).spec_size(),
            final(self).spec_data() == old(self).spec_data(),
    {
        self.cursor = self.cursor + amt;
    }

    /// Moves the cursor to `at`; fails if that lies past the payload end.
    pub fn seek_within(&mut self, at: usize) -> (r: Result<(), Error>)
        requires
            old(self).wf(),
        ensures
            final(self).spec_position() == old(self).spec_position(),
            final(self).spec_size() == old(self).spec_size(),
            final(self).spec_data() == old(self).spec_data(),
            final(self).wf(),
            at <= old(self).spec_data().len() ==> r == Ok::<(), Error>(())
                && final(self).spec_cursor() == at,
            at > old(self).spec_data().len() ==> r == Err::<(), Error>(Error::SeekOutOfRange)
                && final(self).spec_cursor() == old(self).spec_cursor(),
    {
        if at > self.data.len() {
            Err(Error::SeekOutOfRange)
        } else {
            self.cursor = at;
            Ok(())
        }
    }

    /// The virtual position of the cursor: this block's stream position
    /// paired with the cursor offset.
    pub fn virtual_position(&self) -> (r: VirtualPosition)
        requires
            self.wf(),
        ensures
            r.spec_value() == packed(self.spec_position(), self.spec_cursor() as u16),
    {
        match VirtualPosition::pack(self.position, self.cursor as u16) {
            Ok(v) => v,
            Err(_) => VirtualPosition::from_value(0),
        }
    }
}

/// How many on-disk bytes the block at `pos` occupies, read from the
/// header alone: what a producer needs to hand whole compressed frames
/// to workers without inflating them.
pub open spec fn spec_frame_size(s: Seq<u8>, pos: int) -> Result<int, Error> {
    if pos + 12 > s.len() {
        Err(Error::UnexpectedEof)
    } else if !(s[pos] == 0x1f && s[pos + 1] == 0x8b && s[pos + 2] == 0x08 && s[pos + 3]
        == 0x04) {
        Err(Error::BadMagic)
    } else {
        let xlen = u16_from_le(s.subrange(pos + 10, pos + 12)) as int;
        if pos + 12 + xlen > s.len() {
            Err(Error::UnexpectedEof)
        } else {
            match spec_find_bsize(s.subrange(pos + 12, pos + 12 + xlen)) {
                None => Err(Error::MissingBlockSize),
                Some(bsize) => {
                    let total = bsize + 1;
                    if total < 12 + xlen + 8 {
                        Err(Error::InvalidBlockSize)
                    } else if pos + total > s.len() {
                        Err(Error::UnexpectedEof)
                    } else {
                        Ok(total)
                    }
                },
            }
        }
    }
}

/// Reads the on-disk size of the block at `pos` from its header.
pub fn frame_size(src: &Vec<u8>, pos: usize) -> (r: Result<usize, Error>)
    requires
        pos <= src.len(),
    ensures
        match r {
            Ok(n) => spec_frame_size(src@, pos as int) == Ok::<int, Error>(n as int) && 20 <= n
                && pos + n <= src.len(),
            Err(e) => spec_frame_size(src@, pos as int) == Err::<int, Error>(e),
        },
{
    if src.len() - pos < 12 {
        return Err(Error::UnexpectedEof);
    }
    if !(src[pos] == 0x1f && src[pos + 1] == 0x8b && src[pos + 2] == 0x08 && src[pos + 3]
        == 0x04) {
        return Err(Error::BadMagic);
    }
    let xlen = read_u16_le(src, pos + 10) as usize;
    proof {
        assert(src@.subrange(pos + 10, pos + 12) =~= src@.subrange(pos + 10, pos + 10 + 2));
    }
    if src.len() - pos - 12 < xlen {
        return Err(Error::UnexpectedEof);
    }
    let bsize = match find_bsize(src, pos + 12, pos + 12 + xlen) {
        Some(b) => b,
        None => {
            return Err(Error::MissingBlockSize);
        },
    };
    let total = bsize as usize + 1;
    if total < 12 + xlen + 8 {
        return Err(Error::InvalidBlockSize);
    }
    if src.len() - pos < total {
        return Err(Error::UnexpectedEof);
    }
    Ok(total)
}

} // verus!
