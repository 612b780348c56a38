//! Container-level structures of the reference-compressed record format:
//! variable-length integers, data blocks and container headers.

use vstd::prelude::*;

use crate::endian::u32_from_le;
use crate::error::Error;

verus! {

/// How many bytes a variable-length 32-bit integer occupies, by its
/// first byte.
pub open spec fn itf8_len(b0: u8) -> int {
    if b0 < 0x80 {
        1
    } else if b0 < 0xC0 {
        2
    } else if b0 < 0xE0 {
        3
    } else if b0 < 0xF0 {
        4
    } else {
        5
    }
}

/// The value of a variable-length 32-bit integer.
pub open spec fn itf8_val(s: Seq<u8>) -> u32
    recommends
        s.len() >= 1,
        s.len() == itf8_len(s[0]),
{
    if s[0] < 0x80 {
        s[0] as u32
    } else if s[0] < 0xC0 {
        ((s[0] % 0x40) * 0x100 + s[1]) as u32
    } else if s[0] < 0xE0 {
        ((s[0] % 0x20) * 0x1_0000 + s[1] * 0x100 + s[2]) as u32
    } else if s[0] < 0xF0 {
        ((s[0] % 0x10) * 0x100_0000 + s[1] * 0x1_0000 + s[2] * 0x100 + s[3]) as u32
    } else {
        ((s[0] % 0x10) * 0x1000_0000 + s[1] * 0x10_0000 + s[2] * 0x1000 + s[3] * 0x10 + s[4]
            % 0x10) as u32
    }
}

/// Reads one variable-length 32-bit integer at `pos`, returning its
/// value (as the signed reinterpretation) and the offset just past it.
pub fn read_itf8(src: &Vec<u8>, pos: usize) -> (r: Result<(i32, usize), Error>)
    requires
        pos <= src@.len(),
    ensures
        match r {
            Ok(p) => pos < src@.len() && pos + itf8_len(src@[pos as int]) <= src@.len() && p.1
                == pos + itf8_len(src@[pos as int]) && p.0 == itf8_val(
                src@.subrange(pos as int, p.1 as int),
            ) as i32,
            Err(e) => e == Error::UnexpectedEof && (pos == src@.len() || pos + itf8_len(
                src@[pos as int],
            ) > src@.len()),
        },
{
    if pos >= src.len() {
        return Err(Error::UnexpectedEof);
    }
    let b0 = src[pos];
    let n: usize = if b0 < 0x80 {
        1
    } else if b0 < 0xC0 {
        2
    } else if b0 < 0xE0 {
        3
    } else if b0 < 0xF0 {
        4
    } else {
        5
    };
    if src.len() - pos < n {
        return Err(Error::UnexpectedEof);
    }
    let v: u32 = if b0 < 0x80 {
        b0 as u32
    } else if b0 < 0xC0 {
        (b0 % 0x40) as u32 * 0x100 + src[pos + 1] as u32
    } else if b0 < 0xE0 {
        (b0 % 0x20) as u32 * 0x1_0000 + src[pos + 1] as u32 * 0x100 + src[pos + 2] as u32
    } else if b0 < 0xF0 {
        (b0 % 0x10) as u32 * 0x100_0000 + src[pos + 1] as u32 * 0x1_0000 + src[pos + 2] as u32
            * 0x100 + src[pos + 3] as u32
    } else {
        (b0 % 0x10) as u32 * 0x1000_0000 + src[pos + 1] as u32 * 0x10_0000 + src[pos + 2] as u32
            * 0x1000 + src[pos + 3] as u32 * 0x10 + (src[pos + 4] % 0x10) as u32
    };
    proof {
        let sub = src@.subrange(pos as int, pos + n);
        assert(sub[0] == src@[pos as int]);
    }
    Ok((v as i32, pos + n))
}

/// How many bytes a variable-length 64-bit integer occupies, by its
/// first byte.
pub open spec fn ltf8_len(b0: u8) -> int {
    if b0 < 0x80 {
        1
    } else if b0 < 0xC0 {
        2
    } else if b0 < 0xE0 {
        3
    } else if b0 < 0xF0 {
        4
    } else if b0 < 0xF8 {
        5
    } else if b0 < 0xFC {
        6
    } else if b0 < 0xFE {
        7
    } else if b0 < 0xFF {
        8
    } else {
        9
    }
}

/// The value of a variable-length 64-bit integer, for the short forms
/// the container header uses.
pub open spec fn ltf8_val(s: Seq<u8>) -> u64
    recommends
        s.len() >= 1,
        s.len() == ltf8_len(s[0]),
{
    if s[0] < 0x80 {
        s[0] as u64
    } else if s[0] < 0xC0 {
        ((s[0] % 0x40) * 0x100 + s[1]) as u64
    } else if s[0] < 0xE0 {
        ((s[0] % 0x20) * 0x1_0000 + s[1] * 0x100 + s[2]) as u64
    } else if s[0] < 0xF0 {
        ((s[0] % 0x10) * 0x100_0000 + s[1] * 0x1_0000 + s[2] * 0x100 + s[3]) as u64
    } else if s[0] < 0xF8 {
        ((s[0] % 8) * 0x1_0000_0000 + s[1] * 0x100_0000 + s[2] * 0x1_0000 + s[3] * 0x100
            + s[4]) as u64
    } else if s[0] < 0xFC {
        ((s[0] % 4) * 0x100_0000_0000 + s[1] * 0x1_0000_0000 + s[2] * 0x100_0000 + s[3] * 0x1_0000
            + s[4] * 0x100 + s[5]) as u64
    } else if s[0] < 0xFE {
        ((s[0] % 2) * 0x1_0000_0000_0000 + s[1] * 0x100_0000_0000 + s[2] * 0x1_0000_0000 + s[3]
            * 0x100_0000 + s[4] * 0x1_0000 + s[5] * 0x100 + s[6]) as u64
    } else if s[0] < 0xFF {
        (s[1] * 0x100_0000_0000_00 + s[2] * 0x1_0000_0000_00 + s[3] * 0x100_0000_00 + s[4]
            * 0x1_0000_00 + s[5] * 0x1_0000 + s[6] * 0x100 + s[7]) as u64
    } else {
        (s[1] * 0x100_0000_0000_0000 + s[2] * 0x1_0000_0000_0000 + s[3] * 0x100_0000_0000 + s[4]
            * 0x1_0000_0000 + s[5] * 0x100_0000 + s[6] * 0x1_0000 + s[7] * 0x100 + s[8]) as u64
    }
}

/// Reads one variable-length 64-bit integer at `pos`, returning its
/// value (as the signed reinterpretation) and the offset just past it.
pub fn read_ltf8(src: &Vec<u8>, pos: usize) -> (r: Result<(i64, usize), Error>)
    requires
        pos <= src@.len(),
    ensures
        match r {
            Ok(p) => pos < src@.len() && pos + ltf8_len(src@[pos as int]) <= src@.len() && p.1
                == pos + ltf8_len(src@[pos as int]) && p.0 == ltf8_val(
                src@.subrange(pos as int, p.1 as int),
            ) as i64,
            Err(e) => e == Error::UnexpectedEof && (pos == src@.len() || pos + ltf8_len(
                src@[pos as int],
            ) > src@.len()),
        },
{
    if pos >= src.len() {
        return Err(Error::UnexpectedEof);
    }
    let b0 = src[pos];
    let n: usize = if b0 < 0x80 {
        1
    } else if b0 < 0xC0 {
        2
    } else if b0 < 0xE0 {
        3
    } else if b0 < 0xF0 {
        4
    } else if b0 < 0xF8 {
        5
    } else if b0 < 0xFC {
        6
    } else if b0 < 0xFE {
        7
    } else if b0 < 0xFF {
        8
    } else {
        9
    };
    if src.len() - pos < n {
        return Err(Error::UnexpectedEof);
    }
    let v: u64 = if b0 < 0x80 {
        b0 as u64
    } else if b0 < 0xC0 {
        (b0 % 0x40) as u64 * 0x100 + src[pos + 1] as u64
    } else if b0 < 0xE0 {
        (b0 % 0x20) as u64 * 0x1_0000 + src[pos + 1] as u64 * 0x100 + src[pos + 2] as u64
    } else if b0 < 0xF0 {
        (b0 % 0x10) as u64 * 0x100_0000 + src[pos + 1] as u64 * 0x1_0000 + src[pos + 2] as u64
            * 0x100 + src[pos + 3] as u64
    } else {
        let mid: u64 = src[pos + 1] as u64 * 0x100_0000 + src[pos + 2] as u64 * 0x1_0000 + src[pos
            + 3] as u64 * 0x100 + src[pos + 4] as u64;
        if b0 < 0xF8 {
            (b0 % 8) as u64 * 0x1_0000_0000 + mid
        } else if b0 < 0xFC {
            (b0 % 4) as u64 * 0x100_0000_0000 + mid * 0x100 + src[pos + 5] as u64
        } else if b0 < 0xFE {
            (b0 % 2) as u64 * 0x1_0000_0000_0000 + mid * 0x1_0000 + (src[pos + 5] as u64 * 0x100
                + src[pos + 6] as u64)
        } else if b0 < 0xFF {
            mid * 0x100_0000 + (src[pos + 5] as u64 * 0x1_0000 + src[pos + 6] as u64 * 0x100
                + src[pos + 7] as u64)
        } else {
            mid * 0x1_0000_0000 + (src[pos + 5] as u64 * 0x100_0000 + src[pos + 6] as u64
                * 0x1_0000 + src[pos + 7] as u64 * 0x100 + src[pos + 8] as u64)
        }
    };
    proof {
        let sub = src@.subrange(pos as int, pos + n);
        assert(sub[0] == src@[pos as int]);
    }
    Ok((v as i64, pos + n))
}

/// How a block's payload is compressed.
#[derive(Clone, Copy, Debug, PartialEq, Eq, Structural)]
pub enum CompressionMethod {
    /// Stored as-is.
    Uncompressed,
    /// Gzip.
    Gzip,
    /// Bzip2.
    Bzip2,
    /// Lzma.
    Lzma,
    /// Rans.
    Rans,
}

/// The numeric code of a compression method.
pub open spec fn method_code(m: CompressionMethod) -> int {
    match m {
        CompressionMethod::Uncompressed => 0,
        CompressionMethod::Gzip => 1,
        CompressionMethod::Bzip2 => 2,
        CompressionMethod::Lzma => 3,
        CompressionMethod::Rans => 4,
    }
}

/// What kind of data a block carries.
#[derive(Clone, Copy, Debug, PartialEq, Eq, Structural)]
pub enum ContentType {
    /// The file header.
    FileHeader,
    /// A compression header.
    CompressionHeader,
    /// A slice header.
    SliceHeader,
    /// Reserved.
    Reserved,
    /// External data.
    ExternalData,
    /// Core data.
    CoreData,
}

/// The numeric code of a content type.
pub open spec fn content_type_code(t: ContentType) -> int {
    match t {
        ContentType::FileHeader => 0,
        ContentType::CompressionHeader => 1,
        ContentType::SliceHeader => 2,
        ContentType::Reserved => 3,
        ContentType::ExternalData => 4,
        ContentType::CoreData => 5,
    }
}

/// One container block: its compression method, content kind and id,
/// the payload bytes as stored, the declared uncompressed size, and the
/// payload checksum.
#[derive(Clone, Debug, PartialEq)]
pub struct Block {
    compression_method: CompressionMethod,
    content_type: ContentType,
    content_id: i32,
    uncompressed_len: usize,
    data: Vec<u8>,
    crc32: u32,
}

/// A block under construction.
pub struct BlockBuilder {
    compression_method: CompressionMethod,
    content_type: ContentType,
    content_id: i32,
    uncompressed_len: usize,
    data: Vec<u8>,
    crc32: u32,
}

impl Block {
    /// Starts building a block.
    pub fn builder() -> (r: BlockBuilder)
        ensures
            method_code(r.spec_compression_method()) == 0,
            content_type_code(r.spec_content_type()) == 0,
            r.spec_content_id() == 0,
            r.spec_uncompressed_len() == 0,
            r.spec_data() == Seq::<u8>::empty(),
            r.spec_crc32() == 0,
    {
        BlockBuilder {
            compression_method: CompressionMethod::Uncompressed,
            content_type: ContentType::FileHeader,
            content_id: 0,
            uncompressed_len: 0,
            data: Vec::new(),
            crc32: 0,
        }
    }

    /// The compression method.
    pub closed spec fn spec_compression_method(self) -> CompressionMethod {
        self.compression_method
    }

    /// The content type.
    pub closed spec fn spec_content_type(self) -> ContentType {
        self.content_type
    }

    /// The content id.
    pub closed spec fn spec_content_id(self) -> i32 {
        self.content_id
    }

    /// The declared uncompressed size.
    pub closed spec fn spec_uncompressed_len(self) -> usize {
        self.uncompressed_len
    }

    /// The stored payload.
    pub closed spec fn spec_data(self) -> Seq<u8> {
        self.data@
    }

    /// The payload checksum.
    pub closed spec fn spec_crc32(self) -> u32 {
        self.crc32
    }

    /// The stored payload.
    pub fn data(&self) -> (r: &Vec<u8>)
        ensures
            r@ == self.spec_data(),
    {
        &self.data
    }
}

impl BlockBuilder {
    /// The compression method.
    pub closed spec fn spec_compression_method(self) -> CompressionMethod {
        self.compression_method
    }

    /// The content type.
    pub closed spec fn spec_content_type(self) -> ContentType {
        self.content_type
    }

    /// The content id.
    pub closed spec fn spec_content_id(self) -> i32 {
        self.content_id
    }

    /// The declared uncompressed size.
    pub closed spec fn spec_uncompressed_len(self) -> usize {
        self.uncompressed_len
    }

    /// The stored payload.
    pub closed spec fn spec_data(self) -> Seq<u8> {
        self.data@
    }

    /// The payload checksum.
    pub closed spec fn spec_crc32(self) -> u32 {
        self.crc32
    }

    /// Sets the compression method.
    pub fn set_compression_method(self, m: CompressionMethod) -> (r: Self)
        ensures
            r.spec_compression_method() == (m),
            r.spec_content_type() == self.spec_content_type(),
            r.spec_content_id() == self.spec_content_id(),
            r.spec_uncompressed_len() == self.spec_uncompressed_len(),
            r.spec_data() == self.spec_data(),
            r.spec_crc32() == self.spec_crc32(),
    {
        BlockBuilder { compression_method: m, ..self }
    }

    /// Sets the content type.
    pub fn set_content_type(self, t: ContentType) -> (r: Self)
        ensures
            r.spec_compression_method() == self.spec_compression_method(),
            r.spec_content_type() == t,
            r.spec_content_id() == self.spec_content_id(),
            r.spec_uncompressed_len() == self.spec_uncompressed_len(),
            r.spec_data() == self.spec_data(),
            r.spec_crc32() == self.spec_crc32(),
    {
        BlockBuilder { content_type: t, ..self }
    }

    /// Sets the content id.
    pub fn set_content_id(self, id: i32) -> (r: Self)
        ensures
            r.spec_compression_method() == self.spec_compression_method(),
            r.spec_content_type() == self.spec_content_type(),
            r.spec_content_id() == id,
            r.spec_uncompressed_len() == self.spec_uncompressed_len(),
            r.spec_data() == self.spec_data(),
            r.spec_crc32() == self.spec_crc32(),
    {
        BlockBuilder { content_id: id, ..self }
    }

    /// Sets the declared uncompressed size.
    pub fn set_uncompressed_len(self, n: usize) -> (r: Self)
        ensures
            r.spec_compression_method() == self.spec_compression_method(),
            r.spec_content_type() == self.spec_content_type(),
            r.spec_content_id() == self.spec_content_id(),
            r.spec_uncompressed_len() == n,
            r.spec_data() == self.spec_data(),
            r.spec_crc32() == self.spec_crc32(),
    {
        BlockBuilder { uncompressed_len: n, ..self }
    }

    /// Sets the stored payload.
    pub fn set_data(self, data: Vec<u8>) -> (r: Self)
        ensures
            r.spec_data() == data@,
            r.spec_compression_method() == self.spec_compression_method(),
            r.spec_content_type() == self.spec_content_type(),
            r.spec_content_id() == self.spec_content_id(),
            r.spec_uncompressed_len() == self.spec_uncompressed_len(),
            r.spec_crc32() == self.spec_crc32(),
    {
        BlockBuilder { data, ..self }
    }

    /// Sets the payload checksum.
    pub fn set_crc32(self, crc32: u32) -> (r: Self)
        ensures
            r.spec_compression_method() == self.spec_compression_method(),
            r.spec_content_type() == self.spec_content_type(),
            r.spec_content_id() == self.spec_content_id(),
            r.spec_uncompressed_len() == self.spec_uncompressed_len(),
            r.spec_data() == self.spec_data(),
            r.spec_crc32() == crc32,
    {
        BlockBuilder { crc32, ..self }
    }

    /// Finishes the block.
    pub fn build(self) -> (r: Block)
        ensures
            r.spec_compression_method() == self.spec_compression_method(),
            r.spec_content_type() == self.spec_content_type(),
            r.spec_content_id() == self.spec_content_id(),
            r.spec_uncompressed_len() == self.spec_uncompressed_len(),
            r.spec_data() == self.spec_data(),
            r.spec_crc32() == self.spec_crc32(),
    {
        Block {
            compression_method: self.compression_method,
            content_type: self.content_type,
            content_id: self.content_id,
            uncompressed_len: self.uncompressed_len,
            data: self.data,
            crc32: self.crc32,
        }
    }
}

/// The fields a block parse yields.
pub struct BlockModel {
    /// The compression method's code.
    pub method: int,
    /// The content type's code.
    pub content_type: int,
    /// The content id.
    pub content_id: i32,
    /// The payload size as stored.
    pub size: i32,
    /// The declared uncompressed size.
    pub uncompressed_len: i32,
    /// The stored payload.
    pub data: Seq<u8>,
    /// The payload checksum.
    pub crc32: u32,
}

/// What parsing one block at `pos` yields: its fields and the offset
/// just past it, or the first error the input forces. The stored
/// payload's checksum must match the trailer.
pub open spec fn spec_read_block(s: Seq<u8>, pos: int) -> Result<(BlockModel, int), Error> {
    if pos >= s.len() {
        Err(Error::UnexpectedEof)
    } else if s[pos] > 4 {
        Err(Error::InvalidData)
    } else if pos + 1 >= s.len() {
        Err(Error::UnexpectedEof)
    } else if s[pos + 1] > 5 {
        Err(Error::InvalidData)
    } else if pos + 2 >= s.len() || pos + 2 + itf8_len(s[pos + 2]) > s.len() {
        Err(Error::UnexpectedEof)
    } else {
        let p3 = pos + 2 + itf8_len(s[pos + 2]);
        let cid = itf8_val(s.subrange(pos + 2, p3)) as i32;
        if p3 >= s.len() || p3 + itf8_len(s[p3]) > s.len() {
            Err(Error::UnexpectedEof)
        } else {
            let p4 = p3 + itf8_len(s[p3]);
            let size = itf8_val(s.subrange(p3, p4)) as i32;
            if size < 0 {
                Err(Error::InvalidData)
            } else if p4 >= s.len() || p4 + itf8_len(s[p4]) > s.len() {
                Err(Error::UnexpectedEof)
            } else {
                let p5 = p4 + itf8_len(s[p4]);
                let rawsize = itf8_val(s.subrange(p4, p5)) as i32;
                if rawsize < 0 {
                    Err(Error::InvalidData)
                } else if p5 + size > s.len() {
                    Err(Error::UnexpectedEof)
                } else if p5 + size + 4 > s.len() {
                    Err(Error::UnexpectedEof)
                } else if crate::zlib::crc32_of(s.subrange(p5, p5 + size)) != u32_from_le(
                    s.subrange(p5 + size, p5 + size + 4),
                ) {
                    Err(Error::ChecksumMismatch)
                } else {
                    Ok(
                        (
                            BlockModel {
                                method: s[pos] as int,
                                content_type: s[pos + 1] as int,
                                content_id: cid,
                                size,
                                uncompressed_len: rawsize,
                                data: s.subrange(p5, p5 + size),
                                crc32: u32_from_le(s.subrange(p5 + size, p5 + size + 4)),
                            },
                            p5 + size + 4,
                        ),
                    )
                }
            }
        }
    }
}

/// Reads one container block at `pos`, verifying the stored payload
/// against the trailer checksum.
pub fn read_block(src: &Vec<u8>, pos: usize) -> (r: Result<(Block, usize), Error>)
    requires
        pos <= src@.len(),
    ensures
        match r {
            Ok(p) => spec_read_block(src@, pos as int) matches Ok(m) && method_code(
                p.0.spec_compression_method(),
            ) == m.0.method && content_type_code(p.0.spec_content_type()) == m.0.content_type
                && p.0.spec_content_id() == m.0.content_id && p.0.spec_uncompressed_len()
                == m.0.uncompressed_len && p.0.spec_data() == m.0.data && p.0.spec_crc32()
                == m.0.crc32 && p.1 == m.1,
            Err(e) => spec_read_block(src@, pos as int) == Err::<(BlockModel, int), Error>(e),
        },
{
    if pos >= src.len() {
        return Err(Error::UnexpectedEof);
    }
    let method = match src[pos] {
        0 => CompressionMethod::Uncompressed,
        1 => CompressionMethod::Gzip,
        2 => CompressionMethod::Bzip2,
        3 => CompressionMethod::Lzma,
        4 => CompressionMethod::Rans,
        _ => {
            return Err(Error::InvalidData);
        },
    };
    if pos + 1 >= src.len() {
        return Err(Error::UnexpectedEof);
    }
    let content_type = match src[pos + 1] {
        0 => ContentType::FileHeader,
        1 => ContentType::CompressionHeader,
        2 => ContentType::SliceHeader,
        3 => ContentType::Reserved,
        4 => ContentType::ExternalData,
        5 => ContentType::CoreData,
        _ => {
            return Err(Error::InvalidData);
        },
    };
    let (content_id, p3) = match read_itf8(src, pos + 2) {
        Ok(t) => t,
        Err(e) => {
            return Err(e);
        },
    };
    let (size, p4) = match read_itf8(src, p3) {
        Ok(t) => t,
        Err(e) => {
            return Err(e);
        },
    };
    if size < 0 {
        return Err(Error::InvalidData);
    }
    let (rawsize, p5) = match read_itf8(src, p4) {
        Ok(t) => t,
        Err(e) => {
            return Err(e);
        },
    };
    if rawsize < 0 {
        return Err(Error::InvalidData);
    }
    let size_us = size as usize;
    if src.len() - p5 < size_us {
        return Err(Error::UnexpectedEof);
    }
    let hi = p5 + size_us;
    let mut data: Vec<u8> = Vec::new();
    let mut i: usize = p5;
    while i < hi
        invariant
            p5 <= i <= hi,
            hi == p5 + size_us,
            hi <= src@.len(),
            data@ == src@.subrange(p5 as int, i as int),
        decreases hi - i,
    {
        data.push(src[i]);
        proof {
            assert(data@ =~= src@.subrange(p5 as int, i + 1));
        }
        i += 1;
    }
    if src.len() - (p5 + size_us) < 4 {
        return Err(Error::UnexpectedEof);
    }
    let crc = crate::endian::read_u32_le(src, p5 + size_us);
    proof {
        assert(src@.subrange(p5 + size_us, p5 + size_us + 4) =~= src@.subrange(
            p5 + size_us,
            p5 as int + size_us + 4,
        ));
    }
    let computed = crate::zlib::crc32(&data);
    if computed != crc {
        return Err(Error::ChecksumMismatch);
    }
    let block = Block {
        compression_method: method,
        content_type,
        content_id,
        uncompressed_len: rawsize as usize,
        data,
        crc32: crc,
    };
    Ok((block, p5 + size_us + 4))
}

/// A one-based position on a reference sequence.
#[derive(Clone, Copy, Debug, PartialEq, Eq, Structural)]
pub struct Position {
    value: u64,
}

impl Position {
    /// The position's value.
    pub closed spec fn spec_value(self) -> u64 {
        self.value
    }

    /// Builds a position; fails on zero, as positions are one-based.
    pub fn new(value: u64) -> (r: Result<Position, Error>)
        ensures
            value >= 1 ==> (r matches Ok(p) && p.spec_value() == value),
            value == 0 ==> r == Err::<Position, Error>(Error::InvalidData),
    {
        if value == 0 {
            Err(Error::InvalidData)
        } else {
            Ok(Position { value })
        }
    }

    /// The position's value.
    pub fn get(self) -> (r: u64)
        ensures
            r == self.spec_value(),
    {
        self.value
    }
}

/// Which reference sequences a container's records are placed on.
#[derive(Clone, Copy, Debug, PartialEq, Eq, Structural)]
pub enum ReferenceSequenceContext {
    /// All records sit on one reference, within the given positions.
    Single { reference_sequence_id: i32, alignment_start: Position, alignment_end: Position },
    /// The records are unmapped.
    Unmapped,
    /// The records sit on several references.
    Multiple,
}

impl ReferenceSequenceContext {
    /// A single-reference context.
    pub fn some(reference_sequence_id: i32, alignment_start: Position, alignment_end: Position)
        -> (r: ReferenceSequenceContext)
        ensures
            r == (ReferenceSequenceContext::Single {
                reference_sequence_id,
                alignment_start,
                alignment_end,
            }),
    {
        ReferenceSequenceContext::Single { reference_sequence_id, alignment_start, alignment_end }
    }
}

/// What building a reference context from raw header fields yields.
pub closed spec fn spec_build_context(reference_sequence_id: i32, start: i32, span: i32) -> Result<
    ReferenceSequenceContext,
    Error,
> {
    if reference_sequence_id >= 0 {
        if start >= 1 && span >= 1 {
            Ok(
                ReferenceSequenceContext::Single {
                    reference_sequence_id,
                    alignment_start: Position { value: start as u64 },
                    alignment_end: Position { value: (start + span - 1) as u64 },
                },
            )
        } else {
            Err(Error::InvalidData)
        }
    } else if reference_sequence_id == -1 {
        Ok(ReferenceSequenceContext::Unmapped)
    } else if reference_sequence_id == -2 {
        Ok(ReferenceSequenceContext::Multiple)
    } else {
        Err(Error::InvalidData)
    }
}

/// Builds a reference context from raw header fields: a non-negative id
/// places the records between the start and the end of the alignment
/// span; the two reserved negative ids mean unmapped and multi-reference.
pub fn build_reference_sequence_context(reference_sequence_id: i32, start: i32, span: i32) -> (r:
    Result<ReferenceSequenceContext, Error>)
    ensures
        r == spec_build_context(reference_sequence_id, start, span),
{
    if reference_sequence_id >= 0 {
        if start >= 1 && span >= 1 {
            let s = Position { value: start as u64 };
            let e = Position { value: (start as u64) + (span as u64) - 1 };
            Ok(
                ReferenceSequenceContext::Single {
                    reference_sequence_id,
                    alignment_start: s,
                    alignment_end: e,
                },
            )
        } else {
            Err(Error::InvalidData)
        }
    } else if reference_sequence_id == -1 {
        Ok(ReferenceSequenceContext::Unmapped)
    } else if reference_sequence_id == -2 {
        Ok(ReferenceSequenceContext::Multiple)
    } else {
        Err(Error::InvalidData)
    }
}

/// The length field of the reserved end-of-stream container.
pub const EOF_LENGTH: i32 = 15;

/// The alignment-start field of the reserved end-of-stream container.
pub const EOF_ALIGNMENT_START: i32 = 4_542_278;

/// The block-count field of the reserved end-of-stream container.
pub const EOF_BLOCK_COUNT: i32 = 1;

/// The checksum field of the reserved end-of-stream container.
pub const EOF_CRC32: u32 = 0x4fd9_bd05;

/// Whether raw header fields are the reserved end-of-stream container's.
pub open spec fn spec_is_eof(length: i32, reference_sequence_id: i32, alignment_start: i32,
    block_count: i32, crc32: u32) -> bool {
    length == EOF_LENGTH && reference_sequence_id == -1 && alignment_start
        == EOF_ALIGNMENT_START && block_count == EOF_BLOCK_COUNT && crc32 == EOF_CRC32
}

/// Whether raw header fields are the reserved end-of-stream container's.
pub fn is_eof(length: i32, reference_sequence_id: i32, alignment_start: i32, block_count: i32,
    crc32: u32) -> (r: bool)
    ensures
        r == spec_is_eof(length, reference_sequence_id, alignment_start, block_count, crc32),
{
    length == EOF_LENGTH && reference_sequence_id == -1 && alignment_start
        == EOF_ALIGNMENT_START && block_count == EOF_BLOCK_COUNT && crc32 == EOF_CRC32
}

/// A container header: its on-disk length, the records' placement, the
/// record and block counts, and the landmark offsets of its blocks.
#[derive(Clone, Debug, PartialEq)]
pub struct ContainerHeader {
    /// The container's on-disk length.
    pub length: usize,
    /// Where the container's records are placed.
    pub reference_sequence_context: ReferenceSequenceContext,
    /// How many records the container holds.
    pub record_count: i32,
    /// The absolute counter of the first record.
    pub record_counter: i64,
    /// How many bases the container holds.
    pub base_count: u64,
    /// How many blocks the container holds.
    pub block_count: usize,
    /// Byte offsets of the container's slices.
    pub landmarks: Vec<usize>,
}

/// A container header under construction.
pub struct ContainerHeaderBuilder {
    length: usize,
    reference_sequence_context: ReferenceSequenceContext,
    record_count: i32,
    record_counter: i64,
    base_count: u64,
    block_count: usize,
    landmarks: Vec<usize>,
}

impl ContainerHeader {
    /// Starts building a container header.
    pub fn builder() -> (r: ContainerHeaderBuilder)
        ensures
            r.spec_length() == 0,
    {
        ContainerHeaderBuilder {
            length: 0,
            reference_sequence_context: ReferenceSequenceContext::Unmapped,
            record_count: 0,
            record_counter: 0,
            base_count: 0,
            block_count: 0,
            landmarks: Vec::new(),
        }
    }
}

impl ContainerHeaderBuilder {
    /// The length set so far.
    pub closed spec fn spec_length(self) -> usize {
        self.length
    }

    /// Sets the on-disk length.
    pub fn set_length(self, length: usize) -> (r: Self)
        ensures
            r.spec_length() == length,
    {
        ContainerHeaderBuilder { length, ..self }
    }

    /// Sets the records' placement.
    pub fn set_reference_sequence_context(self, c: ReferenceSequenceContext) -> (r: Self) {
        ContainerHeaderBuilder { reference_sequence_context: c, ..self }
    }

    /// Sets the record count.
    pub fn set_record_count(self, n: i32) -> (r: Self) {
        ContainerHeaderBuilder { record_count: n, ..self }
    }

    /// Sets the absolute counter of the first record.
    pub fn set_record_counter(self, n: i64) -> (r: Self) {
        ContainerHeaderBuilder { record_counter: n, ..self }
    }

    /// Sets the base count.
    pub fn set_base_count(self, n: u64) -> (r: Self) {
        ContainerHeaderBuilder { base_count: n, ..self }
    }

    /// Sets the block count.
    pub fn set_block_count(self, n: usize) -> (r: Self) {
        ContainerHeaderBuilder { block_count: n, ..self }
    }

    /// Sets the landmark offsets.
    pub fn set_landmarks(self, landmarks: Vec<usize>) -> (r: Self) {
        ContainerHeaderBuilder { landmarks, ..self }
    }

    /// Finishes the header.
    pub fn build(self) -> (r: ContainerHeader) {
        ContainerHeader {
            length: self.length,
            reference_sequence_context: self.reference_sequence_context,
            record_count: self.record_count,
            record_counter: self.record_counter,
            base_count: self.base_count,
            block_count: self.block_count,
            landmarks: self.landmarks,
        }
    }
}

/// What reading one variable-length 32-bit integer at `pos` yields.
pub open spec fn spec_itf8_at(s: Seq<u8>, pos: int) -> Result<(i32, int), Error> {
    if pos >= s.len() || pos + itf8_len(s[pos]) > s.len() {
        Err(Error::UnexpectedEof)
    } else {
        Ok((itf8_val(s.subrange(pos, pos + itf8_len(s[pos]))) as i32, pos + itf8_len(s[pos])))
    }
}

/// What reading one variable-length 64-bit integer at `pos` yields.
pub open spec fn spec_ltf8_at(s: Seq<u8>, pos: int) -> Result<(i64, int), Error> {
    if pos >= s.len() || pos + ltf8_len(s[pos]) > s.len() {
        Err(Error::UnexpectedEof)
    } else {
        Ok((ltf8_val(s.subrange(pos, pos + ltf8_len(s[pos]))) as i64, pos + ltf8_len(s[pos])))
    }
}

/// What reading `n` landmark offsets at `pos` yields: their values in
/// input order and the offset just past them; truncation gives
/// `UnexpectedEof`, a negative value gives `InvalidData`.
pub open spec fn spec_read_landmarks(s: Seq<u8>, pos: int, n: int) -> Result<
    (Seq<i32>, int),
    Error,
>
    decreases n,
{
    if n <= 0 {
        Ok((Seq::empty(), pos))
    } else {
        match spec_itf8_at(s, pos) {
            Err(e) => Err(e),
            Ok(vp) => {
                if vp.0 < 0 {
                    Err(Error::InvalidData)
                } else {
                    match spec_read_landmarks(s, vp.1, n - 1) {
                        Err(e) => Err(e),
                        Ok(rest) => Ok((seq![vp.0] + rest.0, rest.1)),
                    }
                }
            },
        }
    }
}

/// The raw fields of one container header, in the order they are read.
pub struct ContainerHeaderModel {
    /// The container's on-disk length.
    pub length: i32,
    /// The reference sequence id.
    pub reference_sequence_id: i32,
    /// The alignment start.
    pub alignment_start: i32,
    /// The alignment span.
    pub alignment_span: i32,
    /// The record count.
    pub record_count: i32,
    /// The absolute counter of the first record.
    pub record_counter: i64,
    /// The base count.
    pub base_count: i64,
    /// The block count.
    pub block_count: i32,
    /// The landmark offsets.
    pub landmarks: Seq<i32>,
    /// The header checksum field.
    pub crc32: u32,
}

/// What parsing one container header at `pos` yields: `Ok(None)` exactly
/// for the reserved end-of-stream container, otherwise the decoded raw
/// fields and the offset just past them; truncation gives
/// `UnexpectedEof` and a negative length, base count, block count or
/// landmark gives `InvalidData`.
pub open spec fn spec_read_header(s: Seq<u8>, pos: int) -> Result<
    Option<(ContainerHeaderModel, int)>,
    Error,
> {
    if pos + 4 > s.len() {
        Err(Error::UnexpectedEof)
    } else {
        let length = u32_from_le(s.subrange(pos, pos + 4)) as i32;
        if length < 0 {
            Err(Error::InvalidData)
        } else {
            match spec_itf8_at(s, pos + 4) {
                Err(e) => Err(e),
                Ok(rid) => match spec_itf8_at(s, rid.1) {
                    Err(e) => Err(e),
                    Ok(ast) => match spec_itf8_at(s, ast.1) {
                        Err(e) => Err(e),
                        Ok(asp) => match spec_itf8_at(s, asp.1) {
                            Err(e) => Err(e),
                            Ok(nrec) => match spec_ltf8_at(s, nrec.1) {
                                Err(e) => Err(e),
                                Ok(rcnt) => match spec_ltf8_at(s, rcnt.1) {
                                    Err(e) => Err(e),
                                    Ok(bases) => {
                                        if bases.0 < 0 {
                                            Err(Error::InvalidData)
                                        } else {
                                            spec_read_header_tail(
                                                s,
                                                length,
                                                rid.0,
                                                ast.0,
                                                asp.0,
                                                nrec.0,
                                                rcnt.0,
                                                bases.0,
                                                bases.1,
                                            )
                                        }
                                    },
                                },
                            },
                        },
                    },
                },
            }
        }
    }
}

/// The tail of a container-header parse: block count, landmarks and
/// checksum, then the end-of-stream decision.
pub open spec fn spec_read_header_tail(
    s: Seq<u8>,
    length: i32,
    reference_sequence_id: i32,
    alignment_start: i32,
    alignment_span: i32,
    record_count: i32,
    record_counter: i64,
    base_count: i64,
    pos: int,
) -> Result<Option<(ContainerHeaderModel, int)>, Error> {
    match spec_itf8_at(s, pos) {
        Err(e) => Err(e),
        Ok(nblk) => {
            if nblk.0 < 0 {
                Err(Error::InvalidData)
            } else {
                match spec_itf8_at(s, nblk.1) {
                    Err(e) => Err(e),
                    Ok(nlm) => {
                        if nlm.0 < 0 {
                            Err(Error::InvalidData)
                        } else {
                            match spec_read_landmarks(s, nlm.1, nlm.0 as int) {
                                Err(e) => Err(e),
                                Ok(lms) => {
                                    if lms.1 + 4 > s.len() {
                                        Err(Error::UnexpectedEof)
                                    } else {
                                        let crc = u32_from_le(s.subrange(lms.1, lms.1 + 4));
                                        if spec_is_eof(
                                            length,
                                            reference_sequence_id,
                                            alignment_start,
                                            nblk.0,
                                            crc,
                                        ) {
                                            Ok(None)
                                        } else {
                                            Ok(
                                                Some(
                                                    (
                                                        ContainerHeaderModel {
                                                            length,
                                                            reference_sequence_id,
                                                            alignment_start,
                                                            alignment_span,
                                                            record_count,
                                                            record_counter,
                                                            base_count,
                                                            block_count: nblk.0,
                                                            landmarks: lms.0,
                                                            crc32: crc,
                                                        },
                                                        lms.1 + 4,
                                                    ),
                                                ),
                                            )
                                        }
                                    }
                                },
                            }
                        }
                    },
                }
            }
        }
    }
}

/// Reads `n` landmark offsets at `pos`.
fn read_landmarks(src: &Vec<u8>, pos: usize, n: usize) -> (r: Result<(Vec<usize>, usize), Error>)
    requires
        pos <= src@.len(),
    ensures
        match spec_read_landmarks(src@, pos as int, n as int) {
            Ok(m) => r matches Ok(p) && p.1 == m.1 && p.1 <= src@.len() && p.0@.len()
                == m.0.len() && (forall|i: int|
                0 <= i < m.0.len() ==> #[trigger] p.0@[i] == m.0[i] as usize),
            Err(e) => r == Err::<(Vec<usize>, usize), Error>(e),
        },
    decreases n,
{
    if n == 0 {
        return Ok((Vec::new(), pos));
    }
    let (v, p2) = match read_itf8(src, pos) {
        Ok(t) => t,
        Err(e) => {
            return Err(e);
        },
    };
    if v < 0 {
        return Err(Error::InvalidData);
    }
    match read_landmarks(src, p2, n - 1) {
        Ok((rest, p3)) => {
            let mut out = rest;
            let ghost rest0 = out@;
            out.insert(0, v as usize);
            proof {
                assert(out@ =~= seq![v as usize] + rest0);
                match spec_read_landmarks(src@, p2 as int, n - 1) {
                    Ok(m) => {
                        let whole = spec_read_landmarks(src@, pos as int, n as int);
                        assert(whole matches Ok(w) && w.0 == seq![v] + m.0);
                        assert forall|i: int|
                            0 <= i < (seq![v] + m.0).len() implies #[trigger] out@[i] == (seq![v]
                            + m.0)[i] as usize by {
                            if i > 0 {
                                assert(out@[i] == rest0[i - 1]);
                            }
                        }
                    },
                    Err(_) => {},
                }
            }
            Ok((out, p3))
        },
        Err(e) => Err(e),
    }
}

/// Reads one container header at `pos`: the raw fields in order, then
/// either the reserved end-of-stream container (`None`) or the built
/// header and the offset just past it.
pub fn read_header(src: &Vec<u8>, pos: usize) -> (r: Result<
    Option<(ContainerHeader, usize)>,
    Error,
>)
    requires
        pos <= src@.len(),
    ensures
        match spec_read_header(src@, pos as int) {
            Err(e) => r == Err::<Option<(ContainerHeader, usize)>, Error>(e),
            Ok(opt) => match opt {
                None => r == Ok::<Option<(ContainerHeader, usize)>, Error>(None),
                Some(m) => match spec_build_context(
                    m.0.reference_sequence_id,
                    m.0.alignment_start,
                    m.0.alignment_span,
                ) {
                    Err(e) => r == Err::<Option<(ContainerHeader, usize)>, Error>(e),
                    Ok(ctx) => r matches Ok(hh) && hh matches Some(p) && ({
                        &&& p.0.length == m.0.length as usize
                        &&& p.0.reference_sequence_context == ctx
                        &&& p.0.record_count == m.0.record_count
                        &&& p.0.record_counter == m.0.record_counter
                        &&& p.0.base_count == m.0.base_count as u64
                        &&& p.0.block_count == m.0.block_count as usize
                        &&& p.0.landmarks@.len() == m.0.landmarks.len()
                        &&& (forall|i: int|
                            0 <= i < m.0.landmarks.len() ==> #[trigger] p.0.landmarks@[i]
                                == m.0.landmarks[i] as usize)
                        &&& p.1 == m.1
                        &&& p.1 <= src@.len()
                    }),
                },
            },
        },
{
    if src.len() - pos < 4 {
        return Err(Error::UnexpectedEof);
    }
    let length_u = crate::endian::read_u32_le(src, pos);
    let length = length_u as i32;
    if length < 0 {
        return Err(Error::InvalidData);
    }
    let (reference_sequence_id, p1) = match read_itf8(src, pos + 4) {
        Ok(t) => t,
        Err(e) => {
            return Err(e);
        },
    };
    let (alignment_start, p2) = match read_itf8(src, p1) {
        Ok(t) => t,
        Err(e) => {
            return Err(e);
        },
    };
    let (alignment_span, p3) = match read_itf8(src, p2) {
        Ok(t) => t,
        Err(e) => {
            return Err(e);
        },
    };
    let (number_of_records, p4) = match read_itf8(src, p3) {
        Ok(t) => t,
        Err(e) => {
            return Err(e);
        },
    };
    let (record_counter, p5) = match read_ltf8(src, p4) {
        Ok(t) => t,
        Err(e) => {
            return Err(e);
        },
    };
    let (bases, p6) = match read_ltf8(src, p5) {
        Ok(t) => t,
        Err(e) => {
            return Err(e);
        },
    };
    if bases < 0 {
        return Err(Error::InvalidData);
    }
    let (number_of_blocks, p7) = match read_itf8(src, p6) {
        Ok(t) => t,
        Err(e) => {
            return Err(e);
        },
    };
    if number_of_blocks < 0 {
        return Err(Error::InvalidData);
    }
    let (landmark_count, p8) = match read_itf8(src, p7) {
        Ok(t) => t,
        Err(e) => {
            return Err(e);
        },
    };
    if landmark_count < 0 {
        return Err(Error::InvalidData);
    }
    let (landmarks, p9) = match read_landmarks(src, p8, landmark_count as usize) {
        Ok(t) => t,
        Err(e) => {
            return Err(e);
        },
    };
    if src.len() - p9 < 4 {
        return Err(Error::UnexpectedEof);
    }
    let crc32 = crate::endian::read_u32_le(src, p9);
    if is_eof(length, reference_sequence_id, alignment_start, number_of_blocks, crc32) {
        return Ok(None);
    }
    let context = match build_reference_sequence_context(
        reference_sequence_id,
        alignment_start,
        alignment_span,
    ) {
        Ok(c) => c,
        Err(e) => {
            return Err(e);
        },
    };
    let header = ContainerHeader {
        length: length as usize,
        reference_sequence_context: context,
        record_count: number_of_records,
        record_counter,
        base_count: bases as u64,
        block_count: number_of_blocks as usize,
        landmarks,
    };
    Ok(Some((header, p9 + 4)))
}

} // verus!
