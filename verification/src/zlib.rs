//! Trusted boundary to the DEFLATE implementation and CRC-32.
//!
//! The engine treats compression as an opaque, deterministic transformation:
//! the result of compressing, decompressing or checksumming a byte string is
//! a function of that byte string alone. The three names below stand for
//! those results; the wrappers relate the outside calls to them.

use vstd::prelude::*;

use crate::error::Error;

verus! {

/// The raw-DEFLATE compressed form of a byte string.
pub uninterp spec fn deflate_of(data: Seq<u8>) -> Seq<u8>;

/// What raw-DEFLATE decompression yields on a byte string: the decompressed
/// bytes, or nothing if the input is not a well-formed DEFLATE stream.
pub uninterp spec fn inflate_result(src: Seq<u8>) -> Option<Seq<u8>>;

/// The CRC-32 checksum of a byte string.
pub uninterp spec fn crc32_of(data: Seq<u8>) -> u32;

/// Relies on flate2's `write::DeflateEncoder` (raw DEFLATE, default level):
/// the output depends on the input bytes alone, and decompressing it yields
/// the input again. Compressing into an in-memory sink cannot fail.
#[verifier::external_body]
pub(crate) fn deflate(data: &Vec<u8>) -> (r: Vec<u8>)
    ensures
        r@ == deflate_of(data@),
        inflate_result(r@) == Some(data@),
{
    let mut enc = flate2::write::DeflateEncoder::new(Vec::new(), flate2::Compression::default());
    std::io::Write::write_all(&mut enc, data).expect("compressing to memory cannot fail");
    enc.finish().expect("compressing to memory cannot fail")
}

/// Relies on flate2's `read::DeflateDecoder` (raw DEFLATE): decompression
/// is a function of the input bytes alone, and fails exactly on inputs that
/// are not a DEFLATE stream.
#[verifier::external_body]
pub(crate) fn inflate(src: &Vec<u8>) -> (r: Result<Vec<u8>, Error>)
    ensures
        (r is Ok) == (inflate_result(src@) is Some),
        r matches Ok(d) ==> inflate_result(src@) == Some(d@),
        r matches Err(e) ==> e == Error::InvalidPayload,
{
    let mut dec = flate2::read::DeflateDecoder::new(&src[..]);
    let mut out = Vec::new();
    match std::io::Read::read_to_end(&mut dec, &mut out) {
        Ok(_) => Ok(out),
        Err(_) => Err(Error::InvalidPayload),
    }
}

/// Relies on flate2's `Crc` (CRC-32 of the bytes fed to `update`).
#[verifier::external_body]
pub(crate) fn crc32(data: &Vec<u8>) -> (r: u32)
    ensures
        r == crc32_of(data@),
{
    let mut crc = flate2::Crc::new();
    crc.update(data);
    crc.sum()
}

} // verus!
