//! The error taxonomy of the engine.

use vstd::prelude::*;

verus! {

/// Everything that can go wrong while decoding, encoding, seeking or
/// querying a block-compressed stream.
///
/// Malformed-input conditions are distinguished from plain truncation
/// (`UnexpectedEof`) so that callers can tell a corrupt stream from one
/// that simply ended early.
#[derive(Clone, Copy, Debug, PartialEq, Eq, Structural)]
pub enum Error {
    /// The fixed block header bytes did not match.
    BadMagic,
    /// The extra field holds no well-formed block-size subfield.
    MissingBlockSize,
    /// The declared on-disk or decompressed block size is impossible.
    InvalidBlockSize,
    /// The input ended before one whole block was available.
    UnexpectedEof,
    /// The compressed payload could not be decompressed.
    InvalidPayload,
    /// The decompressed payload disagrees with the declared size.
    SizeMismatch,
    /// The decompressed payload disagrees with the declared checksum.
    ChecksumMismatch,
    /// A compressed-stream offset does not fit in 48 bits.
    OffsetOverflow,
    /// A seek target lies past the end of its block's decompressed data.
    SeekOutOfRange,
    /// A value is too large for the field that must carry it.
    InvalidInput,
    /// The stream ended without the reserved terminator block (strict mode).
    MissingEofMarker,
    /// A field holds a value its format does not allow.
    InvalidData,
}

impl Error {
    /// A short human-readable description of the error.
    pub fn message(&self) -> &'static str {
        match self {
            Error::BadMagic => "invalid block header magic",
            Error::MissingBlockSize => "missing block size subfield",
            Error::InvalidBlockSize => "invalid block size",
            Error::UnexpectedEof => "unexpected end of input",
            Error::InvalidPayload => "invalid compressed payload",
            Error::SizeMismatch => "uncompressed size mismatch",
            Error::ChecksumMismatch => "checksum mismatch",
            Error::OffsetOverflow => "compressed offset out of range",
            Error::SeekOutOfRange => "seek target past end of block",
            Error::InvalidInput => "invalid input",
            Error::MissingEofMarker => "missing end-of-file marker",
            Error::InvalidData => "invalid data",
        }
    }
}

} // verus!
