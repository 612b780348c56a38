//! The alignment-reader capability: what a format-specific reader must
//! offer to serve alignment records.

use vstd::prelude::*;

use crate::error::Error;

verus! {

/// A minimal alignment header: the reference sequences the records are
/// placed on, each with its name and length.
pub struct Header {
    /// Reference sequence names, in reference order.
    pub reference_names: Vec<String>,
    /// The matching reference sequence lengths.
    pub reference_lengths: Vec<u32>,
}

/// An alignment record in its raw form: placement plus undecoded bytes.
pub struct AlignmentRecord {
    /// The reference the record is placed on, if any.
    pub reference_id: Option<u32>,
    /// The record's interval placement, where it has one.
    pub placement: Option<crate::index::RecordMeta>,
    /// The record's undecoded bytes.
    pub data: Vec<u8>,
}

/// An alignment reader: reads one header, then serves records.
///
/// Format-specific readers outside this crate implement this to plug
/// their record decoding into the engine's streams and queries.
pub trait Reader {
    /// Reads the alignment header.
    fn read_alignment_header(&mut self) -> Result<Header, Error>;

    /// Reads every remaining record, in stream order.
    fn alignment_records(&mut self, header: &Header) -> Vec<Result<AlignmentRecord, Error>>;
}

} // verus!
