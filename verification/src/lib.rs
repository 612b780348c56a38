//! A block-compressed, indexable byte-stream engine.
//!
//! The crate provides the core of a family of genomic-format codecs: a
//! gzip-compatible block container with CRC-checked payloads, a 64-bit
//! virtual-position addressing scheme for seeking into compressed streams,
//! a bounded buffer pool and an order-preserving parallel decompression
//! protocol, and a hierarchical binning index that turns a genomic region
//! into a minimal ordered list of byte ranges to scan.

pub mod alignment;
pub mod alt_allele;
pub mod block;
pub mod container;
pub mod endian;
pub mod error;
pub mod format_def;
pub mod index;
pub mod info;
pub mod pipeline;
pub mod readers;
pub mod site;
pub mod pool;
pub mod stream;
pub mod vpos;
pub mod writer;
pub mod zlib;
