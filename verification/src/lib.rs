//! A registry cache-and-query engine.
//!
//! The registry is a single immutable snapshot of modules, fetched once per
//! process as a gzip-compressed binary blob, decompressed, decoded, and then
//! served from memory. This crate holds the verified core: the data model,
//! the binary codec, the decompress-and-decode population pipeline, the
//! single-slot cache, the query operations (list, lookup, search), and the
//! content negotiation between the binary and the textual representation.

pub mod cache;
pub mod codec;
pub mod data;
pub mod decompress;
pub mod negotiate;
pub mod query;
pub mod strings;

use vstd::prelude::*;

verus! {

/// An error raised while populating the registry cache from a compressed
/// blob: either the blob is not a well-formed gzip stream, or the inflated
/// bytes are not a well-formed registry document.
#[derive(Clone, Copy, PartialEq, Eq, Structural, Debug)]
pub enum LoadError {
    Decompression,
    Decode,
}

} // verus!

