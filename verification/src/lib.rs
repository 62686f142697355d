//! Offline compiler core for a static full-text search index.
//!
//! The crate turns a corpus of documents and their extracted terms into a
//! set of size-bounded binary packages plus lookup metadata:
//! * [`builder::IndexBuilder`] ingests `(document, term)` pairs and produces
//!   the term dictionary, per-document term lists, term frequencies and
//!   per-term postings (the set of documents containing each term);
//! * [`postings`] compresses a postings set through an external compressed
//!   bitmap library;
//! * [`partition`] ranks terms by frequency and splits them into a popular
//!   set (array-indexed lookup) and a normal set (binary-search lookup);
//! * [`direct`] and [`bst`] are the two size-bounded packed key/value store
//!   variants, sharing the package-filling logic of [`pack`];
//! * [`pipeline`] runs the whole build in one pass.

use vstd::prelude::*;

pub mod bst;
pub mod builder;
pub mod bytes;
pub mod direct;
pub mod keys;
pub mod pack;
pub mod partition;
pub mod pipeline;
pub mod postings;
pub mod wasm_args;

verus! {

/// Fatal build failures. A build is an atomic batch job: every error aborts
/// the whole build and no partial artifact set is valid.
#[derive(Clone, Copy, Debug, PartialEq, Eq, Structural)]
pub enum BuildError {
    /// Fewer distinct terms than the minimum corpus-size threshold.
    CorpusTooSmall,
    /// A single serialized value is larger than one package's maximum size.
    OversizedValue,
    /// A term is empty, contains the terminator byte, or is longer than the
    /// fixed maximum key width.
    InvalidTerm,
    /// A term appeared twice within one document's term list.
    DuplicateTermInDocument,
    /// More documents than the 32-bit document-id space admits.
    TooManyDocuments,
}

} // verus!
