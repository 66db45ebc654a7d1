//! Error kinds of the indexing core.
//!
//! Every error aborts the current run; callers see a distinct kind for each
//! failure.  Failures of the byte source or of the storage collaborator occur
//! outside this library and are reported by the surrounding code.

use vstd::prelude::*;

verus! {

/// Why scanning a single document failed.
#[derive(Clone, Copy, Debug, PartialEq, Eq, Structural)]
pub enum ScanError {
    /// The bytes collected for a reference token are not valid UTF-8.
    TokenDecodeFailure,
}

/// Why resolving a reference token to a document identifier failed.
#[derive(Clone, Copy, Debug, PartialEq, Eq, Structural)]
pub enum ResolveError {
    /// The token names no registered document.
    ResolutionNotFound,
    /// The token names more than one registered document.
    ResolutionAmbiguous,
}

} // verus!
