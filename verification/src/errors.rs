//! The failures a cache operation can report.
use vstd::prelude::*;

verus! {

/// Why an operation on the cache failed.
#[derive(Clone, Copy, Debug, PartialEq, Eq, Structural)]
pub enum Error {
    /// The key is not in the index, or no blob is stored under the digest.
    NotFound,
    /// The bytes that were read do not hash to the digest they were read under.
    IntegrityMismatch,
    /// The text is not the text form of an integrity value.
    ParseError,
}

} // verus!
