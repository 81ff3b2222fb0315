//! The kinds of failure that the storage core reports.
use vstd::prelude::*;

verus! {

/// A failure of the storage core, by kind.
#[derive(Clone, Copy, Debug, PartialEq, Eq, Structural)]
pub enum StoreError {
    /// The caller's identity is missing or malformed.
    BadRequest,
    /// A segment or index operation failed.
    Io,
    /// Fewer bytes are stored than a record asks for.
    ShortRead,
    /// An index value is not a valid encoding.
    Decode,
    /// The key does not exist for this identity.
    NotFound,
}

} // verus!
