//! The failure kinds a parse attempt can end in.

use vstd::prelude::*;

verus! {

/// Why a parse attempt stopped.  `EOF` is the internal termination signal
/// that the sequence driver turns into "no more items"; every other kind is
/// surfaced to the caller as a failed item.
#[derive(Debug, Clone, Copy, PartialEq, Eq)]
pub enum Error {
    /// End of input before a complete descriptor was assembled.
    EOF,
    /// The request line holds no token at all.
    NoMethod,
    /// The request line holds a method token but no url token.
    NoUrl,
    /// A header line without the `": "` separator.
    InvalidHeaderName,
    /// A header line with nothing after its `": "` separator.
    InvalidHeaderValue,
}

} // verus!
