//! The single error kind surfaced by this crate.

use vstd::prelude::*;

verus! {

/// Raised whenever stored bytes cannot be reconstructed into the expected
/// rich object, whenever assembling the proof bundle fails, or whenever a
/// malformed identifier is found where a valid one is required.
#[derive(Debug, Clone, PartialEq, Eq)]
pub enum Error {
    DecodingError(String),
}

} // verus!
