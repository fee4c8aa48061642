//! The error type of the library.

use vstd::prelude::*;

verus! {

/// Error returned when archiving a page fails as a whole.
///
/// Failures of single resources are never reported: the resource is left
/// out of the archive instead.
#[derive(Debug)]
pub enum Error {
    /// The input could not be read: an invalid URL, or output that could
    /// not be produced.
    ParseError(String),
    /// The page itself could not be fetched.
    ReqwestError(String),
}

} // verus!
