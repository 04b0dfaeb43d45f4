//! Error taxonomy.
//!
//! The parser distinguishes why a reply could not be re-segmented; the
//! retry boundary does not care which reason it was, only that the attempt
//! failed, so every `ParseError` collapses into `Error::InvalidTranslation`
//! there. Transport failures carry their HTTP status code and are never
//! retried by the parse layer.

use vstd::prelude::*;

verus! {

/// Why a reply could not be re-segmented into the focus rows.
#[derive(Debug, PartialEq, Eq, Structural, Clone, Copy)]
pub enum ParseError {
    /// The reply was the empty string (also what a timed-out call is
    /// treated as).
    EmptyResponse,
    /// The anchor of the row at this index was not found after the
    /// cursor.
    AnchorNotFound(usize),
    /// The reply ended while focus rows were still unprocessed.
    Truncated,
}

/// The coarse error kind seen outside the parse layer.
#[derive(Debug, PartialEq, Eq, Structural, Clone, Copy)]
pub enum Error {
    /// The completion service answered with a non-success HTTP status.
    HttpStatus(u16),
    /// A reply could not be re-segmented, whatever the precise reason.
    InvalidTranslation,
}

impl Error {
    /// The coarse kind of a parse failure: the retry boundary counts
    /// attempts without discriminating among parse errors.
    pub fn from_parse(e: ParseError) -> (r: Error)
        ensures
            r == Error::InvalidTranslation,
    {
        let _ = e;
        Error::InvalidTranslation
    }
}

} // verus!
