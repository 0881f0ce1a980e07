//! The ways in which the annotation of one response can fail.

use vstd::prelude::*;

verus! {

/// Why a request ended without an annotated document.
#[derive(Clone, Copy, Debug, PartialEq, Eq, Structural)]
pub enum PipelineError {
    /// The origin or the reading service could not be reached, or answered
    /// with an error status.
    Transport,
    /// A body was not valid text, or the reading service answered with
    /// something other than the expected record.
    Decode,
    /// The reading service returned `found` readings where `expected`
    /// segments wait for one.
    AlignmentMismatch { expected: usize, found: usize },
    /// The inbound request used a method that is not served.
    UnsupportedMethod,
}

} // verus!
