//! The error taxonomy of the pipeline. Every variant is an expected,
//! recoverable outcome of a detection attempt, never a fault.

use vstd::prelude::*;

verus! {

/// Why a detection attempt produced no fact.
///
/// Scores are fixed-point values in ten-thousandths.
#[derive(Clone, Copy, Debug, PartialEq, Eq, Structural)]
pub enum DetectError {
    /// A template or region search completed but no candidate cleared
    /// its threshold; carries the best score seen, for diagnostics.
    NotFound(i32),
    /// A fixed-arity decode did not yield the expected number of
    /// candidates.
    DetectionCountMismatch,
    /// The multi-stage minimap locator failed at one of its gates.
    MinimapNotFound,
    /// Recognized text could not be parsed as the expected number.
    ParseFailure,
}

impl DetectError {
    /// A short description, for logging by the caller.
    pub fn describe(&self) -> (r: &'static str)
        ensures
            r@ == match *self {
                DetectError::NotFound(_) => "template not found"@,
                DetectError::DetectionCountMismatch => "detection count mismatch"@,
                DetectError::MinimapNotFound => "minimap not found"@,
                DetectError::ParseFailure => "parse failure"@,
            },
    {
        match self {
            DetectError::NotFound(_) => "template not found",
            DetectError::DetectionCountMismatch => "detection count mismatch",
            DetectError::MinimapNotFound => "minimap not found",
            DetectError::ParseFailure => "parse failure",
        }
    }
}

} // verus!
