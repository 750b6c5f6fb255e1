//! Error taxonomy of the consensus engine.

use vstd::prelude::*;

verus! {

/// Errors surfaced by the consensus engine.
///
/// Local, single-record problems are absorbed and counted by the caller;
/// these variants describe run-level failures of a whole computation.
#[derive(Clone, Copy, Debug, PartialEq, Eq, Structural)]
pub enum AccordError {
    /// A configuration value is invalid, e.g. a threshold ratio whose
    /// denominator is zero or which lies outside `[0, 1]`.
    InvalidConfiguration,
    /// A single alignment record lacks a required field or holds a value
    /// of the wrong shape; the record is dropped from the statistics.
    RecordExtraction,
    /// Fewer observations than needed: an empty dataset, or fewer values
    /// than requested quantile factors.
    InsufficientData,
    /// More observations than the exact integer statistics can carry.
    CapacityExceeded,
}

} // verus!
