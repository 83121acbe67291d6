//! The errors that the index and the batch searches report.

use vstd::prelude::*;

verus! {

/// Why an operation was refused.
#[derive(Clone, Copy, PartialEq, Eq, Debug)]
pub enum SearchError {
    /// A vector's length differs from the expected dimension; `position` names
    /// the offending element of a batch.
    DimensionMismatch { expected: usize, actual: usize, position: Option<usize> },
    /// The query has zero norm, or there was nothing to work on.
    EmptyOrZeroNormVector,
    /// A position at or past the end of the index.
    IndexOutOfBounds { index: usize, size: usize },
    /// A score to be ranked is NaN; `index` names its entry.
    NanScore { index: usize },
}

} // verus!
