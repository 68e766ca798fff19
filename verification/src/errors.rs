//! What construction and solving can report.

use vstd::prelude::*;

verus! {

/// The dimensions or the tag matrix handed to the constructor are
/// malformed.
#[derive(Clone, Copy, Debug, PartialEq, Eq, Structural)]
pub struct InvalidInput;

/// The board has reached a state that the puzzle or the reference solution
/// excludes.
#[derive(Clone, Copy, Debug, PartialEq, Eq, Structural)]
pub enum InvariantViolation {
    /// The star in `(row, col)` has a star among its king-neighbours.
    AdjacentStars { row: usize, col: usize },
    /// Cell `(row, col)` was decided otherwise than the reference solution
    /// has it.
    SolutionMismatch { row: usize, col: usize },
}

} // verus!
