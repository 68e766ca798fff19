//! How a step of the solver can end.

use crate::errors::InvariantViolation;
use crate::model::BoardView;
use vstd::prelude::*;

verus! {

/// Where a step of the solver ended: the board, and what stopped the run
/// if anything did.
pub struct Outcome {
    pub board: BoardView,
    pub violation: Option<InvariantViolation>,
}

impl Outcome {
    /// The outcome of a step that went through.
    pub open spec fn fine(board: BoardView) -> Outcome {
        Outcome { board, violation: None }
    }

    /// What a function that ends with this outcome returns.
    pub open spec fn verdict(self) -> Result<(), InvariantViolation> {
        match self.violation {
            Some(violation) => Err(violation),
            None => Ok(()),
        }
    }
}

} // verus!
