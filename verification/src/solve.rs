//! The solver: rounds of constraint tightening and forced placement,
//! repeated until a whole round leaves the board as it was.

use crate::board::Board;
use crate::checks::lemma_stars_within_solution;
use crate::errors::InvariantViolation;
use crate::evolution::{
    lemma_advances_trans, lemma_evolution_keeps_wf, lemma_evolves_refl, lemma_states_advance,
};
use crate::model::BoardView;
use crate::outcome::Outcome;
use crate::rules::placement::lemma_required_stars_evolve;
use crate::settled::lemma_unchanged_by_round_is_settled;
use vstd::prelude::*;

verus! {

impl BoardView {
    /// The outcome of a board on which no further step is taken: stopped if
    /// two stars stand side by side, fine otherwise.
    pub open spec fn checked(self) -> Outcome {
        match self.first_star_beside_star() {
            Some(p) => Outcome {
                board: self,
                violation: Some(InvariantViolation::AdjacentStars { row: p.0, col: p.1 }),
            },
            None => Outcome::fine(self),
        }
    }

    /// One round: the shading rules are enforced, the forced stars of the
    /// columns are placed, the rules are enforced, the forced stars of the
    /// rows are placed, the rules are enforced, and the forced stars of the
    /// regions are added. The round ends early where stars have come to stand
    /// side by side.
    pub open spec fn after_round(self) -> Outcome {
        let by_columns = self.after_enforcement().after_required_stars(false).checked();
        if by_columns.violation is Some {
            by_columns
        } else {
            let by_rows = by_columns.board.after_enforcement().after_required_stars(true).checked();
            if by_rows.violation is Some {
                by_rows
            } else {
                by_rows.board.after_enforcement().after_required_stars_region()
            }
        }
    }

    /// Rounds are repeated until one is stopped or changes nothing. A round
    /// that changes the board leaves less to decide, so this ends.
    pub open spec fn after_rounds(self) -> Outcome
        decreases self.measure(),
    {
        let round = self.after_round();
        if round.violation is None && round.board.measure() < self.measure() {
            round.board.after_rounds()
        } else {
            round
        }
    }

    /// The outcome of solving: nothing is done to a board on which two stars
    /// stand side by side; otherwise rounds are repeated, and the board they
    /// end with is held against the reference solution, if there is one.
    pub open spec fn after_solve(self) -> Outcome {
        if self.checked().violation is Some {
            self.checked()
        } else {
            let rounds = self.after_rounds();
            if rounds.violation is Some {
                rounds
            } else {
                match rounds.board.first_mismatch() {
                    Some(p) => Outcome {
                        board: rounds.board,
                        violation: Some(
                            InvariantViolation::SolutionMismatch { row: p.0, col: p.1 },
                        ),
                    },
                    None => rounds,
                }
            }
        }
    }
}

/// Solving is a function of the board: equal boards end as equal boards
/// with the same verdict.
pub proof fn lemma_solve_is_deterministic(a: BoardView, b: BoardView)
    requires
        a == b,
    ensures
        a.after_solve() == b.after_solve(),
{
}

impl Board {
    /// Places the forced stars of the rows or of the columns, and reports
    /// the first star that has come to stand beside a star.
    fn place_and_check(&mut self, by_rows: bool) -> (result: Result<(), InvariantViolation>)
        requires
            old(self)@.wf(),
        ensures
            final(self)@ == old(self)@.after_required_stars(by_rows),
            result == old(self)@.after_required_stars(by_rows).checked().verdict(),
            final(self)@.wf(),
            old(self)@.advances_to(final(self)@),
            result is Ok ==> final(self)@.stars_apart(),
            old(self)@.regions_exact() ==> final(self)@.regions_exact(),
    {
        if by_rows {
            self.add_required_stars_rows();
        } else {
            self.add_required_stars_cols();
        }
        proof {
            lemma_required_stars_evolve(old(self)@, by_rows);
            lemma_evolution_keeps_wf(old(self)@, self@);
            lemma_states_advance(old(self)@, self@);
            assert(old(self)@.regions_exact() ==> self@.regions_exact()) by {
                if old(self)@.regions_exact() {
                    assert forall|t: int, i: int|
                        0 <= t < self@.regions.len() && 0 <= i < self@.regions[t].len()
                            implies !(self@.state(
                        (#[trigger] self@.regions[t][i]).0 as int,
                        self@.regions[t][i].1 as int,
                    ) is Filled) by {
                        assert(old(self)@.region_in_order(t));
                        let p = old(self)@.regions[t][i];
                        assert(old(self)@.state(p.0 as int, p.1 as int).may_become(
                            self@.state(p.0 as int, p.1 as int),
                        ));
                    }
                }
            }
        }
        match self.find_adjacent_stars() {
            Some((row, col)) => Err(InvariantViolation::AdjacentStars { row, col }),
            None => Ok(()),
        }
    }

    /// One round of the solver.
    fn solve_round(&mut self) -> (result: Result<(), InvariantViolation>)
        requires
            old(self)@.wf(),
            old(self)@.stars_apart(),
        ensures
            final(self)@ == old(self)@.after_round().board,
            result == old(self)@.after_round().verdict(),
            final(self)@.wf(),
            old(self)@.advances_to(final(self)@),
            result is Ok ==> final(self)@.stars_apart() && final(self)@.regions_exact(),
    {
        self.enforce_rules();
        let ghost enforced = self@;
        self.place_and_check(false)?;
        proof {
            lemma_advances_trans(old(self)@, enforced, self@);
        }
        let ghost by_columns = self@;
        self.enforce_rules();
        let ghost enforced_again = self@;
        self.place_and_check(true)?;
        proof {
            lemma_advances_trans(by_columns, enforced_again, self@);
            lemma_advances_trans(old(self)@, by_columns, self@);
        }
        let ghost by_rows = self@;
        self.enforce_rules();
        let ghost enforced_last = self@;
        let result = self.add_required_stars_region();
        proof {
            lemma_advances_trans(by_rows, enforced_last, self@);
            lemma_advances_trans(old(self)@, by_rows, self@);
        }
        result
    }

    /// Solves as far as the rules reach.
    ///
    /// Returns `Ok` when a whole round has left the board unchanged, whether
    /// or not blanks remain. Then no two stars stand side by side, no rule
    /// has anything left to do, the region lists hold exactly the cells that
    /// are not filled, and no decided cell differs from the reference
    /// solution if one is attached; if that reference has at most two stars
    /// in every row, column and region, so has the board.
    /// Returns the violation when stars have come to stand side by side, or
    /// when the final board contradicts the reference solution. In every
    /// case the board that is left is `after_solve` of the board that was
    /// given, and no cell has changed but from blank to a star or to filled.
    pub fn solve(&mut self) -> (result: Result<(), InvariantViolation>)
        requires
            old(self)@.wf(),
        ensures
            final(self)@ == old(self)@.after_solve().board,
            result == old(self)@.after_solve().verdict(),
            final(self)@.wf(),
            old(self)@.evolves_to(final(self)@),
            old(self)@.advances_to(final(self)@),
            result is Ok ==> final(self)@.stars_apart(),
            result is Ok ==> final(self)@.regions_exact(),
            result is Ok ==> final(self)@.agrees_with_solution(),
            result is Ok && final(self)@.solution is Some
                && final(self)@.reference().at_most_two_stars_per_line()
                ==> final(self)@.at_most_two_stars_per_line(),
            result is Ok ==> final(self)@.after_round() == Outcome::fine(final(self)@),
            result is Ok ==> final(self)@.settled() && final(self)@.no_forced_star(),
    {
        proof {
            lemma_evolves_refl(self@);
        }
        if let Some((row, col)) = self.find_adjacent_stars() {
            return Err(InvariantViolation::AdjacentStars { row, col });
        }
        let mut past_self = self.clone();
        loop
            invariant_except_break
                self@.wf(),
                self@.stars_apart(),
                past_self@ == self@,
                old(self)@.advances_to(self@),
                self@.after_rounds() == old(self)@.after_rounds(),
            invariant
                old(self)@.stars_apart(),
            ensures
                self@.wf(),
                self@.stars_apart(),
                self@.regions_exact(),
                old(self)@.advances_to(self@),
                Outcome::fine(self@) == old(self)@.after_rounds(),
                self@.after_round() == Outcome::fine(self@),
            decreases self@.measure(),
        {
            let result = self.solve_round();
            proof {
                lemma_advances_trans(old(self)@, past_self@, self@);
            }
            if let Err(violation) = result {
                return Err(violation);
            }
            if past_self == *self {
                break ;
            } else {
                past_self = self.clone();
            }
        }
        match self.find_solution_mismatch() {
            Some((row, col)) => Err(InvariantViolation::SolutionMismatch { row, col }),
            None => {
                proof {
                    if self@.solution is Some {
                        lemma_stars_within_solution(self@);
                    }
                    lemma_unchanged_by_round_is_settled(self@);
                }
                Ok(())
            },
        }
    }
}

} // verus!
