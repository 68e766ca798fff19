//! The two checks that end a run: stars side by side, and a decided cell
//! that the reference solution has otherwise.

use crate::board::Board;
use crate::cell::CellState;
use crate::evolution::lemma_solution_keeps_wf;
use crate::model::{count_stars, has_shape, row_major_lt, BoardView};
use vstd::prelude::*;

verus! {

impl BoardView {
    /// `(r, c)` is the first cell in row-major order whose star has a star
    /// beside it.
    pub open spec fn is_first_star_beside_star(self, r: int, c: int) -> bool {
        &&& self.star_beside_star(r, c)
        &&& forall|er: int, ec: int|
            row_major_lt(er, ec, r, c) ==> !#[trigger] self.star_beside_star(er, ec)
    }

    /// The first cell in row-major order whose star has a star beside it,
    /// if there is any.
    pub open spec fn first_star_beside_star(self) -> Option<(usize, usize)> {
        if self.stars_apart() {
            None
        } else {
            let (r, c) = choose|r: int, c: int| self.is_first_star_beside_star(r, c);
            Some((r as usize, c as usize))
        }
    }

    /// Cell `(r, c)` is decided, and the reference solution has it
    /// otherwise.
    pub open spec fn contradicts_solution(self, r: int, c: int) -> bool {
        &&& self.has_cell(r, c)
        &&& self.solution is Some
        &&& !(self.state(r, c) is Blank)
        &&& self.state(r, c) != self.solution->0[r][c]
    }

    /// No decided cell differs from the reference solution; true of every
    /// board without one.
    pub open spec fn agrees_with_solution(self) -> bool {
        forall|r: int, c: int| !#[trigger] self.contradicts_solution(r, c)
    }

    /// The reference solution as a board: the states of the reference with
    /// the tags and region lists of this board.
    pub open spec fn reference(self) -> BoardView {
        self.with_states(self.solution->0)
    }

    /// No row, no column and no region list holds more than two stars.
    pub open spec fn at_most_two_stars_per_line(self) -> bool {
        &&& forall|by_rows: bool, i: int|
            0 <= i < self.line_count(by_rows) ==> count_stars(#[trigger] self.line(by_rows, i))
                <= 2
        &&& forall|t: int|
            0 <= t < self.regions.len() ==> count_stars(#[trigger] self.region_states(t)) <= 2
    }

    /// Some cell is still blank.
    pub open spec fn has_blank(self) -> bool {
        exists|r: int, c: int| self.has_cell(r, c) && (#[trigger] self.state(r, c)) is Blank
    }

    /// `(r, c)` is the first cell in row-major order that contradicts the
    /// reference solution.
    pub open spec fn is_first_mismatch(self, r: int, c: int) -> bool {
        &&& self.contradicts_solution(r, c)
        &&& forall|er: int, ec: int|
            row_major_lt(er, ec, r, c) ==> !#[trigger] self.contradicts_solution(er, ec)
    }

    /// The first cell in row-major order that contradicts the reference
    /// solution, if there is any.
    pub open spec fn first_mismatch(self) -> Option<(usize, usize)> {
        if self.agrees_with_solution() {
            None
        } else {
            let (r, c) = choose|r: int, c: int| self.is_first_mismatch(r, c);
            Some((r as usize, c as usize))
        }
    }
}

/// A board that agrees with its reference solution has agreed with it at
/// every earlier stage: what was decided then is decided the same way now.
pub proof fn lemma_agreement_is_inherited(earlier: BoardView, later: BoardView)
    requires
        earlier.evolves_to(later),
        later.agrees_with_solution(),
    ensures
        earlier.agrees_with_solution(),
{
    assert forall|r: int, c: int| !#[trigger] earlier.contradicts_solution(r, c) by {
        if earlier.has_cell(r, c) {
            assert(earlier.state(r, c).may_become(later.state(r, c)));
            assert(!later.contradicts_solution(r, c));
        }
    }
}

/// A line whose stars are all stars of a second line has no more stars than
/// the second.
pub proof fn lemma_count_stars_within(s: Seq<CellState>, reference: Seq<CellState>)
    requires
        s.len() == reference.len(),
        forall|i: int| 0 <= i < s.len() && s[i] is Star ==> #[trigger] reference[i] is Star,
    ensures
        count_stars(s) <= count_stars(reference),
    decreases s.len(),
{
    if s.len() > 0 {
        let front = s.drop_last();
        let reference_front = reference.drop_last();
        assert forall|i: int|
            0 <= i < front.len() && front[i] is Star implies (#[trigger] reference_front[i])
                is Star by {
            assert(reference[i] is Star);
        }
        lemma_count_stars_within(front, reference_front);
        assert(s.last() is Star ==> reference[s.len() - 1] is Star);
    }
}

/// A board that agrees with its reference solution has, in every row,
/// column and region list, no more stars than the reference; so it holds at
/// most two stars per line if the reference does.
pub proof fn lemma_stars_within_solution(v: BoardView)
    requires
        v.wf(),
        v.solution is Some,
        v.agrees_with_solution(),
    ensures
        forall|by_rows: bool, i: int|
            0 <= i < v.line_count(by_rows) ==> count_stars(#[trigger] v.line(by_rows, i))
                <= count_stars(v.reference().line(by_rows, i)),
        forall|t: int|
            0 <= t < v.regions.len() ==> count_stars(#[trigger] v.region_states(t))
                <= count_stars(v.reference().region_states(t)),
        v.reference().at_most_two_stars_per_line() ==> v.at_most_two_stars_per_line(),
{
    let reference = v.reference();
    assert forall|by_rows: bool, i: int| 0 <= i < v.line_count(by_rows) implies count_stars(
        #[trigger] v.line(by_rows, i),
    ) <= count_stars(reference.line(by_rows, i)) by {
        let s = v.line(by_rows, i);
        let o = reference.line(by_rows, i);
        assert forall|k: int| 0 <= k < s.len() && s[k] is Star implies #[trigger] o[k] is Star by {
            if by_rows {
                assert(!v.contradicts_solution(i, k));
            } else {
                assert(!v.contradicts_solution(k, i));
            }
        }
        lemma_count_stars_within(s, o);
    }
    assert forall|t: int| 0 <= t < v.regions.len() implies count_stars(
        #[trigger] v.region_states(t),
    ) <= count_stars(reference.region_states(t)) by {
        let s = v.region_states(t);
        let o = reference.region_states(t);
        assert(v.region_in_order(t));
        assert forall|k: int| 0 <= k < s.len() && s[k] is Star implies #[trigger] o[k] is Star by {
            let p = v.regions[t][k];
            assert(!v.contradicts_solution(p.0 as int, p.1 as int));
        }
        lemma_count_stars_within(s, o);
    }
    if reference.at_most_two_stars_per_line() {
        assert forall|by_rows: bool, i: int| 0 <= i < v.line_count(by_rows) implies count_stars(
            #[trigger] v.line(by_rows, i),
        ) <= 2 by {
            assert(count_stars(reference.line(by_rows, i)) <= 2);
        }
        assert forall|t: int| 0 <= t < v.regions.len() implies count_stars(
            #[trigger] v.region_states(t),
        ) <= 2 by {
            assert(count_stars(reference.region_states(t)) <= 2);
        }
    }
}

/// The same for any grid of states, attached or not: a board whose decided
/// cells are all decided as `solution` has them holds at most two stars in
/// every row, column and region list in which `solution` holds at most two.
/// So it is with every solution of the puzzle that the rules have not
/// contradicted.
pub proof fn lemma_stars_within_any_solution(v: BoardView, solution: Seq<Seq<CellState>>)
    requires
        v.wf(),
        has_shape(solution, v.height, v.width),
        (BoardView { solution: Some(solution), ..v }).agrees_with_solution(),
        v.with_states(solution).at_most_two_stars_per_line(),
    ensures
        v.at_most_two_stars_per_line(),
{
    let held = BoardView { solution: Some(solution), ..v };
    lemma_solution_keeps_wf(v, solution);
    let reference = held.reference();
    let plain = v.with_states(solution);
    assert forall|by_rows: bool, i: int| 0 <= i < reference.line_count(by_rows) implies count_stars(
        #[trigger] reference.line(by_rows, i),
    ) <= 2 by {
        assert(reference.line(by_rows, i) == plain.line(by_rows, i));
    }
    assert forall|t: int| 0 <= t < reference.regions.len() implies count_stars(
        #[trigger] reference.region_states(t),
    ) <= 2 by {
        assert(reference.region_states(t) == plain.region_states(t));
    }
    lemma_stars_within_solution(held);
    assert forall|by_rows: bool, i: int| 0 <= i < v.line_count(by_rows) implies count_stars(
        #[trigger] v.line(by_rows, i),
    ) <= 2 by {
        assert(held.line(by_rows, i) == v.line(by_rows, i));
        assert(count_stars(held.line(by_rows, i)) <= 2);
    }
    assert forall|t: int| 0 <= t < v.regions.len() implies count_stars(
        #[trigger] v.region_states(t),
    ) <= 2 by {
        assert(held.region_states(t) == v.region_states(t));
        assert(count_stars(held.region_states(t)) <= 2);
    }
}

/// Two stars side by side stay side by side at every later stage.
pub proof fn lemma_adjacent_stars_stay(earlier: BoardView, later: BoardView)
    requires
        earlier.evolves_to(later),
        later.stars_apart(),
    ensures
        earlier.stars_apart(),
{
    assert forall|r: int, c: int| !#[trigger] earlier.star_beside_star(r, c) by {
        if earlier.star_beside_star(r, c) {
            assert(earlier.state(r, c).may_become(later.state(r, c)));
            assert(earlier.star_at(r - 1, c - 1) ==> earlier.state(r - 1, c - 1).may_become(
                later.state(r - 1, c - 1),
            ));
            assert(earlier.star_at(r - 1, c) ==> earlier.state(r - 1, c).may_become(
                later.state(r - 1, c),
            ));
            assert(earlier.star_at(r - 1, c + 1) ==> earlier.state(r - 1, c + 1).may_become(
                later.state(r - 1, c + 1),
            ));
            assert(earlier.star_at(r, c - 1) ==> earlier.state(r, c - 1).may_become(
                later.state(r, c - 1),
            ));
            assert(earlier.star_at(r, c + 1) ==> earlier.state(r, c + 1).may_become(
                later.state(r, c + 1),
            ));
            assert(earlier.star_at(r + 1, c - 1) ==> earlier.state(r + 1, c - 1).may_become(
                later.state(r + 1, c - 1),
            ));
            assert(earlier.star_at(r + 1, c) ==> earlier.state(r + 1, c).may_become(
                later.state(r + 1, c),
            ));
            assert(earlier.star_at(r + 1, c + 1) ==> earlier.state(r + 1, c + 1).may_become(
                later.state(r + 1, c + 1),
            ));
            assert(later.star_beside_star(r, c));
        }
    }
}

/// A star put on a board without stars side by side can only stand beside
/// a star itself: if it does not, there are still no stars side by side.
pub proof fn lemma_star_placed_apart(v: BoardView, r: int, c: int)
    requires
        v.is_grid(),
        v.has_cell(r, c),
        v.stars_apart(),
        !v.star(r, c).star_beside_star(r, c),
    ensures
        v.star(r, c).stars_apart(),
{
    let placed = v.star(r, c);
    assert forall|er: int, ec: int| !#[trigger] placed.star_beside_star(er, ec) by {
        if placed.star_beside_star(er, ec) {
            assert(!v.star_beside_star(er, ec));
            assert(placed.star_at(r, c) || placed.state(r, c) == v.state(r, c));
        }
    }
}

impl Board {
    /// Whether one of the king-neighbours of `(row, col)` holds a star.
    pub fn has_star_neighbour(&self, row: usize, col: usize) -> (found: bool)
        requires
            self@.is_grid(),
            self@.has_cell(row as int, col as int),
        ensures
            found == self@.beside_star(row as int, col as int),
    {
        let up = row > 0;
        let down = row < self.height() - 1;
        let left = col > 0;
        let right = col < self.width() - 1;
        (up && left && self.state(row - 1, col - 1) == CellState::Star) || (up && self.state(
            row - 1,
            col,
        ) == CellState::Star) || (up && right && self.state(row - 1, col + 1) == CellState::Star)
            || (left && self.state(row, col - 1) == CellState::Star) || (right && self.state(
            row,
            col + 1,
        ) == CellState::Star) || (down && left && self.state(row + 1, col - 1)
            == CellState::Star) || (down && self.state(row + 1, col) == CellState::Star) || (down
            && right && self.state(row + 1, col + 1) == CellState::Star)
    }

    /// The first cell in row-major order whose star has a star beside it;
    /// `None` exactly if no two stars stand side by side.
    pub fn find_adjacent_stars(&self) -> (found: Option<(usize, usize)>)
        requires
            self@.is_grid(),
        ensures
            found == self@.first_star_beside_star(),
            found is None <==> self@.stars_apart(),
            found matches Some(p) ==> self@.is_first_star_beside_star(p.0 as int, p.1 as int),
    {
        let height = self.height();
        let width = self.width();
        for row in 0..height
            invariant
                self@.is_grid(),
                height == self@.height,
                width == self@.width,
                forall|er: int, ec: int|
                    row_major_lt(er, ec, row as int, 0) ==> !#[trigger] self@.star_beside_star(
                        er,
                        ec,
                    ),
        {
            for col in 0..width
                invariant
                    self@.is_grid(),
                    height == self@.height,
                    width == self@.width,
                    row < height,
                    forall|er: int, ec: int|
                        row_major_lt(er, ec, row as int, col as int)
                            ==> !#[trigger] self@.star_beside_star(er, ec),
            {
                if self.state(row, col) == CellState::Star && self.has_star_neighbour(row, col) {
                    proof {
                        let v = self@;
                        assert(v.is_first_star_beside_star(row as int, col as int));
                        assert(v.star_beside_star(row as int, col as int));
                        let (r, c) = choose|r: int, c: int| v.is_first_star_beside_star(r, c);
                        assert(v.is_first_star_beside_star(r, c));
                        assert(!row_major_lt(r, c, row as int, col as int));
                        assert(!row_major_lt(row as int, col as int, r, c));
                    }
                    return Some((row, col));
                }
            }
        }
        proof {
            assert forall|r: int, c: int| !#[trigger] self@.star_beside_star(r, c) by {
                if self@.star_at(r, c) {
                    assert(row_major_lt(r, c, height as int, 0));
                }
            }
        }
        None
    }

    /// Whether some cell is still blank: the rules have not decided the
    /// whole board.
    pub fn has_blanks(&self) -> (found: bool)
        requires
            self@.is_grid(),
        ensures
            found == self@.has_blank(),
    {
        let height = self.height();
        let width = self.width();
        for row in 0..height
            invariant
                self@.is_grid(),
                height == self@.height,
                width == self@.width,
                forall|r: int, c: int|
                    0 <= r < row && 0 <= c < width ==> !((#[trigger] self@.state(r, c)) is Blank),
        {
            for col in 0..width
                invariant
                    self@.is_grid(),
                    height == self@.height,
                    width == self@.width,
                    row < height,
                    forall|r: int, c: int|
                        0 <= r < row && 0 <= c < width ==> !((#[trigger] self@.state(r, c))
                            is Blank),
                    forall|c: int|
                        0 <= c < col ==> !((#[trigger] self@.state(row as int, c)) is Blank),
            {
                if self.state(row, col) == CellState::Blank {
                    return true;
                }
            }
        }
        false
    }

    /// The first cell in row-major order that is decided otherwise than the
    /// reference solution has it; `None` exactly if there is no such cell,
    /// as on every board without a reference solution.
    pub fn find_solution_mismatch(&self) -> (found: Option<(usize, usize)>)
        requires
            self@.is_grid(),
        ensures
            found == self@.first_mismatch(),
            found is None <==> self@.agrees_with_solution(),
            found matches Some(p) ==> self@.is_first_mismatch(p.0 as int, p.1 as int),
    {
        if !self.has_solution() {
            return None;
        }
        let height = self.height();
        let width = self.width();
        for row in 0..height
            invariant
                self@.is_grid(),
                self@.solution is Some,
                height == self@.height,
                width == self@.width,
                forall|er: int, ec: int|
                    row_major_lt(er, ec, row as int, 0)
                        ==> !#[trigger] self@.contradicts_solution(er, ec),
        {
            for col in 0..width
                invariant
                    self@.is_grid(),
                    self@.solution is Some,
                    height == self@.height,
                    width == self@.width,
                    row < height,
                    forall|er: int, ec: int|
                        row_major_lt(er, ec, row as int, col as int)
                            ==> !#[trigger] self@.contradicts_solution(er, ec),
            {
                let state = self.state(row, col);
                if state != CellState::Blank && state != self.solution_state(row, col) {
                    proof {
                        let v = self@;
                        assert(v.is_first_mismatch(row as int, col as int));
                        assert(v.contradicts_solution(row as int, col as int));
                        let (r, c) = choose|r: int, c: int| v.is_first_mismatch(r, c);
                        assert(v.is_first_mismatch(r, c));
                        assert(!row_major_lt(r, c, row as int, col as int));
                        assert(!row_major_lt(row as int, col as int, r, c));
                    }
                    return Some((row, col));
                }
            }
        }
        proof {
            assert forall|r: int, c: int| !#[trigger] self@.contradicts_solution(r, c) by {
                if self@.has_cell(r, c) {
                    assert(row_major_lt(r, c, height as int, 0));
                }
            }
        }
        None
    }
}

} // verus!
