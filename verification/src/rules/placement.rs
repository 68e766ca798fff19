//! Forced placement in a line: where the blanks left in a row or column
//! leave only one way to reach two stars, the stars are placed.

use crate::board::Board;
use crate::cell::CellState;
use crate::evolution::lemma_step_keeps_wf;
use crate::lines::{as_ints, lemma_blank_indices};
use crate::model::{blank_indices, count_blanks, count_stars, grid_from, BoardView};
use vstd::prelude::*;

verus! {

/// Whether a line with states `s` forces a star at position `pos`, should
/// that position be blank.
///
/// Without a star and with at most two blanks left, every position; without
/// a star and with three blanks left, the third if the first two are side by
/// side, else the first if the last two are side by side; with one star and
/// one blank left, every position.
pub open spec fn forced_star(s: Seq<CellState>, pos: int) -> bool {
    let b = blank_indices(s);
    let stars = count_stars(s);
    if stars == 0 && b.len() <= 2 {
        true
    } else if stars == 0 && b.len() == 3 {
        if b[1] - b[0] == 1 {
            pos == b[2]
        } else if b[2] - b[1] == 1 {
            pos == b[0]
        } else {
            false
        }
    } else {
        stars == 1 && b.len() == 1
    }
}

impl BoardView {
    /// The board after a star was put in every blank cell among the first
    /// `n` positions of line `index`.
    pub open spec fn star_line_upto(self, by_rows: bool, index: int, n: int) -> BoardView {
        self.with_states(
            grid_from(
                self.height,
                self.width,
                |r: int, c: int|
                    {
                        let (line, pos) = Self::on_line(by_rows, r, c);
                        if line == index && pos < n {
                            self.state(r, c).starred()
                        } else {
                            self.state(r, c)
                        }
                    },
            ),
        )
    }

    /// The board after a star was put in every blank cell of line `index`.
    pub open spec fn star_line(self, by_rows: bool, index: int) -> BoardView {
        self.star_line_upto(by_rows, index, self.line_len(by_rows) as int)
    }

    /// The board after the forced stars of lines `0..n` were placed. A line
    /// is read and changed by its own turn only, so the result does not
    /// depend on the order of the lines.
    pub open spec fn after_required_stars_upto(self, by_rows: bool, n: int) -> BoardView {
        self.with_states(
            grid_from(
                self.height,
                self.width,
                |r: int, c: int|
                    {
                        let (line, pos) = Self::on_line(by_rows, r, c);
                        if line < n && forced_star(self.line(by_rows, line), pos) {
                            self.state(r, c).starred()
                        } else {
                            self.state(r, c)
                        }
                    },
            ),
        )
    }

    /// The board after the forced stars of line `index` were placed.
    pub open spec fn after_required_stars_line(self, by_rows: bool, index: int) -> BoardView {
        self.with_states(
            grid_from(
                self.height,
                self.width,
                |r: int, c: int|
                    {
                        let (line, pos) = Self::on_line(by_rows, r, c);
                        if line == index && forced_star(self.line(by_rows, line), pos) {
                            self.state(r, c).starred()
                        } else {
                            self.state(r, c)
                        }
                    },
            ),
        )
    }

    /// The board after the forced stars of every row (if `by_rows`) or of
    /// every column were placed.
    pub open spec fn after_required_stars(self, by_rows: bool) -> BoardView {
        self.after_required_stars_upto(by_rows, self.line_count(by_rows) as int)
    }
}

/// Three blanks of which no two are side by side force nothing, whatever
/// the number of stars in the line.
pub proof fn lemma_three_apart_blanks_force_nothing(v: BoardView, by_rows: bool, index: int)
    requires
        v.is_grid(),
        0 <= index < v.line_count(by_rows),
        blank_indices(v.line(by_rows, index)).len() == 3,
        blank_indices(v.line(by_rows, index))[1] - blank_indices(v.line(by_rows, index))[0] != 1,
        blank_indices(v.line(by_rows, index))[2] - blank_indices(v.line(by_rows, index))[1] != 1,
    ensures
        forall|pos: int| !forced_star(v.line(by_rows, index), pos),
        v.after_required_stars_line(by_rows, index) == v,
{
    assert(v.after_required_stars_line(by_rows, index) =~~= v);
}

/// Placing the forced stars of one more line extends the sweep by that
/// line.
pub proof fn lemma_required_stars_step(v: BoardView, by_rows: bool, n: int)
    requires
        v.is_grid(),
        0 <= n < v.line_count(by_rows),
    ensures
        v.after_required_stars_upto(by_rows, n).after_required_stars_line(by_rows, n)
            == v.after_required_stars_upto(by_rows, n + 1),
        v.after_required_stars_upto(by_rows, n).is_grid(),
        v.after_required_stars_upto(by_rows, 0) == v,
{
    let mid = v.after_required_stars_upto(by_rows, n);
    assert(mid.line(by_rows, n) =~= v.line(by_rows, n));
    assert(mid.after_required_stars_line(by_rows, n) =~~= v.after_required_stars_upto(
        by_rows,
        n + 1,
    ));
    assert(v.after_required_stars_upto(by_rows, 0) =~~= v);
}

/// A star put in a blank entry of a line adds one to its stars.
pub proof fn lemma_count_stars_update(s: Seq<CellState>, pos: int)
    requires
        0 <= pos < s.len(),
        s[pos] is Blank,
    ensures
        count_stars(s.update(pos, CellState::Star)) == count_stars(s) + 1,
    decreases s.len(),
{
    let next = s.update(pos, CellState::Star);
    if pos == s.len() - 1 {
        assert(next.drop_last() =~= s.drop_last());
    } else {
        lemma_count_stars_update(s.drop_last(), pos);
        assert(next.drop_last() =~= s.drop_last().update(pos, CellState::Star));
    }
}

/// A line in which only blank entries changed has at most as many stars
/// more as it had blanks.
pub proof fn lemma_count_stars_growth(s: Seq<CellState>, next: Seq<CellState>)
    requires
        next.len() == s.len(),
        forall|i: int| 0 <= i < s.len() ==> s[i].may_become(#[trigger] next[i]),
    ensures
        count_stars(next) <= count_stars(s) + count_blanks(s),
    decreases s.len(),
{
    if s.len() > 0 {
        assert forall|i: int| 0 <= i < s.drop_last().len() implies s.drop_last()[i].may_become(
            #[trigger] next.drop_last()[i],
        ) by {
            assert(s[i].may_become(next[i]));
        }
        lemma_count_stars_growth(s.drop_last(), next.drop_last());
        assert(s.last().may_become(next[s.len() - 1]));
    }
}

/// The rule for rows never gives a row more than two stars, and the rule
/// for columns never gives a column more than two: a line that holds at most
/// two stars holds at most two after the forced stars of the lines of its
/// kind were placed. Nothing is said here of what the rule for columns does
/// to a row, or the rule for rows to a column.
pub proof fn lemma_line_rule_keeps_own_cap(v: BoardView, by_rows: bool, index: int)
    requires
        v.is_grid(),
        0 <= index < v.line_count(by_rows),
        count_stars(v.line(by_rows, index)) <= 2,
    ensures
        count_stars(v.after_required_stars(by_rows).line(by_rows, index)) <= 2,
{
    let s = v.line(by_rows, index);
    let next = v.after_required_stars(by_rows).line(by_rows, index);
    let b = blank_indices(s);
    lemma_blank_indices(s);
    assert(next.len() == s.len());
    assert forall|p: int| 0 <= p < s.len() implies #[trigger] next[p] == if forced_star(s, p) {
        s[p].starred()
    } else {
        s[p]
    } by {}
    if count_stars(s) == 0 && b.len() == 3 {
        if b[1] - b[0] == 1 {
            assert(next =~= s.update(b[2], CellState::Star));
            lemma_count_stars_update(s, b[2]);
        } else if b[2] - b[1] == 1 {
            assert(next =~= s.update(b[0], CellState::Star));
            lemma_count_stars_update(s, b[0]);
        } else {
            assert(next =~= s);
        }
    } else if (count_stars(s) == 0 && b.len() <= 2) || (count_stars(s) == 1 && b.len() == 1) {
        lemma_count_stars_growth(s, next);
    } else {
        assert(next =~= s);
    }
}

/// Placing the forced stars of the rows or of the columns changes no cell
/// but from blank to a star, and leaves the region lists alone.
pub proof fn lemma_required_stars_evolve(v: BoardView, by_rows: bool)
    requires
        v.is_grid(),
    ensures
        v.evolves_to(v.after_required_stars(by_rows)),
        v.after_required_stars(by_rows).regions == v.regions,
        v.after_required_stars(by_rows).is_grid(),
{
}

impl Board {
    /// Puts a star in every blank cell of row or column `index`.
    fn star_line(&mut self, by_rows: bool, index: usize)
        requires
            old(self)@.is_grid(),
            index < old(self)@.line_count(by_rows),
        ensures
            final(self)@ == old(self)@.star_line(by_rows, index as int),
    {
        let len = if by_rows {
            self.width()
        } else {
            self.height()
        };
        let mut pos: usize = 0;
        proof {
            assert(self@ =~~= old(self)@.star_line_upto(by_rows, index as int, 0));
        }
        while pos < len
            invariant
                old(self)@.is_grid(),
                index < old(self)@.line_count(by_rows),
                len == old(self)@.line_len(by_rows),
                pos <= len,
                self@ == old(self)@.star_line_upto(by_rows, index as int, pos as int),
            decreases len - pos,
        {
            if by_rows {
                self.star_coords(index, pos);
            } else {
                self.star_coords(pos, index);
            }
            pos = pos + 1;
            proof {
                assert(self@ =~~= old(self)@.star_line_upto(by_rows, index as int, pos as int));
            }
        }
    }

    /// Places the stars that row or column `index` forces.
    pub fn add_required_stars_slice(&mut self, by_rows: bool, index: usize)
        requires
            old(self)@.is_grid(),
            index < old(self)@.line_count(by_rows),
        ensures
            final(self)@ == old(self)@.after_required_stars_line(by_rows, index as int),
            old(self)@.evolves_to(final(self)@),
            old(self)@.wf() ==> final(self)@.wf(),
    {
        let (blanks, starcount) = self.scan_line(by_rows, index);
        let count = blanks.len();
        proof {
            let s = self@.line(by_rows, index as int);
            lemma_blank_indices(s);
            assert forall|i: int| 0 <= i < blanks@.len() implies (#[trigger] blanks@[i]) as int
                == blank_indices(s)[i] by {
                assert(as_ints(blanks@)[i] == blank_indices(s)[i]);
            }
        }
        if starcount == 0 {
            if count <= 2 {
                self.star_line(by_rows, index);
            } else if count == 3 {
                let cell: Option<usize> = if blanks[1] - blanks[0] == 1 {
                    Some(2)
                } else if blanks[2] - blanks[1] == 1 {
                    Some(0)
                } else {
                    None
                };
                if let Some(cell) = cell {
                    if by_rows {
                        self.star_coords(index, blanks[cell]);
                    } else {
                        self.star_coords(blanks[cell], index);
                    }
                }
            }
        } else if starcount == 1 && count == 1 {
            self.star_line(by_rows, index);
        }
        proof {
            assert(self@ =~~= old(self)@.after_required_stars_line(by_rows, index as int));
            lemma_step_keeps_wf(old(self)@, self@);
        }
    }

    /// Places the forced stars of every row.
    pub fn add_required_stars_rows(&mut self)
        requires
            old(self)@.is_grid(),
        ensures
            final(self)@ == old(self)@.after_required_stars(true),
            old(self)@.evolves_to(final(self)@),
            old(self)@.wf() ==> final(self)@.wf(),
    {
        proof {
            lemma_required_stars_evolve(old(self)@, true);
            lemma_step_keeps_wf(old(self)@, old(self)@.after_required_stars(true));
        }
        let height = self.height();
        proof {
            assert(old(self)@.after_required_stars_upto(true, 0) =~~= old(self)@);
        }
        for row in 0..height
            invariant
                old(self)@.is_grid(),
                height == old(self)@.height,
                self@ == old(self)@.after_required_stars_upto(true, row as int),
        {
            proof {
                lemma_required_stars_step(old(self)@, true, row as int);
            }
            self.add_required_stars_slice(true, row);
        }
    }

    /// Places the forced stars of every column.
    pub fn add_required_stars_cols(&mut self)
        requires
            old(self)@.is_grid(),
        ensures
            final(self)@ == old(self)@.after_required_stars(false),
            old(self)@.evolves_to(final(self)@),
            old(self)@.wf() ==> final(self)@.wf(),
    {
        proof {
            lemma_required_stars_evolve(old(self)@, false);
            lemma_step_keeps_wf(old(self)@, old(self)@.after_required_stars(false));
        }
        let width = self.width();
        proof {
            assert(old(self)@.after_required_stars_upto(false, 0) =~~= old(self)@);
        }
        for col in 0..width
            invariant
                old(self)@.is_grid(),
                width == old(self)@.width,
                self@ == old(self)@.after_required_stars_upto(false, col as int),
        {
            proof {
                lemma_required_stars_step(old(self)@, false, col as int);
            }
            self.add_required_stars_slice(false, col);
        }
    }
}

} // verus!
