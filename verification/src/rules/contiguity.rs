//! Edge-contiguity shading: where the blanks left in a line sit side by
//! side, the cells beside them in the two neighbouring lines cannot hold a
//! star.

use crate::board::Board;
use crate::cell::CellState;
use crate::evolution::{lemma_shades_trans, lemma_step_keeps_wf};
use crate::lines::{as_ints, lemma_blank_indices};
use crate::model::{blank_indices, count_stars, grid_from, BoardView};
use vstd::prelude::*;

verus! {

/// Whether a line with states `s` rules out position `pos` in the lines
/// beside it.
///
/// With one star placed and two blanks left side by side, both positions;
/// with one star placed and three blanks left in a row, the middle one; with
/// no star and four blanks left, the first two if they are side by side and
/// the last two if they are.
pub open spec fn contiguity_target(s: Seq<CellState>, pos: int) -> bool {
    let b = blank_indices(s);
    let stars = count_stars(s);
    if b.len() == 2 && stars == 1 && b[1] - b[0] == 1 {
        pos == b[0] || pos == b[1]
    } else if b.len() == 3 && stars == 1 && b[2] - b[0] == 2 {
        pos == b[1]
    } else if b.len() == 4 && stars == 0 {
        ||| b[1] - b[0] == 1 && (pos == b[0] || pos == b[1])
        ||| b[3] - b[2] == 1 && (pos == b[2] || pos == b[3])
    } else {
        false
    }
}

impl BoardView {
    /// The board after the cells at position `pos` of the lines before and
    /// after line `index` were shaded.
    pub open spec fn shade_beside(self, by_rows: bool, index: int, pos: int) -> BoardView {
        self.with_states(
            grid_from(
                self.height,
                self.width,
                |r: int, c: int|
                    {
                        let (line, p) = Self::on_line(by_rows, r, c);
                        if p == pos && (line == index - 1 || line == index + 1) {
                            self.state(r, c).shaded()
                        } else {
                            self.state(r, c)
                        }
                    },
            ),
        )
    }

    /// The board after the contiguity rule was applied to line `index`: in
    /// the lines before and after it, the positions that the line rules out
    /// are shaded.
    pub open spec fn after_contiguity_line(self, by_rows: bool, index: int) -> BoardView {
        let s = self.line(by_rows, index);
        self.with_states(
            grid_from(
                self.height,
                self.width,
                |r: int, c: int|
                    {
                        let (line, p) = Self::on_line(by_rows, r, c);
                        if (line == index - 1 || line == index + 1) && contiguity_target(s, p) {
                            self.state(r, c).shaded()
                        } else {
                            self.state(r, c)
                        }
                    },
            ),
        )
    }

    /// The board after the rule was applied to lines `0..n`, one after the
    /// other: each line is read as the lines before it left it.
    pub open spec fn after_contiguity_lines(self, by_rows: bool, n: nat) -> BoardView
        decreases n,
    {
        if n == 0 {
            self
        } else {
            self.after_contiguity_lines(by_rows, (n - 1) as nat).after_contiguity_line(
                by_rows,
                n - 1,
            )
        }
    }

    /// The board after the contiguity rule: over all rows from the top, then
    /// over all columns from the left.
    pub open spec fn after_contiguity(self) -> BoardView {
        self.after_contiguity_lines(true, self.height).after_contiguity_lines(false, self.width)
    }
}

/// The contiguity rule only shades, whatever the number of lines it was
/// applied to.
pub proof fn lemma_contiguity_lines_shade(v: BoardView, by_rows: bool, n: nat)
    requires
        v.is_grid(),
    ensures
        v.after_contiguity_lines(by_rows, n).is_grid(),
        v.after_contiguity_lines(by_rows, n).regions == v.regions,
        v.shades_to(v.after_contiguity_lines(by_rows, n)),
    decreases n,
{
    if n > 0 {
        let mid = v.after_contiguity_lines(by_rows, (n - 1) as nat);
        lemma_contiguity_lines_shade(v, by_rows, (n - 1) as nat);
        assert(mid.shades_to(mid.after_contiguity_line(by_rows, n - 1)));
        lemma_shades_trans(v, mid, mid.after_contiguity_line(by_rows, n - 1));
    }
}

/// The contiguity rule only shades.
pub proof fn lemma_contiguity_shades(v: BoardView)
    requires
        v.is_grid(),
    ensures
        v.after_contiguity().is_grid(),
        v.after_contiguity().regions == v.regions,
        v.shades_to(v.after_contiguity()),
{
    let mid = v.after_contiguity_lines(true, v.height);
    lemma_contiguity_lines_shade(v, true, v.height);
    lemma_contiguity_lines_shade(mid, false, v.width);
    lemma_shades_trans(v, mid, v.after_contiguity());
}

impl Board {
    /// Shades the cell at position `pos` of row or column `index`.
    fn shade_on_line(&mut self, by_rows: bool, index: usize, pos: usize)
        requires
            old(self)@.is_grid(),
            index < old(self)@.line_count(by_rows),
            pos < old(self)@.line_len(by_rows),
        ensures
            final(self)@ == if by_rows {
                old(self)@.shade(index as int, pos as int)
            } else {
                old(self)@.shade(pos as int, index as int)
            },
    {
        if by_rows {
            self.shade_coords(index, pos);
        } else {
            self.shade_coords(pos, index);
        }
    }

    /// Shades the cells at position `pos` of the lines before and after line
    /// `index`, where there are such lines.
    fn shade_beside(&mut self, by_rows: bool, index: usize, pos: usize)
        requires
            old(self)@.is_grid(),
            index < old(self)@.line_count(by_rows),
            pos < old(self)@.line_len(by_rows),
        ensures
            final(self)@ == old(self)@.shade_beside(by_rows, index as int, pos as int),
    {
        let count = if by_rows {
            self.height()
        } else {
            self.width()
        };
        if index != 0 {
            self.shade_on_line(by_rows, index - 1, pos);
        }
        if index < count - 1 {
            self.shade_on_line(by_rows, index + 1, pos);
        }
        proof {
            assert(self@ =~~= old(self)@.shade_beside(by_rows, index as int, pos as int));
        }
    }

    /// Applies the contiguity rule to row or column `index`.
    pub fn blackout_beside_line(&mut self, by_rows: bool, index: usize)
        requires
            old(self)@.is_grid(),
            index < old(self)@.line_count(by_rows),
        ensures
            final(self)@ == old(self)@.after_contiguity_line(by_rows, index as int),
            old(self)@.shades_to(final(self)@),
            old(self)@.wf() ==> final(self)@.wf(),
    {
        let (blanks, starcount) = self.scan_line(by_rows, index);
        proof {
            let s = self@.line(by_rows, index as int);
            lemma_blank_indices(s);
            assert forall|i: int| 0 <= i < blanks@.len() implies (#[trigger] blanks@[i]) as int
                == blank_indices(s)[i] by {
                assert(as_ints(blanks@)[i] == blank_indices(s)[i]);
            }
        }
        if blanks.len() == 2 && starcount == 1 && blanks[1] - blanks[0] == 1 {
            self.shade_beside(by_rows, index, blanks[0]);
            self.shade_beside(by_rows, index, blanks[1]);
        } else if blanks.len() == 3 && starcount == 1 && blanks[2] - blanks[0] == 2 {
            self.shade_beside(by_rows, index, blanks[1]);
        } else if blanks.len() == 4 && starcount == 0 {
            if blanks[1] - blanks[0] == 1 {
                self.shade_beside(by_rows, index, blanks[0]);
                self.shade_beside(by_rows, index, blanks[1]);
            }
            if blanks[3] - blanks[2] == 1 {
                self.shade_beside(by_rows, index, blanks[2]);
                self.shade_beside(by_rows, index, blanks[3]);
            }
        }
        proof {
            assert(self@ =~~= old(self)@.after_contiguity_line(by_rows, index as int));
            lemma_step_keeps_wf(old(self)@, self@);
        }
    }

    /// Applies the contiguity rule to every row from the top, then to every
    /// column from the left.
    pub fn blackout_next_to_contiguity(&mut self)
        requires
            old(self)@.is_grid(),
        ensures
            final(self)@ == old(self)@.after_contiguity(),
            old(self)@.shades_to(final(self)@),
            old(self)@.wf() ==> final(self)@.wf(),
    {
        proof {
            lemma_contiguity_shades(old(self)@);
            lemma_step_keeps_wf(old(self)@, old(self)@.after_contiguity());
        }
        let height = self.height();
        let width = self.width();
        for row in 0..height
            invariant
                old(self)@.is_grid(),
                height == old(self)@.height,
                self@ == old(self)@.after_contiguity_lines(true, row as nat),
        {
            proof {
                lemma_contiguity_lines_shade(old(self)@, true, row as nat);
            }
            self.blackout_beside_line(true, row);
        }
        let ghost rows_done = self@;
        proof {
            lemma_contiguity_lines_shade(old(self)@, true, height as nat);
        }
        for col in 0..width
            invariant
                rows_done.is_grid(),
                width == rows_done.width,
                self@ == rows_done.after_contiguity_lines(false, col as nat),
        {
            proof {
                lemma_contiguity_lines_shade(rows_done, false, col as nat);
            }
            self.blackout_beside_line(false, col);
        }
    }
}

} // verus!
