//! Rows and columns read as lines: the blank positions and the star count
//! that the line rules decide by.

use crate::board::Board;
use crate::cell::CellState;
use crate::evolution::lemma_step_keeps_wf;
use crate::model::{blank_indices, count_blanks, count_stars, grid_from, BoardView, Coords};
use vstd::prelude::*;

verus! {

/// The entries of `v` as mathematical integers.
pub open spec fn as_ints(v: Seq<usize>) -> Seq<int> {
    Seq::new(v.len(), |i: int| v[i] as int)
}

/// The star count of a line is at most its length.
pub proof fn lemma_count_stars_bound(s: Seq<CellState>)
    ensures
        count_stars(s) <= s.len(),
    decreases s.len(),
{
    if s.len() > 0 {
        lemma_count_stars_bound(s.drop_last());
    }
}

/// The blank positions of a line are positions of the line, each holds a
/// blank, they ascend, and there are as many as the line has blanks.
pub proof fn lemma_blank_indices(s: Seq<CellState>)
    ensures
        blank_indices(s).len() == count_blanks(s),
        blank_indices(s).len() <= s.len(),
        forall|i: int|
            0 <= i < blank_indices(s).len() ==> 0 <= (#[trigger] blank_indices(s)[i]) < s.len()
                && s[blank_indices(s)[i]] is Blank,
        forall|i: int, j: int|
            0 <= i < j < blank_indices(s).len() ==> (#[trigger] blank_indices(s)[i]) < (
            #[trigger] blank_indices(s)[j]),
        forall|p: int|
            0 <= p < s.len() && s[p] is Blank ==> #[trigger] blank_indices(s).contains(p),
    decreases s.len(),
{
    if s.len() > 0 {
        let front = s.drop_last();
        lemma_blank_indices(front);
        let b = blank_indices(s);
        let fb = blank_indices(front);
        assert forall|p: int| 0 <= p < s.len() && s[p] is Blank implies #[trigger] b.contains(
            p,
        ) by {
            if p < s.len() - 1 {
                assert(front[p] is Blank);
                assert(fb.contains(p));
                let k = choose|k: int| 0 <= k < fb.len() && fb[k] == p;
                assert(b[k] == p);
            } else {
                assert(b[b.len() - 1] == p);
            }
        }
    }
}

impl BoardView {
    /// The board after positions `from..=to` of line `index` were shaded.
    pub open spec fn shade_span(self, by_rows: bool, index: int, from: int, to: int) -> BoardView {
        self.with_states(
            grid_from(
                self.height,
                self.width,
                |r: int, c: int|
                    {
                        let (line, p) = Self::on_line(by_rows, r, c);
                        if line == index && from <= p <= to {
                            self.state(r, c).shaded()
                        } else {
                            self.state(r, c)
                        }
                    },
            ),
        )
    }

    /// The board after the cells that `list` names were shaded.
    pub open spec fn shade_cells(self, list: Coords) -> BoardView {
        self.with_states(
            grid_from(
                self.height,
                self.width,
                |r: int, c: int|
                    if list.contains((r as usize, c as usize)) {
                        self.state(r, c).shaded()
                    } else {
                        self.state(r, c)
                    },
            ),
        )
    }
}

impl Board {
    /// The state at position `pos` of row or column `index`.
    pub fn state_on_line(&self, by_rows: bool, index: usize, pos: usize) -> (s: CellState)
        requires
            self@.is_grid(),
            index < self@.line_count(by_rows),
            pos < self@.line_len(by_rows),
        ensures
            s == self@.line(by_rows, index as int)[pos as int],
    {
        if by_rows {
            self.state(index, pos)
        } else {
            self.state(pos, index)
        }
    }

    /// Shades positions `from..=to` of row or column `index`.
    pub fn shade_span(&mut self, by_rows: bool, index: usize, from: usize, to: usize)
        requires
            old(self)@.is_grid(),
            index < old(self)@.line_count(by_rows),
            from <= to < old(self)@.line_len(by_rows),
        ensures
            final(self)@ == old(self)@.shade_span(by_rows, index as int, from as int, to as int),
            old(self)@.shades_to(final(self)@),
            old(self)@.wf() ==> final(self)@.wf(),
    {
        proof {
            let next = old(self)@.shade_span(by_rows, index as int, from as int, to as int);
            assert(old(self)@.shades_to(next));
            lemma_step_keeps_wf(old(self)@, next);
        }
        let len = if by_rows {
            self.width()
        } else {
            self.height()
        };
        let mut pos = from;
        proof {
            assert(self@ =~~= old(self)@.shade_span(by_rows, index as int, from as int, pos - 1));
        }
        while pos <= to
            invariant
                old(self)@.is_grid(),
                index < old(self)@.line_count(by_rows),
                from <= pos <= to + 1,
                to < len,
                len == old(self)@.line_len(by_rows),
                self@ == old(self)@.shade_span(by_rows, index as int, from as int, pos - 1),
            decreases to + 1 - pos,
        {
            if by_rows {
                self.shade_coords(index, pos);
            } else {
                self.shade_coords(pos, index);
            }
            proof {
                assert(self@ =~~= old(self)@.shade_span(
                    by_rows,
                    index as int,
                    from as int,
                    pos as int,
                ));
            }
            pos = pos + 1;
        }
    }

    /// Shades the cells that `list` names.
    pub fn shade_cells(&mut self, list: &[(usize, usize)])
        requires
            old(self)@.is_grid(),
            forall|i: int|
                0 <= i < list@.len() ==> old(self)@.has_cell(
                    (#[trigger] list@[i]).0 as int,
                    list@[i].1 as int,
                ),
        ensures
            final(self)@ == old(self)@.shade_cells(list@),
            old(self)@.shades_to(final(self)@),
            old(self)@.wf() ==> final(self)@.wf(),
    {
        proof {
            assert(old(self)@.shades_to(old(self)@.shade_cells(list@)));
            lemma_step_keeps_wf(old(self)@, old(self)@.shade_cells(list@));
        }
        let mut i: usize = 0;
        proof {
            assert(self@ =~~= old(self)@.shade_cells(list@.take(0)));
        }
        while i < list.len()
            invariant
                old(self)@.is_grid(),
                forall|i: int|
                    0 <= i < list@.len() ==> old(self)@.has_cell(
                        (#[trigger] list@[i]).0 as int,
                        list@[i].1 as int,
                    ),
                i <= list.len(),
                self@ == old(self)@.shade_cells(list@.take(i as int)),
            decreases list.len() - i,
        {
            let (row, col) = list[i];
            self.shade_coords(row, col);
            proof {
                let before = list@.take(i as int);
                let after = list@.take(i + 1);
                assert(after == before.push((row, col)));
                assert forall|p: (usize, usize)| after.contains(p) <==> before.contains(p) || p == (
                    row,
                    col,
                ) by {
                    if before.contains(p) {
                        let k = choose|k: int| 0 <= k < before.len() && before[k] == p;
                        assert(after[k] == p);
                    }
                    if p == (row, col) {
                        assert(after[i as int] == p);
                    }
                }
                assert(self@ =~~= old(self)@.shade_cells(after));
            }
            i = i + 1;
        }
        proof {
            assert(list@.take(list.len() as int) == list@);
        }
    }

    /// The blank positions of row or column `index`, ascending, and the
    /// number of its stars.
    pub fn scan_line(&self, by_rows: bool, index: usize) -> (found: (Vec<usize>, usize))
        requires
            self@.is_grid(),
            index < self@.line_count(by_rows),
        ensures
            as_ints(found.0@) == blank_indices(self@.line(by_rows, index as int)),
            found.1 == count_stars(self@.line(by_rows, index as int)),
    {
        let len = if by_rows {
            self.width()
        } else {
            self.height()
        };
        let ghost line = self@.line(by_rows, index as int);
        let mut blanks: Vec<usize> = Vec::new();
        let mut stars: usize = 0;
        let mut pos: usize = 0;
        while pos < len
            invariant
                self@.is_grid(),
                index < self@.line_count(by_rows),
                len == self@.line_len(by_rows),
                line == self@.line(by_rows, index as int),
                line.len() == len,
                pos <= len,
                as_ints(blanks@) == blank_indices(line.take(pos as int)),
                stars == count_stars(line.take(pos as int)),
                stars <= pos,
            decreases len - pos,
        {
            let s = self.state_on_line(by_rows, index, pos);
            proof {
                assert(line.take(pos + 1).drop_last() == line.take(pos as int));
                assert(line.take(pos + 1).last() == s);
            }
            let ghost before = blanks@;
            match s {
                CellState::Blank => {
                    blanks.push(pos);
                    proof {
                        assert(as_ints(blanks@) == as_ints(before).push(pos as int));
                    }
                },
                CellState::Star => {
                    stars = stars + 1;
                },
                CellState::Filled => {},
            }
            pos = pos + 1;
        }
        proof {
            assert(line.take(len as int) == line);
        }
        (blanks, stars)
    }
}

} // verus!
