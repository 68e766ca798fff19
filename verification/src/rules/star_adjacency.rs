//! Star adjacency: no star can stand beside a star, so the king-neighbours
//! of every star are shaded.

use crate::board::Board;
use crate::cell::CellState;
use crate::evolution::{lemma_shading_keeps_stars_apart, lemma_step_keeps_wf};
use crate::geometry::adjacencies;
use crate::model::{grid_from, row_major_lt, BoardView};
use vstd::prelude::*;

verus! {

impl BoardView {
    /// A star stands in `(r, c)`, a cell of the board that comes before
    /// `(row, col)` in row-major order.
    pub open spec fn star_before(self, r: int, c: int, row: int, col: int) -> bool {
        self.star_at(r, c) && row_major_lt(r, c, row, col)
    }

    /// A king-neighbour of `(r, c)` holds a star and comes before
    /// `(row, col)` in row-major order.
    pub open spec fn beside_star_before(self, r: int, c: int, row: int, col: int) -> bool {
        ||| self.star_before(r - 1, c - 1, row, col)
        ||| self.star_before(r - 1, c, row, col)
        ||| self.star_before(r - 1, c + 1, row, col)
        ||| self.star_before(r, c - 1, row, col)
        ||| self.star_before(r, c + 1, row, col)
        ||| self.star_before(r + 1, c - 1, row, col)
        ||| self.star_before(r + 1, c, row, col)
        ||| self.star_before(r + 1, c + 1, row, col)
    }

    /// The board after the neighbours of the stars before `(row, col)` were
    /// shaded.
    pub open spec fn after_star_adjacencies_upto(self, row: int, col: int) -> BoardView {
        self.with_states(
            grid_from(
                self.height,
                self.width,
                |r: int, c: int|
                    if self.beside_star_before(r, c, row, col) {
                        self.state(r, c).shaded()
                    } else {
                        self.state(r, c)
                    },
            ),
        )
    }

    /// The board after every blank cell beside a star was shaded.
    pub open spec fn after_star_adjacencies(self) -> BoardView {
        self.with_states(
            grid_from(
                self.height,
                self.width,
                |r: int, c: int|
                    if self.beside_star(r, c) {
                        self.state(r, c).shaded()
                    } else {
                        self.state(r, c)
                    },
            ),
        )
    }
}

/// Shading the neighbours of the stars only shades.
pub proof fn lemma_star_adjacencies_shades(v: BoardView)
    requires
        v.is_grid(),
    ensures
        v.shades_to(v.after_star_adjacencies()),
        v.after_star_adjacencies().regions == v.regions,
        v.after_star_adjacencies().is_grid(),
{
}

impl Board {
    /// The king-neighbours of `(row, col)` on this board.
    pub fn adjacencies(&self, row: usize, col: usize) -> (out: Vec<(usize, usize)>)
        ensures
            out@.no_duplicates(),
            forall|r: usize, c: usize|
                #[trigger] out@.contains((r, c)) <==> self@.has_cell(row as int, col as int)
                    && self@.has_cell(r as int, c as int) && crate::geometry::king_adjacent(
                    row as int,
                    col as int,
                    r as int,
                    c as int,
                ),
            out@.len() == crate::geometry::neighbour_count(
                self@.width as int,
                self@.height as int,
                row as int,
                col as int,
            ),
    {
        adjacencies(self.width(), self.height(), row, col)
    }

    /// Shades every blank cell beside a star. No two stars may stand side by
    /// side when this is called.
    pub fn blackout_star_adjacencies(&mut self)
        requires
            old(self)@.is_grid(),
            old(self)@.stars_apart(),
        ensures
            final(self)@ == old(self)@.after_star_adjacencies(),
            old(self)@.shades_to(final(self)@),
            final(self)@.stars_apart(),
            old(self)@.wf() ==> final(self)@.wf(),
    {
        proof {
            lemma_star_adjacencies_shades(old(self)@);
            lemma_step_keeps_wf(old(self)@, old(self)@.after_star_adjacencies());
            lemma_shading_keeps_stars_apart(old(self)@, old(self)@.after_star_adjacencies());
        }
        let height = self.height();
        let width = self.width();
        proof {
            assert(self@ =~~= old(self)@.after_star_adjacencies_upto(0, 0));
        }
        for row in 0..height
            invariant
                old(self)@.is_grid(),
                height == old(self)@.height,
                width == old(self)@.width,
                self@ == old(self)@.after_star_adjacencies_upto(row as int, 0),
        {
            for col in 0..width
                invariant
                    old(self)@.is_grid(),
                    height == old(self)@.height,
                    width == old(self)@.width,
                    row < height,
                    self@ == old(self)@.after_star_adjacencies_upto(row as int, col as int),
            {
                if self.state(row, col) == CellState::Star {
                    let around = self.adjacencies(row, col);
                    proof {
                        assert forall|i: int| 0 <= i < around@.len() implies self@.has_cell(
                            (#[trigger] around@[i]).0 as int,
                            around@[i].1 as int,
                        ) by {
                            assert(around@.contains((around@[i].0, around@[i].1)));
                        }
                    }
                    self.shade_cells(around.as_slice());
                }
                proof {
                    assert(self@ =~~= old(self)@.after_star_adjacencies_upto(
                        row as int,
                        col + 1,
                    ));
                }
            }
            proof {
                assert(self@ =~~= old(self)@.after_star_adjacencies_upto(row + 1, 0));
            }
        }
        proof {
            assert(self@ =~~= old(self)@.after_star_adjacencies());
        }
    }
}

} // verus!
