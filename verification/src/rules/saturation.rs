//! Line saturation: a row, column or region that holds its two stars has
//! its remaining blanks shaded.

use crate::board::Board;
use crate::evolution::lemma_step_keeps_wf;
use crate::lines::lemma_count_stars_bound;
use crate::model::{count_stars, grid_from, states_along, BoardView};
use crate::regions::lemma_region_on_board;
use vstd::prelude::*;

verus! {

impl BoardView {
    /// Row or column `index` holds exactly two stars.
    pub open spec fn line_saturated(self, by_rows: bool, index: int) -> bool {
        count_stars(self.line(by_rows, index)) == 2
    }

    /// The list of region `t` holds exactly two stars.
    pub open spec fn region_saturated(self, t: int) -> bool {
        count_stars(self.region_states(t)) == 2
    }

    /// The board after the blanks of the saturated lines among lines `0..n`
    /// were shaded.
    pub open spec fn after_blackout_lines_upto(self, by_rows: bool, n: int) -> BoardView {
        self.with_states(
            grid_from(
                self.height,
                self.width,
                |r: int, c: int|
                    {
                        let line = Self::on_line(by_rows, r, c).0;
                        if line < n && self.line_saturated(by_rows, line) {
                            self.state(r, c).shaded()
                        } else {
                            self.state(r, c)
                        }
                    },
            ),
        )
    }

    /// The board after the blanks of every saturated row (if `by_rows`) or
    /// column were shaded.
    pub open spec fn after_blackout_lines(self, by_rows: bool) -> BoardView {
        self.after_blackout_lines_upto(by_rows, self.line_count(by_rows) as int)
    }

    /// The board after the blanks of the saturated regions among regions
    /// `0..n` were shaded.
    pub open spec fn after_blackout_regions_upto(self, n: int) -> BoardView {
        self.with_states(
            grid_from(
                self.height,
                self.width,
                |r: int, c: int|
                    if self.region_of(r, c) < n && self.region_saturated(self.region_of(r, c)) {
                        self.state(r, c).shaded()
                    } else {
                        self.state(r, c)
                    },
            ),
        )
    }

    /// The board after the blanks of every saturated region were shaded.
    pub open spec fn after_blackout_regions(self) -> BoardView {
        self.after_blackout_regions_upto(self.regions.len() as int)
    }
}

/// Shading the saturated rows or columns only shades.
pub proof fn lemma_blackout_lines_shades(v: BoardView, by_rows: bool)
    requires
        v.is_grid(),
    ensures
        v.shades_to(v.after_blackout_lines(by_rows)),
        v.after_blackout_lines(by_rows).regions == v.regions,
        v.after_blackout_lines(by_rows).is_grid(),
{
}

/// Shading the saturated regions only shades.
pub proof fn lemma_blackout_regions_shades(v: BoardView)
    requires
        v.is_grid(),
    ensures
        v.shades_to(v.after_blackout_regions()),
        v.after_blackout_regions().regions == v.regions,
        v.after_blackout_regions().is_grid(),
{
}

impl Board {
    /// Shades the blanks of row or column `index` if it holds two stars.
    fn blackout_line(&mut self, by_rows: bool, index: usize)
        requires
            old(self)@.is_grid(),
            index < old(self)@.line_count(by_rows),
        ensures
            final(self)@ == if old(self)@.line_saturated(by_rows, index as int) {
                old(self)@.shade_span(
                    by_rows,
                    index as int,
                    0,
                    old(self)@.line_len(by_rows) - 1,
                )
            } else {
                old(self)@
            },
    {
        let len = if by_rows {
            self.width()
        } else {
            self.height()
        };
        let (_, starcount) = self.scan_line(by_rows, index);
        if starcount == 2 {
            proof {
                lemma_count_stars_bound(self@.line(by_rows, index as int));
            }
            self.shade_span(by_rows, index, 0, len - 1);
        }
    }

    /// Shades the blanks of every row or of every column that holds two
    /// stars.
    fn blackout_lines(&mut self, by_rows: bool)
        requires
            old(self)@.is_grid(),
        ensures
            final(self)@ == old(self)@.after_blackout_lines(by_rows),
    {
        let count = if by_rows {
            self.height()
        } else {
            self.width()
        };
        proof {
            assert(self@ =~~= old(self)@.after_blackout_lines_upto(by_rows, 0));
        }
        for index in 0..count
            invariant
                old(self)@.is_grid(),
                count == old(self)@.line_count(by_rows),
                self@ == old(self)@.after_blackout_lines_upto(by_rows, index as int),
        {
            proof {
                assert(self@.line(by_rows, index as int) =~= old(self)@.line(
                    by_rows,
                    index as int,
                ));
            }
            self.blackout_line(by_rows, index);
            proof {
                assert(self@ =~~= old(self)@.after_blackout_lines_upto(by_rows, index + 1));
            }
        }
    }

    /// Shades the blanks of every row that holds two stars.
    pub fn blackout_rows(&mut self)
        requires
            old(self)@.is_grid(),
        ensures
            final(self)@ == old(self)@.after_blackout_lines(true),
            old(self)@.shades_to(final(self)@),
            old(self)@.wf() ==> final(self)@.wf(),
    {
        self.blackout_lines(true);
        proof {
            lemma_blackout_lines_shades(old(self)@, true);
            lemma_step_keeps_wf(old(self)@, self@);
        }
    }

    /// Shades the blanks of every column that holds two stars.
    pub fn blackout_cols(&mut self)
        requires
            old(self)@.is_grid(),
        ensures
            final(self)@ == old(self)@.after_blackout_lines(false),
            old(self)@.shades_to(final(self)@),
            old(self)@.wf() ==> final(self)@.wf(),
    {
        self.blackout_lines(false);
        proof {
            lemma_blackout_lines_shades(old(self)@, false);
            lemma_step_keeps_wf(old(self)@, self@);
        }
    }

    /// Shades the blanks of every region whose list holds two stars.
    pub fn blackout_regions(&mut self)
        requires
            old(self)@.wf(),
        ensures
            final(self)@ == old(self)@.after_blackout_regions(),
            old(self)@.shades_to(final(self)@),
            final(self)@.wf(),
    {
        proof {
            lemma_blackout_regions_shades(old(self)@);
            lemma_step_keeps_wf(old(self)@, old(self)@.after_blackout_regions());
        }
        let count = self.region_count();
        proof {
            assert(self@ =~~= old(self)@.after_blackout_regions_upto(0));
        }
        for index in 0..count
            invariant
                old(self)@.wf(),
                count == old(self)@.regions.len(),
                self@ == old(self)@.after_blackout_regions_upto(index as int),
        {
            let region = self.region_snapshot(index);
            proof {
                lemma_region_on_board(old(self)@, index as int);
                assert(old(self)@.region_in_order(index as int));
                assert(states_along(self@.states, region@) =~= old(self)@.region_states(
                    index as int,
                ));
            }
            let ghost before = self@;
            if self.regional_stars(region.as_slice()) == 2 {
                self.shade_cells(region.as_slice());
                proof {
                    let start = old(self)@;
                    let goal = start.after_blackout_regions_upto(index + 1);
                    assert forall|r: int, c: int| start.has_cell(r, c) implies (
                    #[trigger] self@.states[r][c]) == goal.states[r][c] by {
                        let p = (r as usize, c as usize);
                        if region@.contains(p) {
                            let k = choose|k: int| 0 <= k < region@.len() && region@[k] == p;
                            assert(start.region_of(region@[k].0 as int, region@[k].1 as int)
                                == index);
                        } else if start.region_of(r, c) == index {
                            assert(start.listed(r, c) == region@.contains(p));
                        }
                    }
                    assert(self@ =~~= goal);
                }
            } else {
                proof {
                    assert(self@ =~~= old(self)@.after_blackout_regions_upto(index + 1));
                }
            }
        }
    }
}

} // verus!
