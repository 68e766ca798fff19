//! Small-region middle elimination: a region without a star whose cells fit
//! a box of at most six cells can hold its two stars only at the two ends of
//! the box, so the band through its middle and the bands just outside its
//! two ends are shaded.

use crate::board::Board;
use crate::evolution::{lemma_evolution_keeps_wf, lemma_shades_trans};
use crate::model::{count_blanks, count_stars, grid_from, BoardView, Coords};
use crate::regions::{lemma_counts_bound, lemma_region_on_board};
use vstd::prelude::*;

verus! {

/// The row of a coordinate if `rows`, its column otherwise.
pub open spec fn ordinate(p: (usize, usize), rows: bool) -> int {
    if rows {
        p.0 as int
    } else {
        p.1 as int
    }
}

/// The least row (or column) among the coordinates of a list that is not
/// empty.
pub open spec fn least(list: Coords, rows: bool) -> int
    decreases list.len(),
{
    if list.len() <= 1 {
        ordinate(list[0], rows)
    } else {
        let rest = least(list.drop_last(), rows);
        if ordinate(list.last(), rows) < rest {
            ordinate(list.last(), rows)
        } else {
            rest
        }
    }
}

/// The greatest row (or column) among the coordinates of a list that is not
/// empty.
pub open spec fn greatest(list: Coords, rows: bool) -> int
    decreases list.len(),
{
    if list.len() <= 1 {
        ordinate(list[0], rows)
    } else {
        let rest = greatest(list.drop_last(), rows);
        if ordinate(list.last(), rows) > rest {
            ordinate(list.last(), rows)
        } else {
            rest
        }
    }
}

/// Whether cell `(r, c)` lies in a band that the rule shades for a region
/// with the coordinates `list`.
///
/// Let the bounding box of `list` be `h` rows high and `w` columns wide. The
/// rule acts if `h <= 3`, `w <= 3` and `h * w <= 6`. If `w <= h`, it shades,
/// over the columns of the box, the row before the last row of the box, the
/// row above the box and the row below it; otherwise, over the rows of the
/// box, the column before its last column, the column left of the box and
/// the column right of it.
pub open spec fn in_middle_band(list: Coords, r: int, c: int) -> bool {
    let top = least(list, true);
    let bottom = greatest(list, true);
    let left = least(list, false);
    let right = greatest(list, false);
    let h = bottom - top + 1;
    let w = right - left + 1;
    &&& h <= 3
    &&& w <= 3
    &&& h * w <= 6
    &&& if w <= h {
        left <= c <= right && (r == bottom - 1 || r == top - 1 || r == bottom + 1)
    } else {
        top <= r <= bottom && (c == right - 1 || c == left - 1 || c == right + 1)
    }
}

impl BoardView {
    /// Whether the rule acts on region `t`: its list holds no star and more
    /// than two blank cells.
    pub open spec fn middle_applies(self, t: int) -> bool {
        count_stars(self.region_states(t)) == 0 && count_blanks(self.region_states(t)) > 2
    }

    /// The board after the rule was applied to region `t`.
    pub open spec fn after_middle_of_region(self, t: int) -> BoardView {
        if self.middle_applies(t) {
            self.with_states(
                grid_from(
                    self.height,
                    self.width,
                    |r: int, c: int|
                        if in_middle_band(self.regions[t], r, c) {
                            self.state(r, c).shaded()
                        } else {
                            self.state(r, c)
                        },
                ),
            )
        } else {
            self
        }
    }

    /// The board after the rule was applied to regions `0..n`, one after the
    /// other: each region is counted as the regions before it left it.
    pub open spec fn after_middle_of_regions(self, n: nat) -> BoardView
        decreases n,
    {
        if n == 0 {
            self
        } else {
            self.after_middle_of_regions((n - 1) as nat).after_middle_of_region(n - 1)
        }
    }

    /// The board after the rule was applied to every region, by ascending
    /// tag.
    pub open spec fn after_middle_elimination(self) -> BoardView {
        self.after_middle_of_regions(self.regions.len())
    }
}

/// Every coordinate of a list lies between the least and the greatest.
pub proof fn lemma_bounds(list: Coords, rows: bool)
    ensures
        forall|i: int|
            0 <= i < list.len() ==> least(list, rows) <= ordinate(#[trigger] list[i], rows)
                <= greatest(list, rows),
        list.len() > 0 ==> exists|i: int|
            0 <= i < list.len() && ordinate(#[trigger] list[i], rows) == least(list, rows),
        list.len() > 0 ==> exists|i: int|
            0 <= i < list.len() && ordinate(#[trigger] list[i], rows) == greatest(list, rows),
    decreases list.len(),
{
    if list.len() > 1 {
        let front = list.drop_last();
        lemma_bounds(front, rows);
        assert forall|i: int| 0 <= i < list.len() implies least(list, rows) <= ordinate(
            #[trigger] list[i],
            rows,
        ) <= greatest(list, rows) by {
            if i < front.len() {
                assert(front[i] == list[i]);
            }
        }
        let a = choose|i: int|
            0 <= i < front.len() && ordinate(#[trigger] front[i], rows) == least(front, rows);
        assert(list[a] == front[a]);
        let b = choose|i: int|
            0 <= i < front.len() && ordinate(#[trigger] front[i], rows) == greatest(front, rows);
        assert(list[b] == front[b]);
        let last = list.len() - 1;
        assert(ordinate(list[last], rows) == ordinate(list.last(), rows));
    } else if list.len() == 1 {
        assert(ordinate(list[0], rows) == least(list, rows));
    }
}

/// Applied to one region, the rule only shades.
pub proof fn lemma_middle_of_region_shades(v: BoardView, t: int)
    requires
        v.is_grid(),
    ensures
        v.shades_to(v.after_middle_of_region(t)),
        v.after_middle_of_region(t).regions == v.regions,
        v.after_middle_of_region(t).is_grid(),
{
}

/// Applied to the first `n` regions, the rule only shades.
pub proof fn lemma_middle_of_regions_shades(v: BoardView, n: nat)
    requires
        v.is_grid(),
    ensures
        v.shades_to(v.after_middle_of_regions(n)),
        v.after_middle_of_regions(n).regions == v.regions,
        v.after_middle_of_regions(n).is_grid(),
    decreases n,
{
    if n > 0 {
        let mid = v.after_middle_of_regions((n - 1) as nat);
        lemma_middle_of_regions_shades(v, (n - 1) as nat);
        lemma_middle_of_region_shades(mid, n - 1);
        lemma_shades_trans(v, mid, mid.after_middle_of_region(n - 1));
    }
}

/// A region with at most two listed cells is left alone.
pub proof fn lemma_middle_skips_small_regions(v: BoardView, t: int)
    requires
        0 <= t < v.regions.len(),
        v.regions[t].len() <= 2,
    ensures
        v.after_middle_of_region(t) == v,
{
    lemma_counts_bound(v.region_states(t));
}

impl Board {
    /// The least and the greatest row, then the least and the greatest
    /// column, among the coordinates of a list that is not empty.
    fn bounding_box(region: &[(usize, usize)]) -> (bounds: (usize, usize, usize, usize))
        requires
            region@.len() > 0,
        ensures
            bounds.0 == least(region@, true),
            bounds.1 == greatest(region@, true),
            bounds.2 == least(region@, false),
            bounds.3 == greatest(region@, false),
    {
        let mut min_row = usize::MAX;
        let mut max_row = usize::MIN;
        let mut min_col = usize::MAX;
        let mut max_col = usize::MIN;
        let mut i: usize = 0;
        while i < region.len()
            invariant
                i <= region.len(),
                i == 0 ==> min_row == usize::MAX && max_row == 0 && min_col == usize::MAX
                    && max_col == 0,
                i > 0 ==> min_row == least(region@.take(i as int), true),
                i > 0 ==> max_row == greatest(region@.take(i as int), true),
                i > 0 ==> min_col == least(region@.take(i as int), false),
                i > 0 ==> max_col == greatest(region@.take(i as int), false),
            decreases region.len() - i,
        {
            let (row, col) = region[i];
            proof {
                assert(region@.take(i + 1).drop_last() == region@.take(i as int));
                assert(region@.take(i + 1).last() == (row, col));
            }
            if row < min_row {
                min_row = row;
            }
            if col < min_col {
                min_col = col;
            }
            if row > max_row {
                max_row = row;
            }
            if col > max_col {
                max_col = col;
            }
            i = i + 1;
        }
        proof {
            assert(region@.take(region.len() as int) == region@);
        }
        (min_row, max_row, min_col, max_col)
    }

    /// Applies the rule to the region whose list has the given index.
    pub fn eliminate_middle_of_region(&mut self, index: usize)
        requires
            old(self)@.wf(),
            index < old(self)@.regions.len(),
        ensures
            final(self)@ == old(self)@.after_middle_of_region(index as int),
            old(self)@.shades_to(final(self)@),
            final(self)@.wf(),
    {
        proof {
            lemma_middle_of_region_shades(old(self)@, index as int);
            lemma_evolution_keeps_wf(old(self)@, old(self)@.after_middle_of_region(index as int));
        }
        let region = self.region_snapshot(index);
        let board_width = self.width();
        let board_height = self.height();
        proof {
            lemma_region_on_board(self@, index as int);
            lemma_counts_bound(self@.region_states(index as int));
        }
        let starcount = self.regional_stars(region.as_slice());
        let blanks = self.regional_blanks(region.as_slice());
        if blanks <= 2 || starcount != 0 {
            return ;
        }
        let (min_row, max_row, min_col, max_col) = Self::bounding_box(region.as_slice());
        proof {
            lemma_bounds(region@, true);
            lemma_bounds(region@, false);
            assert(self@.region_in_order(index as int));
            // two different cells of the list lie in the box
            assert(self@.has_cell(region@[0].0 as int, region@[0].1 as int));
            assert(self@.has_cell(region@[1].0 as int, region@[1].1 as int));
        }
        let width = max_col - min_col + 1;
        let height = max_row - min_row + 1;
        if width <= 3 && height <= 3 {
            assert(width * height <= 9) by (nonlinear_arith)
                requires
                    width <= 3,
                    height <= 3,
            ;
            if width * height <= 6 {
                if width <= height {
                    let mid_row = max_row - 1;
                    self.shade_span(true, mid_row, min_col, max_col);
                    if min_row != 0 {
                        self.shade_span(true, min_row - 1, min_col, max_col);
                    }
                    if max_row < board_height - 1 {
                        self.shade_span(true, max_row + 1, min_col, max_col);
                    }
                } else {
                    let mid_col = max_col - 1;
                    self.shade_span(false, mid_col, min_row, max_row);
                    if min_col != 0 {
                        self.shade_span(false, min_col - 1, min_row, max_row);
                    }
                    if max_col < board_width - 1 {
                        self.shade_span(false, max_col + 1, min_row, max_row);
                    }
                }
            }
        }
        proof {
            assert(height * width == width * height) by (nonlinear_arith);
            assert(self@ =~~= old(self)@.after_middle_of_region(index as int));
        }
    }

    /// Applies the rule to every region, in the order of the region lists.
    pub fn eliminate_middle_of_small_empty_regions(&mut self)
        requires
            old(self)@.wf(),
        ensures
            final(self)@ == old(self)@.after_middle_elimination(),
            old(self)@.shades_to(final(self)@),
            final(self)@.wf(),
    {
        proof {
            lemma_middle_of_regions_shades(old(self)@, old(self)@.regions.len());
        }
        let count = self.region_count();
        for index in 0..count
            invariant
                count == old(self)@.regions.len(),
                self@.wf(),
                self@.regions == old(self)@.regions,
                self@ == old(self)@.after_middle_of_regions(index as nat),
        {
            proof {
                lemma_middle_of_region_shades(self@, index as int);
                lemma_evolution_keeps_wf(self@, self@.after_middle_of_region(index as int));
            }
            self.eliminate_middle_of_region(index);
        }
    }
}

} // verus!
