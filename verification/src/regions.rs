//! Region lists: counting along a list, copying one, and dropping the filled
//! cells from all of them.

use crate::board::Board;
use crate::cell::CellState;
use crate::input::{lemma_rank_strict, tag_occurs};
use crate::model::{
    ascending, count_blanks, count_stars, live_cells, row_major_lt, states_along, total_len,
    BoardView, Coords, Grid,
};
use vstd::prelude::*;

verus! {

/// Every coordinate of `list` names a cell of the board.
pub open spec fn all_on_board(v: BoardView, list: Coords) -> bool {
    forall|i: int|
        0 <= i < list.len() ==> v.has_cell((#[trigger] list[i]).0 as int, list[i].1 as int)
}

/// The list of a region of a well-formed board names cells of the board.
pub proof fn lemma_region_on_board(v: BoardView, t: int)
    requires
        v.wf(),
        0 <= t < v.regions.len(),
    ensures
        all_on_board(v, v.regions[t]),
{
    assert(v.region_in_order(t));
}

/// On a well-formed board the region lists stand in ascending order of
/// their tags, and a list holds cells of one tag only.
pub proof fn lemma_lists_ascend_by_tag(v: BoardView)
    requires
        v.wf(),
    ensures
        v.lists_ascend_by_tag(),
{
    assert forall|t: int, i: int, u: int, j: int|
        0 <= t <= u < v.regions.len() && 0 <= i < v.regions[t].len() && 0 <= j
            < v.regions[u].len() implies {
        let p = #[trigger] v.regions[t][i];
        let q = #[trigger] v.regions[u][j];
        &&& t < u ==> v.tag(p.0 as int, p.1 as int) < v.tag(q.0 as int, q.1 as int)
        &&& t == u ==> v.tag(p.0 as int, p.1 as int) == v.tag(q.0 as int, q.1 as int)
    } by {
        let p = v.regions[t][i];
        let q = v.regions[u][j];
        assert(v.region_in_order(t));
        assert(v.region_in_order(u));
        assert(v.has_cell(p.0 as int, p.1 as int));
        assert(v.has_cell(q.0 as int, q.1 as int));
        let a = v.tag(p.0 as int, p.1 as int) as int;
        let b = v.tag(q.0 as int, q.1 as int) as int;
        assert(v.tags[p.0 as int][p.1 as int] == a);
        assert(v.tags[q.0 as int][q.1 as int] == b);
        assert(tag_occurs(v.tags, a));
        assert(tag_occurs(v.tags, b));
        if a < b {
            lemma_rank_strict(v.tags, a, b);
        } else if b < a {
            lemma_rank_strict(v.tags, b, a);
        }
    }
}

/// On a well-formed board whose lists hold no filled cell, the list of a
/// region is exactly the cells of its tag that are not filled, in row-major
/// order.
pub proof fn lemma_exact_regions(v: BoardView, t: int)
    requires
        v.wf(),
        v.regions_exact(),
        0 <= t < v.regions.len(),
    ensures
        ascending(v.regions[t]),
        forall|r: usize, c: usize|
            #[trigger] v.regions[t].contains((r, c)) <==> v.has_cell(r as int, c as int)
                && v.region_of(r as int, c as int) == t && !(v.state(r as int, c as int)
                is Filled),
{
    assert(v.region_in_order(t));
    assert forall|r: usize, c: usize|
        #[trigger] v.regions[t].contains((r, c)) <==> v.has_cell(r as int, c as int)
            && v.region_of(r as int, c as int) == t && !(v.state(r as int, c as int)
            is Filled) by {
        if v.regions[t].contains((r, c)) {
            let k = choose|k: int| 0 <= k < v.regions[t].len() && v.regions[t][k] == (r, c);
            assert(v.has_cell(v.regions[t][k].0 as int, v.regions[t][k].1 as int));
        }
        if v.has_cell(r as int, c as int) && v.region_of(r as int, c as int) == t && !(v.state(
            r as int,
            c as int,
        ) is Filled) {
            assert(v.listed(r as int, c as int));
        }
    }
}

/// The counts along a list are at most its length.
pub proof fn lemma_counts_bound(s: Seq<CellState>)
    ensures
        count_stars(s) + count_blanks(s) <= s.len(),
    decreases s.len(),
{
    if s.len() > 0 {
        lemma_counts_bound(s.drop_last());
    }
}

impl BoardView {
    /// The board after the filled cells were dropped from the lists of
    /// regions `0..n`.
    pub open spec fn after_regenerate_upto(self, n: int) -> BoardView {
        self.with_regions(
            Seq::new(
                self.regions.len(),
                |t: int|
                    if t < n {
                        live_cells(self.states, self.regions[t])
                    } else {
                        self.regions[t]
                    },
            ),
        )
    }

    /// The board after the filled cells were dropped from every region
    /// list; what stays keeps its order.
    pub open spec fn after_regenerate(self) -> BoardView {
        self.after_regenerate_upto(self.regions.len() as int)
    }
}

/// What `live_cells` keeps of a list: entries of the list that are not
/// filled, every such entry, in the order of the list; and the whole list if
/// nothing is dropped.
pub proof fn lemma_live_cells(g: Grid, list: Coords)
    ensures
        live_cells(g, list).len() <= list.len(),
        live_cells(g, list).len() == list.len() ==> live_cells(g, list) == list,
        forall|i: int|
            0 <= i < live_cells(g, list).len() ==> {
                let p = #[trigger] live_cells(g, list)[i];
                list.contains(p) && !(g[p.0 as int][p.1 as int] is Filled)
            },
        forall|j: int|
            0 <= j < list.len() && !(g[list[j].0 as int][list[j].1 as int] is Filled)
                ==> live_cells(g, list).contains(#[trigger] list[j]),
        ascending(list) ==> ascending(live_cells(g, list)),
    decreases list.len(),
{
    let live = live_cells(g, list);
    if list.len() > 0 {
        let front = list.drop_last();
        let last = list.last();
        let kept = live_cells(g, front);
        lemma_live_cells(g, front);
        assert(list =~= front.push(last));
        assert forall|i: int| 0 <= i < live.len() implies {
            let p = #[trigger] live[i];
            list.contains(p) && !(g[p.0 as int][p.1 as int] is Filled)
        } by {
            if i < kept.len() {
                let p = kept[i];
                let k = choose|k: int| 0 <= k < front.len() && front[k] == p;
                assert(list[k] == p);
            } else {
                assert(list[list.len() - 1] == live[i]);
            }
        }
        assert forall|j: int|
            0 <= j < list.len() && !(g[list[j].0 as int][list[j].1 as int] is Filled)
                implies live.contains(#[trigger] list[j]) by {
            if j < front.len() {
                assert(front[j] == list[j]);
                let k = choose|k: int| 0 <= k < kept.len() && kept[k] == front[j];
                assert(live[k] == list[j]);
            } else {
                assert(live[live.len() - 1] == list[j]);
            }
        }
        if ascending(list) {
            assert forall|i: int, j: int| 0 <= i < j < live.len() implies row_major_lt(
                (#[trigger] live[i]).0 as int,
                live[i].1 as int,
                (#[trigger] live[j]).0 as int,
                live[j].1 as int,
            ) by {
                if j < kept.len() {
                    assert(kept[i] == live[i] && kept[j] == live[j]);
                    assert(ascending(kept)) by {
                        assert forall|a: int, b: int|
                            0 <= a < b < front.len() implies row_major_lt(
                            (#[trigger] front[a]).0 as int,
                            front[a].1 as int,
                            (#[trigger] front[b]).0 as int,
                            front[b].1 as int,
                        ) by {
                            assert(front[a] == list[a] && front[b] == list[b]);
                        }
                    }
                } else {
                    let p = kept[i];
                    assert(live[i] == p);
                    let k = choose|k: int| 0 <= k < front.len() && front[k] == p;
                    assert(list[k] == p);
                    assert(list[list.len() - 1] == live[j]);
                }
            }
        }
    } else {
        assert(live =~= list);
    }
}

/// The summed length of lists that got no longer is no larger, and the same
/// only if every list has kept its length.
pub proof fn lemma_total_len_monotone(lists: Seq<Coords>, next: Seq<Coords>, n: nat)
    requires
        n <= lists.len(),
        next.len() == lists.len(),
        forall|t: int| 0 <= t < n ==> (#[trigger] next[t]).len() <= lists[t].len(),
    ensures
        total_len(next, n) <= total_len(lists, n),
        total_len(next, n) == total_len(lists, n) ==> forall|t: int|
            0 <= t < n ==> (#[trigger] next[t]).len() == lists[t].len(),
    decreases n,
{
    if n > 0 {
        lemma_total_len_monotone(lists, next, (n - 1) as nat);
        assert(next[n - 1].len() <= lists[n - 1].len());
    }
}

/// Dropping the filled cells from the lists keeps a board well formed and
/// leaves no filled cell in any list.
pub proof fn lemma_regenerate_keeps_wf(v: BoardView)
    requires
        v.wf(),
    ensures
        v.after_regenerate().wf(),
        v.after_regenerate().regions_exact(),
{
    let next = v.after_regenerate();
    assert forall|r: int, c: int| next.has_cell(r, c) implies (#[trigger] next.region_of(r, c))
        < next.regions.len() by {
        assert(v.region_of(r, c) < v.regions.len());
    }
    assert forall|t: int| 0 <= t < next.regions.len() implies #[trigger] next.region_in_order(
        t,
    ) by {
        assert(v.region_in_order(t));
        lemma_live_cells(v.states, v.regions[t]);
        let list = v.regions[t];
        let live = next.regions[t];
        assert forall|i: int| 0 <= i < live.len() implies {
            &&& next.has_cell((#[trigger] live[i]).0 as int, live[i].1 as int)
            &&& next.region_of(live[i].0 as int, live[i].1 as int) == t
        } by {
            let p = live[i];
            assert(list.contains(p));
            let k = choose|k: int| 0 <= k < list.len() && list[k] == p;
            assert(v.has_cell(list[k].0 as int, list[k].1 as int));
        }
    }
    assert forall|r: int, c: int|
        next.has_cell(r, c) && !(next.state(r, c) is Filled) implies #[trigger] next.listed(
        r,
        c,
    ) by {
        assert(v.listed(r, c));
        let t = v.region_of(r, c);
        lemma_live_cells(v.states, v.regions[t]);
        let p = (r as usize, c as usize);
        let k = choose|k: int| 0 <= k < v.regions[t].len() && v.regions[t][k] == p;
        assert(live_cells(v.states, v.regions[t]).contains(v.regions[t][k]));
    }
    assert forall|t: int, i: int|
        0 <= t < next.regions.len() && 0 <= i < next.regions[t].len() implies !(next.state(
        (#[trigger] next.regions[t][i]).0 as int,
        next.regions[t][i].1 as int,
    ) is Filled) by {
        lemma_live_cells(v.states, v.regions[t]);
    }
}

/// Dropping the filled cells from the lists gives the same board or one
/// with less left to decide.
pub proof fn lemma_regenerate_advances(v: BoardView)
    requires
        v.is_grid(),
    ensures
        v.advances_to(v.after_regenerate()),
{
    let next = v.after_regenerate();
    assert forall|t: int| 0 <= t < v.regions.len() implies (#[trigger] next.regions[t]).len()
        <= v.regions[t].len() by {
        lemma_live_cells(v.states, v.regions[t]);
    }
    lemma_total_len_monotone(v.regions, next.regions, v.regions.len());
    if next.measure() == v.measure() {
        assert forall|t: int| 0 <= t < v.regions.len() implies #[trigger] next.regions[t]
            == v.regions[t] by {
            lemma_live_cells(v.states, v.regions[t]);
        }
        assert(next.regions =~= v.regions);
        assert(next =~= v);
    }
}

impl Board {
    /// How many cells of `region` hold a star.
    pub fn regional_stars(&self, region: &[(usize, usize)]) -> (count: usize)
        requires
            self@.is_grid(),
            all_on_board(self@, region@),
        ensures
            count == count_stars(states_along(self@.states, region@)),
    {
        let ghost along = states_along(self@.states, region@);
        let mut count: usize = 0;
        let mut i: usize = 0;
        while i < region.len()
            invariant
                self@.is_grid(),
                all_on_board(self@, region@),
                along == states_along(self@.states, region@),
                i <= region.len(),
                count == count_stars(along.take(i as int)),
                count <= i,
            decreases region.len() - i,
        {
            let (row, col) = region[i];
            proof {
                assert(along.take(i + 1).drop_last() == along.take(i as int));
            }
            if self.state(row, col) == CellState::Star {
                count = count + 1;
            }
            i = i + 1;
        }
        proof {
            assert(along.take(region.len() as int) == along);
        }
        count
    }

    /// How many cells of `region` are blank.
    pub fn regional_blanks(&self, region: &[(usize, usize)]) -> (count: usize)
        requires
            self@.is_grid(),
            all_on_board(self@, region@),
        ensures
            count == count_blanks(states_along(self@.states, region@)),
    {
        let ghost along = states_along(self@.states, region@);
        let mut count: usize = 0;
        let mut i: usize = 0;
        while i < region.len()
            invariant
                self@.is_grid(),
                all_on_board(self@, region@),
                along == states_along(self@.states, region@),
                i <= region.len(),
                count == count_blanks(along.take(i as int)),
                count <= i,
            decreases region.len() - i,
        {
            let (row, col) = region[i];
            proof {
                assert(along.take(i + 1).drop_last() == along.take(i as int));
            }
            if self.state(row, col) == CellState::Blank {
                count = count + 1;
            }
            i = i + 1;
        }
        proof {
            assert(along.take(region.len() as int) == along);
        }
        count
    }

    /// Drops from every region list the cells that are filled; the cells
    /// that stay keep their order.
    pub fn regenerate_regions(&mut self)
        requires
            old(self)@.wf(),
        ensures
            final(self)@ == old(self)@.after_regenerate(),
            old(self)@.shades_to(final(self)@),
            final(self)@.wf(),
            final(self)@.regions_exact(),
    {
        proof {
            lemma_regenerate_keeps_wf(old(self)@);
            assert(old(self)@.shades_to(old(self)@.after_regenerate()));
        }
        let count = self.region_count();
        proof {
            assert(self@ =~~= old(self)@.after_regenerate_upto(0));
        }
        for index in 0..count
            invariant
                old(self)@.wf(),
                count == old(self)@.regions.len(),
                self@ == old(self)@.after_regenerate_upto(index as int),
        {
            let region = self.region_snapshot(index);
            proof {
                lemma_region_on_board(old(self)@, index as int);
            }
            let mut kept: Vec<(usize, usize)> = Vec::new();
            let mut i: usize = 0;
            while i < region.len()
                invariant
                    self@.is_grid(),
                    all_on_board(self@, region@),
                    i <= region.len(),
                    kept@ == live_cells(self@.states, region@.take(i as int)),
                decreases region.len() - i,
            {
                let (row, col) = region[i];
                proof {
                    assert(region@.take(i + 1).drop_last() == region@.take(i as int));
                    assert(region@.take(i + 1).last() == (row, col));
                }
                if self.state(row, col) != CellState::Filled {
                    kept.push((row, col));
                }
                i = i + 1;
            }
            proof {
                assert(region@.take(region.len() as int) == region@);
            }
            self.replace_region(index, kept);
            proof {
                assert(self@ =~~= old(self)@.after_regenerate_upto(index + 1));
            }
        }
    }

    /// A copy of the region list with the given index.
    pub fn region_snapshot(&self, index: usize) -> (list: Vec<(usize, usize)>)
        requires
            index < self@.regions.len(),
        ensures
            list@ == self@.regions[index as int],
    {
        let cells = self.region_cells(index);
        let mut list: Vec<(usize, usize)> = Vec::new();
        let mut i: usize = 0;
        while i < cells.len()
            invariant
                i <= cells.len(),
                list@ == cells@.take(i as int),
            decreases cells.len() - i,
        {
            list.push(cells[i]);
            proof {
                assert(cells@.take(i + 1) == cells@.take(i as int).push(cells@[i as int]));
            }
            i = i + 1;
        }
        proof {
            assert(cells@.take(cells.len() as int) == cells@);
        }
        list
    }
}

} // verus!
