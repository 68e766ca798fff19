//! Forced placement in a region: where the blanks left in a region leave
//! only one way to reach two stars, the stars are placed. Every star placed
//! is followed by a run of the shading rules, so that the next decision
//! sees what the star rules out.

use crate::board::Board;
use crate::cell::CellState;
use crate::checks::lemma_star_placed_apart;
use crate::enforce::lemma_enforcement;
use crate::errors::InvariantViolation;
use crate::evolution::{
    lemma_advances_trans, lemma_evolution_keeps_wf, lemma_evolves_refl, lemma_states_advance,
};
use crate::geometry::king_adjacent;
use crate::model::{blank_cells, count_stars, states_along, BoardView, Coords};
use crate::outcome::Outcome;
use crate::regions::all_on_board;
use crate::snapshot::rows_of;
use vstd::prelude::*;

verus! {

/// Two coordinates are king-neighbours.
pub open spec fn touching(p: (usize, usize), q: (usize, usize)) -> bool {
    king_adjacent(p.0 as int, p.1 as int, q.0 as int, q.1 as int)
}

impl BoardView {
    /// A star is put in `(r, c)`. If it stands beside a star, the run ends
    /// there; otherwise the shading rules are enforced.
    pub open spec fn after_add_star(self, r: int, c: int) -> Outcome {
        let placed = self.star(r, c);
        if placed.star_beside_star(r, c) {
            Outcome {
                board: placed,
                violation: Some(
                    InvariantViolation::AdjacentStars { row: r as usize, col: c as usize },
                ),
            }
        } else {
            Outcome::fine(placed.after_enforcement())
        }
    }

    /// Stars are added in the first `n` cells of `list`, one after the
    /// other, as long as nothing stops the run.
    pub open spec fn after_add_stars(self, list: Coords, n: nat) -> Outcome
        decreases n,
    {
        if n == 0 {
            Outcome::fine(self)
        } else {
            let before = self.after_add_stars(list, (n - 1) as nat);
            if before.violation is Some {
                before
            } else {
                before.board.after_add_star(list[n - 1].0 as int, list[n - 1].1 as int)
            }
        }
    }

    /// The forced stars of a region with the cells `list` are added.
    ///
    /// Without a star and with at most two blanks left, and with one star
    /// and one blank left, a star is added in every cell of the list.
    /// Without a star and with three blanks left, of which two are
    /// king-neighbours, a star is added in the third: the pairs are tried
    /// in the order first and second, second and third, first and third.
    pub open spec fn after_required_stars_of_region(self, list: Coords) -> Outcome {
        let b = blank_cells(self.states, list);
        let stars = count_stars(states_along(self.states, list));
        if stars == 0 && b.len() <= 2 {
            self.after_add_stars(list, list.len())
        } else if stars == 0 && b.len() == 3 {
            if touching(b[0], b[1]) {
                self.after_add_star(b[2].0 as int, b[2].1 as int)
            } else if touching(b[1], b[2]) {
                self.after_add_star(b[0].0 as int, b[0].1 as int)
            } else if touching(b[0], b[2]) {
                self.after_add_star(b[1].0 as int, b[1].1 as int)
            } else {
                Outcome::fine(self)
            }
        } else if stars == 1 && b.len() == 1 {
            self.after_add_stars(list, list.len())
        } else {
            Outcome::fine(self)
        }
    }

    /// The forced stars of the first `n` of the regions `lists` are added,
    /// one region after the other, as long as nothing stops the run.
    pub open spec fn after_required_stars_of_regions(self, lists: Seq<Coords>, n: nat) -> Outcome
        decreases n,
    {
        if n == 0 {
            Outcome::fine(self)
        } else {
            let before = self.after_required_stars_of_regions(lists, (n - 1) as nat);
            if before.violation is Some {
                before
            } else {
                before.board.after_required_stars_of_region(lists[n - 1])
            }
        }
    }

    /// The forced stars of every region are added, by ascending tag. The
    /// regions are taken with the cells that their lists hold at the start.
    pub open spec fn after_required_stars_region(self) -> Outcome {
        self.after_required_stars_of_regions(self.regions, self.regions.len())
    }
}

/// The blank cells of a list are cells of the list.
pub proof fn lemma_blank_cells_on_board(v: BoardView, list: Coords)
    requires
        all_on_board(v, list),
    ensures
        all_on_board(v, blank_cells(v.states, list)),
    decreases list.len(),
{
    if list.len() > 0 {
        let front = list.drop_last();
        assert forall|i: int| 0 <= i < front.len() implies v.has_cell(
            (#[trigger] front[i]).0 as int,
            front[i].1 as int,
        ) by {
            assert(front[i] == list[i]);
        }
        lemma_blank_cells_on_board(v, front);
        let last = list[list.len() - 1];
        assert(v.has_cell(last.0 as int, last.1 as int));
    }
}

impl Board {
    /// Puts a star in `(row, col)` and enforces the shading rules. If the
    /// star stands beside another, the board is left with the star placed
    /// and the rules are not enforced.
    pub fn add_star_coords(&mut self, row: usize, col: usize) -> (result: Result<
        (),
        InvariantViolation,
    >)
        requires
            old(self)@.wf(),
            old(self)@.stars_apart(),
            old(self)@.has_cell(row as int, col as int),
        ensures
            final(self)@ == old(self)@.after_add_star(row as int, col as int).board,
            result == old(self)@.after_add_star(row as int, col as int).verdict(),
            final(self)@.wf(),
            old(self)@.advances_to(final(self)@),
            result is Ok ==> final(self)@.stars_apart() && final(self)@.regions_exact(),
    {
        self.star_coords(row, col);
        proof {
            lemma_evolution_keeps_wf(old(self)@, self@);
            lemma_states_advance(old(self)@, self@);
        }
        if self.state(row, col) == CellState::Star && self.has_star_neighbour(row, col) {
            return Err(InvariantViolation::AdjacentStars { row, col });
        }
        proof {
            lemma_star_placed_apart(old(self)@, row as int, col as int);
            lemma_enforcement(self@);
            lemma_advances_trans(old(self)@, self@, self@.after_enforcement());
        }
        self.enforce_rules();
        Ok(())
    }

    /// Adds a star in every cell of `list`, one after the other, and stops
    /// at the first that stands beside a star.
    fn add_stars(&mut self, list: &Vec<(usize, usize)>) -> (result: Result<(), InvariantViolation>)
        requires
            old(self)@.wf(),
            old(self)@.stars_apart(),
            all_on_board(old(self)@, list@),
        ensures
            final(self)@ == old(self)@.after_add_stars(list@, list@.len()).board,
            result == old(self)@.after_add_stars(list@, list@.len()).verdict(),
            final(self)@.wf(),
            old(self)@.advances_to(final(self)@),
            result is Ok ==> final(self)@.stars_apart(),
            result is Ok && old(self)@.regions_exact() ==> final(self)@.regions_exact(),
    {
        proof {
            lemma_evolves_refl(self@);
        }
        let mut i: usize = 0;
        while i < list.len()
            invariant
                i <= list.len(),
                all_on_board(old(self)@, list@),
                self@.wf(),
                self@.stars_apart(),
                old(self)@.advances_to(self@),
                old(self)@.regions_exact() ==> self@.regions_exact(),
                old(self)@.after_add_stars(list@, i as nat) == Outcome::fine(self@),
            decreases list.len() - i,
        {
            let (row, col) = list[i];
            let ghost before = self@;
            let result = self.add_star_coords(row, col);
            proof {
                lemma_advances_trans(old(self)@, before, self@);
                assert(old(self)@.after_add_stars(list@, (i + 1) as nat) == before.after_add_star(
                    row as int,
                    col as int,
                ));
            }
            if let Err(violation) = result {
                proof {
                    lemma_add_stars_stop(old(self)@, list@, (i + 1) as nat, list@.len());
                }
                return Err(violation);
            }
            i = i + 1;
        }
        Ok(())
    }

    /// The blank cells of `list`, in its order.
    fn blanks_among(&self, list: &Vec<(usize, usize)>) -> (blanks: Vec<(usize, usize)>)
        requires
            self@.is_grid(),
            all_on_board(self@, list@),
        ensures
            blanks@ == blank_cells(self@.states, list@),
    {
        let mut blanks: Vec<(usize, usize)> = Vec::new();
        let mut i: usize = 0;
        while i < list.len()
            invariant
                self@.is_grid(),
                all_on_board(self@, list@),
                i <= list.len(),
                blanks@ == blank_cells(self@.states, list@.take(i as int)),
            decreases list.len() - i,
        {
            let (row, col) = list[i];
            proof {
                assert(list@.take(i + 1).drop_last() == list@.take(i as int));
                assert(list@.take(i + 1).last() == (row, col));
            }
            if self.state(row, col) == CellState::Blank {
                blanks.push((row, col));
            }
            i = i + 1;
        }
        proof {
            assert(list@.take(list.len() as int) == list@);
        }
        blanks
    }

    /// Whether `q` is among the king-neighbours of `p` on this board.
    fn touches(&self, p: (usize, usize), q: (usize, usize)) -> (yes: bool)
        requires
            self@.has_cell(p.0 as int, p.1 as int),
            self@.has_cell(q.0 as int, q.1 as int),
        ensures
            yes == touching(p, q),
    {
        let around = self.adjacencies(p.0, p.1);
        let mut i: usize = 0;
        while i < around.len()
            invariant
                i <= around.len(),
                self@.has_cell(p.0 as int, p.1 as int),
                self@.has_cell(q.0 as int, q.1 as int),
                forall|r: usize, c: usize|
                    #[trigger] around@.contains((r, c)) <==> self@.has_cell(p.0 as int, p.1 as int)
                        && self@.has_cell(r as int, c as int) && king_adjacent(
                        p.0 as int,
                        p.1 as int,
                        r as int,
                        c as int,
                    ),
                forall|k: int| 0 <= k < i ==> around@[k] != q,
            decreases around.len() - i,
        {
            if around[i].0 == q.0 && around[i].1 == q.1 {
                proof {
                    assert(around@[i as int] == (q.0, q.1));
                    assert(around@.contains((q.0, q.1)));
                }
                return true;
            }
            i = i + 1;
        }
        proof {
            assert(!around@.contains((q.0, q.1)));
        }
        false
    }

    /// Adds the forced stars of the region whose cells `list` names.
    pub fn add_required_stars_of_region(&mut self, list: &Vec<(usize, usize)>) -> (result: Result<
        (),
        InvariantViolation,
    >)
        requires
            old(self)@.wf(),
            old(self)@.stars_apart(),
            all_on_board(old(self)@, list@),
        ensures
            final(self)@ == old(self)@.after_required_stars_of_region(list@).board,
            result == old(self)@.after_required_stars_of_region(list@).verdict(),
            final(self)@.wf(),
            old(self)@.advances_to(final(self)@),
            result is Ok ==> final(self)@.stars_apart(),
            result is Ok && old(self)@.regions_exact() ==> final(self)@.regions_exact(),
    {
        proof {
            lemma_evolves_refl(self@);
            lemma_blank_cells_on_board(self@, list@);
        }
        let blanks = self.blanks_among(list);
        let starcount = self.regional_stars(list.as_slice());
        let count = blanks.len();
        if starcount == 0 {
            if count <= 2 {
                return self.add_stars(list);
            } else if count == 3 {
                if self.touches(blanks[0], blanks[1]) {
                    return self.add_star_coords(blanks[2].0, blanks[2].1);
                } else if self.touches(blanks[1], blanks[2]) {
                    return self.add_star_coords(blanks[0].0, blanks[0].1);
                } else if self.touches(blanks[0], blanks[2]) {
                    return self.add_star_coords(blanks[1].0, blanks[1].1);
                }
            }
        } else if starcount == 1 && count == 1 {
            return self.add_stars(list);
        }
        Ok(())
    }

    /// Adds the forced stars of every region, by ascending tag, and stops
    /// at the first star that stands beside a star.
    pub fn add_required_stars_region(&mut self) -> (result: Result<(), InvariantViolation>)
        requires
            old(self)@.wf(),
            old(self)@.stars_apart(),
        ensures
            final(self)@ == old(self)@.after_required_stars_region().board,
            result == old(self)@.after_required_stars_region().verdict(),
            final(self)@.wf(),
            old(self)@.advances_to(final(self)@),
            result is Ok ==> final(self)@.stars_apart(),
            result is Ok && old(self)@.regions_exact() ==> final(self)@.regions_exact(),
    {
        proof {
            lemma_evolves_refl(self@);
        }
        let lists = self.regions_snapshot();
        let mut index: usize = 0;
        while index < lists.len()
            invariant
                index <= lists.len(),
                rows_of(lists@) == old(self)@.regions,
                old(self)@.wf(),
                self@.wf(),
                self@.stars_apart(),
                old(self)@.advances_to(self@),
                old(self)@.regions_exact() ==> self@.regions_exact(),
                old(self)@.after_required_stars_of_regions(old(self)@.regions, index as nat)
                    == Outcome::fine(self@),
            decreases lists.len() - index,
        {
            let ghost before = self@;
            proof {
                assert(rows_of(lists@)[index as int] == lists@[index as int]@);
                assert(old(self)@.region_in_order(index as int));
            }
            let result = self.add_required_stars_of_region(&lists[index]);
            proof {
                lemma_advances_trans(old(self)@, before, self@);
            }
            if let Err(violation) = result {
                proof {
                    lemma_required_stars_stop(
                        old(self)@,
                        old(self)@.regions,
                        (index + 1) as nat,
                        old(self)@.regions.len(),
                    );
                }
                return Err(violation);
            }
            index = index + 1;
        }
        Ok(())
    }
}

/// Adding a star gives a later stage of the board: the same board or one
/// with less left to decide.
pub proof fn lemma_add_star_advances(v: BoardView, r: int, c: int)
    requires
        v.wf(),
        v.stars_apart(),
        v.has_cell(r, c),
    ensures
        v.after_add_star(r, c).board.wf(),
        v.advances_to(v.after_add_star(r, c).board),
        v.after_add_star(r, c).violation is None ==> v.after_add_star(r, c).board.stars_apart(),
{
    let placed = v.star(r, c);
    lemma_evolution_keeps_wf(v, placed);
    lemma_states_advance(v, placed);
    if !placed.star_beside_star(r, c) {
        lemma_star_placed_apart(v, r, c);
        lemma_enforcement(placed);
        lemma_advances_trans(v, placed, placed.after_enforcement());
    }
}

/// Adding stars along a list gives a later stage of the board.
pub proof fn lemma_add_stars_advance(v: BoardView, list: Coords, n: nat)
    requires
        v.wf(),
        v.stars_apart(),
        all_on_board(v, list),
        n <= list.len(),
    ensures
        v.after_add_stars(list, n).board.wf(),
        v.advances_to(v.after_add_stars(list, n).board),
        v.after_add_stars(list, n).violation is None ==> v.after_add_stars(
            list,
            n,
        ).board.stars_apart(),
    decreases n,
{
    if n == 0 {
        lemma_evolves_refl(v);
    } else {
        let before = v.after_add_stars(list, (n - 1) as nat);
        lemma_add_stars_advance(v, list, (n - 1) as nat);
        if before.violation is None {
            let p = list[n - 1];
            assert(v.has_cell(p.0 as int, p.1 as int));
            lemma_add_star_advances(before.board, p.0 as int, p.1 as int);
            lemma_advances_trans(
                v,
                before.board,
                before.board.after_add_star(p.0 as int, p.1 as int).board,
            );
        }
    }
}

/// Adding the forced stars of one region gives a later stage of the board.
pub proof fn lemma_required_stars_of_region_advances(v: BoardView, list: Coords)
    requires
        v.wf(),
        v.stars_apart(),
        all_on_board(v, list),
    ensures
        v.after_required_stars_of_region(list).board.wf(),
        v.advances_to(v.after_required_stars_of_region(list).board),
        v.after_required_stars_of_region(list).violation is None
            ==> v.after_required_stars_of_region(list).board.stars_apart(),
{
    lemma_evolves_refl(v);
    lemma_add_stars_advance(v, list, list.len());
    lemma_blank_cells_on_board(v, list);
    let b = blank_cells(v.states, list);
    if b.len() == 3 {
        assert(v.has_cell(b[0].0 as int, b[0].1 as int));
        assert(v.has_cell(b[1].0 as int, b[1].1 as int));
        assert(v.has_cell(b[2].0 as int, b[2].1 as int));
        lemma_add_star_advances(v, b[0].0 as int, b[0].1 as int);
        lemma_add_star_advances(v, b[1].0 as int, b[1].1 as int);
        lemma_add_star_advances(v, b[2].0 as int, b[2].1 as int);
    }
}

/// Adding the forced stars of the first `n` regions gives a later stage of
/// the board.
pub proof fn lemma_required_stars_of_regions_advance(v: BoardView, lists: Seq<Coords>, n: nat)
    requires
        v.wf(),
        v.stars_apart(),
        n <= lists.len(),
        forall|t: int| 0 <= t < lists.len() ==> all_on_board(v, #[trigger] lists[t]),
    ensures
        v.after_required_stars_of_regions(lists, n).board.wf(),
        v.advances_to(v.after_required_stars_of_regions(lists, n).board),
        v.after_required_stars_of_regions(lists, n).violation is None
            ==> v.after_required_stars_of_regions(lists, n).board.stars_apart(),
    decreases n,
{
    if n == 0 {
        lemma_evolves_refl(v);
    } else {
        let before = v.after_required_stars_of_regions(lists, (n - 1) as nat);
        lemma_required_stars_of_regions_advance(v, lists, (n - 1) as nat);
        if before.violation is None {
            assert(all_on_board(v, lists[n - 1]));
            assert(all_on_board(before.board, lists[n - 1]));
            lemma_required_stars_of_region_advances(before.board, lists[n - 1]);
            lemma_advances_trans(
                v,
                before.board,
                before.board.after_required_stars_of_region(lists[n - 1]).board,
            );
        }
    }
}

/// Adding the forced stars of all regions gives a later stage of the
/// board: the same board or one with less left to decide.
pub proof fn lemma_required_stars_region_advances(v: BoardView)
    requires
        v.wf(),
        v.stars_apart(),
    ensures
        v.after_required_stars_region().board.wf(),
        v.advances_to(v.after_required_stars_region().board),
        v.after_required_stars_region().violation is None
            ==> v.after_required_stars_region().board.stars_apart(),
{
    assert forall|t: int| 0 <= t < v.regions.len() implies all_on_board(
        v,
        #[trigger] v.regions[t],
    ) by {
        assert(v.region_in_order(t));
    }
    lemma_required_stars_of_regions_advance(v, v.regions, v.regions.len());
}

/// Once a star stands beside a star, adding stars in further cells changes
/// nothing.
pub proof fn lemma_add_stars_stop(v: BoardView, list: Coords, n: nat, m: nat)
    requires
        n <= m,
        v.after_add_stars(list, n).violation is Some,
    ensures
        v.after_add_stars(list, m) == v.after_add_stars(list, n),
    decreases m,
{
    if n < m {
        lemma_add_stars_stop(v, list, n, (m - 1) as nat);
    }
}

/// Once a star stands beside a star, the further regions change nothing.
pub proof fn lemma_required_stars_stop(v: BoardView, lists: Seq<Coords>, n: nat, m: nat)
    requires
        n <= m,
        v.after_required_stars_of_regions(lists, n).violation is Some,
    ensures
        v.after_required_stars_of_regions(lists, m) == v.after_required_stars_of_regions(lists, n),
    decreases m,
{
    if n < m {
        lemma_required_stars_stop(v, lists, n, (m - 1) as nat);
    }
}

} // verus!
