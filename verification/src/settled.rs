//! What a board looks like when the rules have nothing left to do.

use crate::enforce::{lemma_enforcement, lemma_saturation};
use crate::evolution::{
    lemma_evolution_keeps_wf, lemma_evolves_trans, lemma_shading_step, lemma_states_advance,
};
use crate::model::BoardView;
use crate::outcome::Outcome;
use crate::regions::lemma_regenerate_keeps_wf;
use crate::rules::contiguity::lemma_contiguity_shades;
use crate::rules::middle::lemma_middle_of_regions_shades;
use crate::rules::placement::{forced_star, lemma_required_stars_evolve};
use crate::rules::region_placement::lemma_required_stars_region_advances;
use crate::rules::saturation::{lemma_blackout_lines_shades, lemma_blackout_regions_shades};
use crate::rules::star_adjacency::lemma_star_adjacencies_shades;
use vstd::prelude::*;

verus! {

impl BoardView {
    /// No blank cell lies in a row, in a column or in a region list that
    /// holds two stars.
    pub open spec fn no_blank_in_saturated_line(self) -> bool {
        forall|r: int, c: int|
            self.has_cell(r, c) && (#[trigger] self.state(r, c)) is Blank ==> {
                &&& !self.line_saturated(true, r)
                &&& !self.line_saturated(false, c)
                &&& !self.region_saturated(self.region_of(r, c))
            }
    }

    /// No blank cell has a star among its king-neighbours.
    pub open spec fn no_blank_beside_star(self) -> bool {
        forall|r: int, c: int|
            self.has_cell(r, c) && (#[trigger] self.state(r, c)) is Blank ==> !self.beside_star(
                r,
                c,
            )
    }

    /// No row and no column forces a star in one of its blank cells.
    pub open spec fn no_forced_star(self) -> bool {
        forall|r: int, c: int|
            self.has_cell(r, c) && (#[trigger] self.state(r, c)) is Blank ==> {
                &&& !forced_star(self.line(true, r), c)
                &&& !forced_star(self.line(false, c), r)
            }
    }

    /// The shading rules have nothing left to do: no blank cell lies in a
    /// saturated line or beside a star, the middle rule and the contiguity
    /// rule leave the board as it is, and the region lists hold no filled
    /// cell.
    pub open spec fn settled(self) -> bool {
        &&& self.no_blank_in_saturated_line()
        &&& self.no_blank_beside_star()
        &&& self.after_middle_elimination() == self
        &&& self.after_contiguity() == self
        &&& self.regions_exact()
    }
}

/// Two boards that are later stages of each other have the same cells.
pub proof fn lemma_evolution_both_ways(a: BoardView, b: BoardView)
    requires
        a.is_grid(),
        a.evolves_to(b),
        b.evolves_to(a),
    ensures
        a.states == b.states,
{
    assert forall|r: int, c: int| 0 <= r < a.height && 0 <= c < a.width implies (
    #[trigger] a.states[r][c]) == b.states[r][c] by {
        assert(a.state(r, c).may_become(b.state(r, c)));
        assert(b.state(r, c).may_become(a.state(r, c)));
    }
    assert(a.states =~~= b.states);
}

/// A well-formed board that a pass leaves as it is, is settled: every
/// single rule of the pass leaves it as it is.
pub proof fn lemma_unchanged_by_pass_is_settled(v: BoardView)
    requires
        v.wf(),
        v.after_pass() == v,
    ensures
        v.settled(),
        v.after_saturation() == v,
        v.after_star_adjacencies() == v,
        v.after_regenerate() == v,
{
    let rows = v.after_blackout_lines(true);
    let cols = rows.after_blackout_lines(false);
    let a = v.after_saturation();
    let b = a.after_star_adjacencies();
    let c = b.after_middle_elimination();
    let d = c.after_contiguity();
    let e = d.after_regenerate();
    lemma_saturation(v);
    lemma_blackout_lines_shades(v, true);
    lemma_blackout_lines_shades(rows, false);
    lemma_blackout_regions_shades(cols);
    lemma_star_adjacencies_shades(a);
    lemma_shading_step(a, b);
    lemma_middle_of_regions_shades(b, b.regions.len());
    lemma_shading_step(b, c);
    lemma_contiguity_shades(c);
    lemma_shading_step(c, d);
    lemma_regenerate_keeps_wf(d);
    assert(d.evolves_to(e));
    // every stage lies between the board and itself
    lemma_evolves_trans(c, d, e);
    lemma_evolves_trans(b, c, e);
    lemma_evolves_trans(a, b, e);
    lemma_evolves_trans(cols, a, e);
    lemma_evolves_trans(rows, cols, e);
    lemma_evolves_trans(v, rows, cols);
    lemma_evolves_trans(v, a, b);
    lemma_evolves_trans(v, b, c);
    lemma_evolves_trans(v, c, d);
    lemma_evolution_both_ways(v, rows);
    lemma_evolution_both_ways(v, cols);
    lemma_evolution_both_ways(v, a);
    lemma_evolution_both_ways(v, b);
    lemma_evolution_both_ways(v, c);
    lemma_evolution_both_ways(v, d);
    assert(rows =~= v);
    assert(cols =~= v);
    assert(a =~= v);
    assert(b =~= v);
    assert(c =~= v);
    assert(d =~= v);
    assert forall|r: int, col: int|
        v.has_cell(r, col) && (#[trigger] v.state(r, col)) is Blank implies {
        &&& !v.line_saturated(true, r)
        &&& !v.line_saturated(false, col)
        &&& !v.region_saturated(v.region_of(r, col))
    } by {
        assert(rows.states[r][col] == v.states[r][col]);
        assert(v.after_blackout_lines(false).states[r][col] == v.states[r][col]);
        assert(v.region_of(r, col) < v.regions.len());
        assert(v.after_blackout_regions().states[r][col] == v.states[r][col]);
    }
    assert forall|r: int, col: int|
        v.has_cell(r, col) && (#[trigger] v.state(r, col)) is Blank implies !v.beside_star(
        r,
        col,
    ) by {
        assert(v.after_star_adjacencies().states[r][col] == v.states[r][col]);
    }
}

/// A well-formed board without stars side by side that a round leaves as
/// it is, is settled, and no row and no column forces a star.
pub proof fn lemma_unchanged_by_round_is_settled(v: BoardView)
    requires
        v.wf(),
        v.stars_apart(),
        v.after_round() == Outcome::fine(v),
    ensures
        v.settled(),
        v.no_forced_star(),
        v.after_enforcement() == v,
        v.after_required_stars(true) == v,
        v.after_required_stars(false) == v,
        v.after_required_stars_region() == Outcome::fine(v),
{
    lemma_enforcement(v);
    let a = v.after_enforcement();
    let b = a.after_required_stars(false);
    lemma_required_stars_evolve(a, false);
    lemma_evolution_keeps_wf(a, b);
    lemma_states_advance(a, b);
    assert(b.checked().violation is None);
    lemma_enforcement(b);
    let c = b.after_enforcement();
    let d = c.after_required_stars(true);
    lemma_required_stars_evolve(c, true);
    lemma_evolution_keeps_wf(c, d);
    lemma_states_advance(c, d);
    assert(d.checked().violation is None);
    lemma_enforcement(d);
    let e = d.after_enforcement();
    assert(e.after_required_stars_region() == Outcome::fine(v));
    lemma_required_stars_region_advances(e);
    // nothing is left to decide less than before, so no step changed
    // anything
    assert(v.measure() >= a.measure() >= b.measure() >= c.measure() >= d.measure()
        >= e.measure() >= v.measure());
    assert(a == v);
    assert(b == v);
    assert(c == v);
    assert(d == v);
    assert(e == v);
    lemma_unchanged_by_pass_is_settled(v);
    assert forall|r: int, col: int|
        v.has_cell(r, col) && (#[trigger] v.state(r, col)) is Blank implies {
        &&& !forced_star(v.line(true, r), col)
        &&& !forced_star(v.line(false, col), r)
    } by {
        assert(v.after_required_stars(true).states[r][col] == v.states[r][col]);
        assert(v.after_required_stars(false).states[r][col] == v.states[r][col]);
    }
}

} // verus!
