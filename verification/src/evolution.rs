//! How a board may change: cells only ever leave the blank state, and a
//! board that changes this way stays well formed.

use crate::cell::CellState;
use crate::model::{blank_total, count_blanks, has_shape, BoardView, Grid};
use vstd::prelude::*;

verus! {

/// Every board is a later stage of itself.
pub proof fn lemma_evolves_refl(v: BoardView)
    requires
        v.is_grid(),
    ensures
        v.evolves_to(v),
{
}

/// A later stage of a later stage is a later stage.
pub proof fn lemma_evolves_trans(a: BoardView, b: BoardView, c: BoardView)
    requires
        a.evolves_to(b),
        b.evolves_to(c),
    ensures
        a.evolves_to(c),
{
    assert forall|r: int, col: int| a.has_cell(r, col) implies a.state(r, col).may_become(
        #[trigger] c.state(r, col),
    ) by {
        assert(a.state(r, col).may_become(b.state(r, col)));
        assert(b.state(r, col).may_become(c.state(r, col)));
    }
}

/// A later stage with the same region lists is well formed if the earlier
/// one was: what is not filled now was not filled before, so it is still
/// listed.
pub proof fn lemma_evolution_keeps_wf(v: BoardView, next: BoardView)
    requires
        v.wf(),
        v.evolves_to(next),
        next.regions == v.regions,
    ensures
        next.wf(),
{
    assert forall|r: int, c: int| next.has_cell(r, c) implies (#[trigger] next.region_of(r, c))
        < next.regions.len() by {
        assert(v.region_of(r, c) < v.regions.len());
    }
    assert forall|t: int| 0 <= t < next.regions.len() implies #[trigger] next.region_in_order(
        t,
    ) by {
        assert(v.region_in_order(t));
    }
    assert forall|r: int, c: int|
        next.has_cell(r, c) && !(next.state(r, c) is Filled) implies #[trigger] next.listed(
        r,
        c,
    ) by {
        assert(v.state(r, c).may_become(next.state(r, c)));
        assert(v.listed(r, c));
    }
}

/// Where every entry of a line stayed or left the blank state, the line has
/// no more blanks than before, and as many only if it is unchanged.
pub proof fn lemma_count_blanks_monotone(s: Seq<CellState>, next: Seq<CellState>)
    requires
        next.len() == s.len(),
        forall|i: int| 0 <= i < s.len() ==> s[i].may_become(#[trigger] next[i]),
    ensures
        count_blanks(next) <= count_blanks(s),
        count_blanks(next) == count_blanks(s) ==> next == s,
    decreases s.len(),
{
    if s.len() > 0 {
        let front = s.drop_last();
        let next_front = next.drop_last();
        assert forall|i: int| 0 <= i < front.len() implies front[i].may_become(
            #[trigger] next_front[i],
        ) by {
            assert(s[i].may_become(next[i]));
        }
        lemma_count_blanks_monotone(front, next_front);
        assert(s.last().may_become(next[s.len() - 1]));
        if count_blanks(next) == count_blanks(s) {
            assert(next =~= next_front.push(next.last()));
            assert(s =~= front.push(s.last()));
        }
    } else {
        assert(next =~= s);
    }
}

/// The same for the first `rows` rows of a grid.
pub proof fn lemma_blank_total_monotone(g: Grid, next: Grid, height: nat, width: nat, rows: nat)
    requires
        has_shape(g, height, width),
        has_shape(next, height, width),
        rows <= height,
        forall|r: int, c: int|
            0 <= r < height && 0 <= c < width ==> g[r][c].may_become(#[trigger] next[r][c]),
    ensures
        blank_total(next, rows) <= blank_total(g, rows),
        blank_total(next, rows) == blank_total(g, rows) ==> forall|r: int|
            0 <= r < rows ==> #[trigger] next[r] == g[r],
    decreases rows,
{
    if rows > 0 {
        lemma_blank_total_monotone(g, next, height, width, (rows - 1) as nat);
        let r = rows - 1;
        assert forall|i: int| 0 <= i < g[r].len() implies g[r][i].may_become(
            #[trigger] next[r][i],
        ) by {}
        lemma_count_blanks_monotone(g[r], next[r]);
    }
}

/// A later stage with the same region lists is the same board or has fewer
/// blanks, whether stars were placed or cells were shaded.
pub proof fn lemma_states_advance(v: BoardView, next: BoardView)
    requires
        v.is_grid(),
        v.evolves_to(next),
        next.regions == v.regions,
    ensures
        v.advances_to(next),
{
    assert forall|r: int, c: int|
        0 <= r < v.height && 0 <= c < v.width implies v.states[r][c].may_become(
        #[trigger] next.states[r][c],
    ) by {
        assert(v.state(r, c).may_become(next.state(r, c)));
    }
    lemma_blank_total_monotone(v.states, next.states, v.height, v.width, v.height);
    if blank_total(next.states, v.height) == blank_total(v.states, v.height) {
        assert(next.states =~= v.states);
        assert(next =~= v);
    }
}

/// A later stage with the same region lists is well formed if the earlier
/// one was.
pub proof fn lemma_step_keeps_wf(v: BoardView, next: BoardView)
    requires
        v.evolves_to(next),
        next.regions == v.regions,
    ensures
        v.wf() ==> next.wf(),
{
    if v.wf() {
        lemma_evolution_keeps_wf(v, next);
    }
}

/// Attaching a reference solution of the board's dimensions keeps a board
/// well formed, and changes neither its cells nor its region lists.
pub proof fn lemma_solution_keeps_wf(v: BoardView, solution: Seq<Seq<CellState>>)
    requires
        has_shape(solution, v.height, v.width),
    ensures
        v.wf() ==> (BoardView { solution: Some(solution), ..v }).wf(),
        v.regions_exact() ==> (BoardView { solution: Some(solution), ..v }).regions_exact(),
        v.stars_apart() ==> (BoardView { solution: Some(solution), ..v }).stars_apart(),
{
    let next = BoardView { solution: Some(solution), ..v };
    if v.wf() {
        assert forall|r: int, c: int|
            next.has_cell(r, c) implies (#[trigger] next.region_of(r, c))
            < next.regions.len() by {
            assert(v.region_of(r, c) < v.regions.len());
        }
        assert forall|t: int| 0 <= t < next.regions.len() implies #[trigger] next.region_in_order(
            t,
        ) by {
            assert(v.region_in_order(t));
        }
        assert forall|r: int, c: int|
            next.has_cell(r, c) && !(next.state(r, c) is Filled) implies #[trigger] next.listed(
            r,
            c,
        ) by {
            assert(v.listed(r, c));
        }
    }
    if v.stars_apart() {
        assert forall|r: int, c: int| !#[trigger] next.star_beside_star(r, c) by {
            assert(!v.star_beside_star(r, c));
        }
    }
}

/// Shading after shading is shading.
pub proof fn lemma_shades_trans(a: BoardView, b: BoardView, c: BoardView)
    requires
        a.shades_to(b),
        b.shades_to(c),
    ensures
        a.shades_to(c),
{
    lemma_evolves_trans(a, b, c);
    assert forall|r: int, col: int| a.has_cell(r, col) implies ((#[trigger] c.state(r, col)) is Star
        <==> a.state(r, col) is Star) by {
        assert(b.state(r, col) is Star <==> a.state(r, col) is Star);
    }
}

/// Shading places no star beside a star.
pub proof fn lemma_shading_keeps_stars_apart(v: BoardView, next: BoardView)
    requires
        v.stars_apart(),
        v.shades_to(next),
    ensures
        next.stars_apart(),
{
    assert forall|r: int, c: int| !#[trigger] next.star_beside_star(r, c) by {
        if next.star_beside_star(r, c) {
            assert(next.state(r, c) is Star);
            assert(next.star_at(r - 1, c - 1) ==> next.state(r - 1, c - 1) is Star);
            assert(next.star_at(r - 1, c) ==> next.state(r - 1, c) is Star);
            assert(next.star_at(r - 1, c + 1) ==> next.state(r - 1, c + 1) is Star);
            assert(next.star_at(r, c - 1) ==> next.state(r, c - 1) is Star);
            assert(next.star_at(r, c + 1) ==> next.state(r, c + 1) is Star);
            assert(next.star_at(r + 1, c - 1) ==> next.state(r + 1, c - 1) is Star);
            assert(next.star_at(r + 1, c) ==> next.state(r + 1, c) is Star);
            assert(next.star_at(r + 1, c + 1) ==> next.state(r + 1, c + 1) is Star);
            assert(v.star_beside_star(r, c));
        }
    }
}

/// What every shading rule gives: from a well-formed board, a well-formed
/// board that is the same or has fewer blanks, and no star beside a star if
/// there was none.
pub proof fn lemma_shading_step(v: BoardView, next: BoardView)
    requires
        v.wf(),
        v.shades_to(next),
        next.regions == v.regions,
    ensures
        next.wf(),
        v.advances_to(next),
        v.stars_apart() ==> next.stars_apart(),
{
    lemma_evolution_keeps_wf(v, next);
    lemma_states_advance(v, next);
    if v.stars_apart() {
        lemma_shading_keeps_stars_apart(v, next);
    }
}

/// Advancing is transitive.
pub proof fn lemma_advances_trans(a: BoardView, b: BoardView, c: BoardView)
    requires
        a.advances_to(b),
        b.advances_to(c),
    ensures
        a.advances_to(c),
{
    lemma_evolves_trans(a, b, c);
}

} // verus!
