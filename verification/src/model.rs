//! The board as a mathematical value: what contracts are stated over.

use crate::cell::CellState;
use crate::input::tag_rank;
use vstd::prelude::*;

verus! {

/// The states of a grid, row by row.
pub type Grid = Seq<Seq<CellState>>;

/// An ordered run of coordinates `(row, col)`: a region list, or any other
/// line of cells a rule looks at.
pub type Coords = Seq<(usize, usize)>;

/// `g` has `height` rows of `width` entries each.
pub open spec fn has_shape<T>(g: Seq<Seq<T>>, height: nat, width: nat) -> bool {
    &&& g.len() == height
    &&& forall|r: int| 0 <= r < height ==> (#[trigger] g[r]).len() == width
}

/// The grid whose cell `(r, c)` is `f(r, c)`.
pub open spec fn grid_from(height: nat, width: nat, f: spec_fn(int, int) -> CellState) -> Grid {
    Seq::new(height, |r: int| Seq::new(width, |c: int| f(r, c)))
}

/// `(row, col)` comes before `(other_row, other_col)` when the grid is read
/// row by row.
pub open spec fn row_major_lt(row: int, col: int, other_row: int, other_col: int) -> bool {
    row < other_row || (row == other_row && col < other_col)
}

/// How many entries of `s` are stars.
pub open spec fn count_stars(s: Seq<CellState>) -> nat
    decreases s.len(),
{
    if s.len() == 0 {
        0
    } else {
        count_stars(s.drop_last()) + if s.last() is Star {
            1nat
        } else {
            0nat
        }
    }
}

/// How many entries of `s` are blank.
pub open spec fn count_blanks(s: Seq<CellState>) -> nat
    decreases s.len(),
{
    if s.len() == 0 {
        0
    } else {
        count_blanks(s.drop_last()) + if s.last() is Blank {
            1nat
        } else {
            0nat
        }
    }
}

/// The positions of the blank entries of `s`, ascending.
pub open spec fn blank_indices(s: Seq<CellState>) -> Seq<int>
    decreases s.len(),
{
    if s.len() == 0 {
        Seq::empty()
    } else if s.last() is Blank {
        blank_indices(s.drop_last()).push(s.len() - 1)
    } else {
        blank_indices(s.drop_last())
    }
}

/// The states that `g` holds along `list`.
pub open spec fn states_along(g: Grid, list: Coords) -> Seq<CellState> {
    Seq::new(list.len(), |i: int| g[list[i].0 as int][list[i].1 as int])
}

/// The coordinates of `list` whose cell in `g` is blank, in the order of
/// `list`.
pub open spec fn blank_cells(g: Grid, list: Coords) -> Coords
    decreases list.len(),
{
    if list.len() == 0 {
        Seq::empty()
    } else if g[list.last().0 as int][list.last().1 as int] is Blank {
        blank_cells(g, list.drop_last()).push(list.last())
    } else {
        blank_cells(g, list.drop_last())
    }
}

/// The coordinates of `list` whose cell in `g` is not filled, in the order of
/// `list`.
pub open spec fn live_cells(g: Grid, list: Coords) -> Coords
    decreases list.len(),
{
    if list.len() == 0 {
        Seq::empty()
    } else if g[list.last().0 as int][list.last().1 as int] is Filled {
        live_cells(g, list.drop_last())
    } else {
        live_cells(g, list.drop_last()).push(list.last())
    }
}

/// The coordinates of `list` ascend in row-major order.
pub open spec fn ascending(list: Coords) -> bool {
    forall|i: int, j: int|
        0 <= i < j < list.len() ==> row_major_lt(
            (#[trigger] list[i]).0 as int,
            list[i].1 as int,
            (#[trigger] list[j]).0 as int,
            list[j].1 as int,
        )
}

/// The number of blank cells of the first `rows` rows of `g`.
pub open spec fn blank_total(g: Grid, rows: nat) -> nat
    decreases rows,
{
    if rows == 0 {
        0
    } else {
        blank_total(g, (rows - 1) as nat) + count_blanks(g[rows - 1])
    }
}

/// The summed length of the first `n` lists.
pub open spec fn total_len(lists: Seq<Coords>, n: nat) -> nat
    decreases n,
{
    if n == 0 {
        0
    } else {
        total_len(lists, (n - 1) as nat) + lists[n - 1].len()
    }
}

/// A board: its dimensions, the region tag and the state of every cell, the
/// list of coordinates kept for every region, and the reference solution if
/// one is attached.
#[verifier::ext_equal]
pub struct BoardView {
    pub width: nat,
    pub height: nat,
    pub tags: Seq<Seq<usize>>,
    pub states: Grid,
    pub regions: Seq<Coords>,
    pub solution: Option<Grid>,
}

impl BoardView {
    /// `(r, c)` is a cell of the board.
    pub open spec fn has_cell(self, r: int, c: int) -> bool {
        0 <= r < self.height && 0 <= c < self.width
    }

    pub open spec fn state(self, r: int, c: int) -> CellState {
        self.states[r][c]
    }

    pub open spec fn tag(self, r: int, c: int) -> usize {
        self.tags[r][c]
    }

    /// The index of the region list that cell `(r, c)` belongs to: the rank
    /// of its tag among the tags of the board.
    pub open spec fn region_of(self, r: int, c: int) -> int {
        tag_rank(self.tags, self.tag(r, c) as int) as int
    }

    /// The dimensions fit a machine word, the matrices of tags and states
    /// have these dimensions, and so has the reference solution if there is
    /// one.
    pub open spec fn is_grid(self) -> bool {
        &&& self.width <= usize::MAX
        &&& self.height <= usize::MAX
        &&& has_shape(self.tags, self.height, self.width)
        &&& has_shape(self.states, self.height, self.width)
        &&& self.solution matches Some(s) ==> has_shape(s, self.height, self.width)
    }

    /// The list with index `t` holds cells of the board that belong to it,
    /// in row-major order and so without repetition.
    pub open spec fn region_in_order(self, t: int) -> bool {
        let list = self.regions[t];
        &&& forall|i: int|
            0 <= i < list.len() ==> {
                &&& self.has_cell((#[trigger] list[i]).0 as int, list[i].1 as int)
                &&& self.region_of(list[i].0 as int, list[i].1 as int) == t
            }
        &&& ascending(list)
    }

    /// The invariant of every board: it is a grid, there is a region list
    /// for the tag of every cell, the lists standing in ascending order of
    /// their tags, every list is in row-major order and holds only cells of
    /// its own tag, and no cell that is still blank or a star is missing
    /// from the list of its region.
    pub open spec fn wf(self) -> bool {
        &&& self.is_grid()
        &&& forall|r: int, c: int|
            self.has_cell(r, c) ==> (#[trigger] self.region_of(r, c)) < self.regions.len()
        &&& forall|t: int| 0 <= t < self.regions.len() ==> #[trigger] self.region_in_order(t)
        &&& forall|r: int, c: int|
            self.has_cell(r, c) && !(self.state(r, c) is Filled) ==> #[trigger] self.listed(r, c)
    }

    /// Cell `(r, c)` stands in the list of its region.
    pub open spec fn listed(self, r: int, c: int) -> bool {
        self.regions[self.region_of(r, c)].contains((r as usize, c as usize))
    }

    /// Cells of one list carry the same tag, and cells of an earlier list
    /// carry a smaller tag than cells of a later one.
    pub open spec fn lists_ascend_by_tag(self) -> bool {
        forall|t: int, i: int, u: int, j: int|
            0 <= t <= u < self.regions.len() && 0 <= i < self.regions[t].len() && 0 <= j
                < self.regions[u].len() ==> {
                let p = #[trigger] self.regions[t][i];
                let q = #[trigger] self.regions[u][j];
                &&& t < u ==> self.tag(p.0 as int, p.1 as int) < self.tag(q.0 as int, q.1 as int)
                &&& t == u ==> self.tag(p.0 as int, p.1 as int) == self.tag(
                    q.0 as int,
                    q.1 as int,
                )
            }
    }

    /// No region list holds a filled cell: with `wf`, every list is exactly
    /// the cells of its tag that are not filled, in row-major order.
    pub open spec fn regions_exact(self) -> bool {
        forall|t: int, i: int|
            0 <= t < self.regions.len() && 0 <= i < self.regions[t].len() ==> !(self.state(
                (#[trigger] self.regions[t][i]).0 as int,
                self.regions[t][i].1 as int,
            ) is Filled)
    }

    /// The states of row `r`, left to right.
    pub open spec fn row(self, r: int) -> Seq<CellState> {
        self.states[r]
    }

    /// The states of column `c`, top to bottom.
    pub open spec fn column(self, c: int) -> Seq<CellState> {
        Seq::new(self.height, |r: int| self.states[r][c])
    }

    /// Row `index` if `by_rows`, column `index` otherwise.
    pub open spec fn line(self, by_rows: bool, index: int) -> Seq<CellState> {
        if by_rows {
            self.row(index)
        } else {
            self.column(index)
        }
    }

    /// The number of rows if `by_rows`, of columns otherwise.
    pub open spec fn line_count(self, by_rows: bool) -> nat {
        if by_rows {
            self.height
        } else {
            self.width
        }
    }

    /// The length of a row if `by_rows`, of a column otherwise.
    pub open spec fn line_len(self, by_rows: bool) -> nat {
        if by_rows {
            self.width
        } else {
            self.height
        }
    }

    /// The line that cell `(r, c)` lies on, and its position there.
    pub open spec fn on_line(by_rows: bool, r: int, c: int) -> (int, int) {
        if by_rows {
            (r, c)
        } else {
            (c, r)
        }
    }

    /// The states along the list of region `t`.
    pub open spec fn region_states(self, t: int) -> Seq<CellState> {
        states_along(self.states, self.regions[t])
    }

    /// The same board with other states.
    pub open spec fn with_states(self, states: Grid) -> BoardView {
        BoardView { states, ..self }
    }

    /// The same board with other region lists.
    pub open spec fn with_regions(self, regions: Seq<Coords>) -> BoardView {
        BoardView { regions, ..self }
    }

    /// The board after cell `(r, c)` was shaded.
    pub open spec fn shade(self, r: int, c: int) -> BoardView {
        self.with_states(self.states.update(r, self.states[r].update(c, self.state(r, c).shaded())))
    }

    /// The board after a star was put in cell `(r, c)`.
    pub open spec fn star(self, r: int, c: int) -> BoardView {
        self.with_states(
            self.states.update(r, self.states[r].update(c, self.state(r, c).starred())),
        )
    }

    /// A star stands in `(r, c)`, a cell of the board.
    pub open spec fn star_at(self, r: int, c: int) -> bool {
        self.has_cell(r, c) && self.state(r, c) is Star
    }

    /// One of the up to eight king-neighbours of `(r, c)` holds a star.
    pub open spec fn beside_star(self, r: int, c: int) -> bool {
        ||| self.star_at(r - 1, c - 1)
        ||| self.star_at(r - 1, c)
        ||| self.star_at(r - 1, c + 1)
        ||| self.star_at(r, c - 1)
        ||| self.star_at(r, c + 1)
        ||| self.star_at(r + 1, c - 1)
        ||| self.star_at(r + 1, c)
        ||| self.star_at(r + 1, c + 1)
    }

    /// A star stands in `(r, c)` and another in a king-neighbour of it.
    pub open spec fn star_beside_star(self, r: int, c: int) -> bool {
        self.star_at(r, c) && self.beside_star(r, c)
    }

    /// No two stars are king-neighbours.
    pub open spec fn stars_apart(self) -> bool {
        forall|r: int, c: int| !#[trigger] self.star_beside_star(r, c)
    }

    /// `next` is a later stage of this board: same dimensions, tags and
    /// reference solution, as many regions, and no cell has changed but from
    /// blank to a star or to filled.
    pub open spec fn evolves_to(self, next: BoardView) -> bool {
        &&& next.width == self.width
        &&& next.height == self.height
        &&& next.tags == self.tags
        &&& next.solution == self.solution
        &&& next.regions.len() == self.regions.len()
        &&& has_shape(next.states, self.height, self.width)
        &&& forall|r: int, c: int|
            self.has_cell(r, c) ==> self.state(r, c).may_become(#[trigger] next.state(r, c))
    }

    /// `next` is a later stage of this board with the same stars: some blank
    /// cells were filled, no star was placed.
    pub open spec fn shades_to(self, next: BoardView) -> bool {
        &&& self.evolves_to(next)
        &&& forall|r: int, c: int|
            self.has_cell(r, c) ==> ((#[trigger] next.state(r, c)) is Star <==> self.state(
                r,
                c,
            ) is Star)
    }

    /// `next` is a later stage of this board, and either the same board or
    /// one with less left to decide.
    pub open spec fn advances_to(self, next: BoardView) -> bool {
        &&& self.evolves_to(next)
        &&& next == self || next.measure() < self.measure()
    }

    /// What is left to decide: the blank cells and the entries of the region
    /// lists. No rule makes it larger.
    pub open spec fn measure(self) -> nat {
        blank_total(self.states, self.height) + total_len(self.regions, self.regions.len())
    }
}

} // verus!
