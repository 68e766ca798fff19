//! The board: the cell matrix and the region lists, with the two primitives
//! through which every rule changes it.

use crate::cell::{Cell, CellState};
use crate::errors::InvalidInput;
use crate::evolution::{lemma_solution_keeps_wf, lemma_step_keeps_wf};
use crate::grouping::{group_by_tag, placed};
use crate::input::{lemma_rank_of_label, lemma_rank_unfold, tag_rank, valid_input};
use crate::regions::lemma_lists_ascend_by_tag;
use crate::model::{ascending, row_major_lt, BoardView};
use crate::snapshot::{
    copy_cells, copy_lists, copy_states, rows_of, same_cells, same_lists, same_states,
};
use vstd::prelude::*;
use vstd::std_specs::cmp::PartialEqSpecImpl;

verus! {

/// A puzzle in progress.
#[derive(Debug)]
pub struct Board {
    width: usize,
    height: usize,
    cells: Vec<Vec<Cell>>,
    /// One list for every region, the lists in ascending order of the
    /// regions' tags: the cells of that region that are not known to be
    /// filled.
    regions: Vec<Vec<(usize, usize)>>,
    /// The states of a reference solution, if one is attached.
    solution: Option<Vec<Vec<CellState>>>,
}

impl View for Board {
    type V = BoardView;

    closed spec fn view(&self) -> BoardView {
        BoardView {
            width: self.width as nat,
            height: self.height as nat,
            tags: Seq::new(
                self.cells@.len(),
                |r: int| Seq::new(self.cells@[r]@.len(), |c: int| self.cells@[r]@[c].tag()),
            ),
            states: Seq::new(
                self.cells@.len(),
                |r: int| Seq::new(self.cells@[r]@.len(), |c: int| self.cells@[r]@[c].status()),
            ),
            regions: Seq::new(self.regions@.len(), |t: int| self.regions@[t]@),
            solution: match self.solution {
                Some(s) => Some(Seq::new(s@.len(), |r: int| s@[r]@)),
                None => None,
            },
        }
    }
}

impl Clone for Board {
    /// A board with the same cells, region lists and reference solution.
    fn clone(&self) -> (copy: Self)
        ensures
            copy@ == self@,
    {
        let solution = match &self.solution {
            Some(states) => Some(copy_states(states)),
            None => None,
        };
        let copy = Board {
            width: self.width,
            height: self.height,
            cells: copy_cells(&self.cells),
            regions: copy_lists(&self.regions),
            solution,
        };
        proof {
            self.lemma_view_by_parts(&copy);
        }
        copy
    }
}

impl PartialEq for Board {
    /// Equality by value: the same dimensions, cells, region lists and
    /// reference solution.
    fn eq(&self, other: &Self) -> (equal: bool) {
        let same_solution = match (&self.solution, &other.solution) {
            (Some(a), Some(b)) => same_states(a, b),
            (None, None) => true,
            _ => false,
        };
        proof {
            self.lemma_view_by_parts(other);
        }
        self.width == other.width && self.height == other.height && same_cells(
            &self.cells,
            &other.cells,
        ) && same_lists(&self.regions, &other.regions) && same_solution
    }
}

impl PartialEqSpecImpl for Board {
    open spec fn obeys_eq_spec() -> bool {
        true
    }

    open spec fn eq_spec(&self, other: &Self) -> bool {
        self@ == other@
    }
}

impl Eq for Board {

}

impl Board {
    /// Two boards have the same view exactly if they agree in every part.
    proof fn lemma_view_by_parts(&self, other: &Board)
        ensures
            self@ == other@ <==> {
                &&& self.width == other.width
                &&& self.height == other.height
                &&& rows_of(self.cells@) == rows_of(other.cells@)
                &&& rows_of(self.regions@) == rows_of(other.regions@)
                &&& match (self.solution, other.solution) {
                    (Some(a), Some(b)) => rows_of(a@) == rows_of(b@),
                    (None, None) => true,
                    _ => false,
                }
            },
    {
        if self@ == other@ {
            assert(self@.tags.len() == other@.tags.len());
            assert forall|r: int| 0 <= r < self.cells@.len() implies #[trigger] rows_of(
                self.cells@,
            )[r] == rows_of(other.cells@)[r] by {
                assert(self@.tags[r].len() == other@.tags[r].len());
                assert forall|c: int| 0 <= c < self.cells@[r]@.len() implies self.cells@[r]@[c]
                    == other.cells@[r]@[c] by {
                    assert(self@.tags[r][c] == other@.tags[r][c]);
                    assert(self@.states[r][c] == other@.states[r][c]);
                    Cell::lemma_same_cell(self.cells@[r]@[c], other.cells@[r]@[c]);
                }
                assert(self.cells@[r]@ =~= other.cells@[r]@);
            }
            assert(rows_of(self.cells@) =~= rows_of(other.cells@));
            assert(rows_of(self.regions@) =~= rows_of(other.regions@));
            match (self.solution, other.solution) {
                (Some(a), Some(b)) => {
                    assert(rows_of(a@) =~= rows_of(b@));
                },
                _ => {},
            }
        }
        if self.width == other.width && self.height == other.height && rows_of(self.cells@)
            == rows_of(other.cells@) && rows_of(self.regions@) == rows_of(other.regions@) {
            assert(self.cells@.len() == rows_of(self.cells@).len());
            assert(other.cells@.len() == rows_of(other.cells@).len());
            assert forall|r: int| 0 <= r < self.cells@.len() implies self.cells@[r]@
                == other.cells@[r]@ by {
                assert(rows_of(self.cells@)[r] == rows_of(other.cells@)[r]);
            }
            assert(self@.tags =~~= other@.tags);
            assert(self@.states =~~= other@.states);
            assert(self.regions@.len() == rows_of(self.regions@).len());
            assert(other.regions@.len() == rows_of(other.regions@).len());
            assert forall|t: int| 0 <= t < self.regions@.len() implies self.regions@[t]@
                == other.regions@[t]@ by {
                assert(rows_of(self.regions@)[t] == rows_of(other.regions@)[t]);
            }
            assert(self@.regions =~~= other@.regions);
            match (self.solution, other.solution) {
                (Some(a), Some(b)) => {
                    if rows_of(a@) == rows_of(b@) {
                        assert(self@ =~~= other@);
                    }
                },
                (None, None) => {
                    assert(self@ =~~= other@);
                },
                _ => {},
            }
        }
    }

    /// A blank cell for every tag of the matrix.
    fn blank_from_regions(regions: Vec<Vec<usize>>) -> (cells: Vec<Vec<Cell>>)
        ensures
            cells@.len() == regions@.len(),
            forall|r: int|
                0 <= r < cells@.len() ==> (#[trigger] cells@[r])@.len() == regions@[r]@.len(),
            forall|r: int, c: int|
                0 <= r < cells@.len() && 0 <= c < cells@[r]@.len() ==> {
                    &&& (#[trigger] cells@[r]@[c]).tag() == regions@[r]@[c]
                    &&& cells@[r]@[c].status() is Blank
                },
    {
        let mut cells: Vec<Vec<Cell>> = Vec::new();
        for row in 0..regions.len()
            invariant
                cells@.len() == row,
                forall|r: int| 0 <= r < row ==> (#[trigger] cells@[r])@.len() == regions@[r]@.len(),
                forall|r: int, c: int|
                    0 <= r < row && 0 <= c < cells@[r]@.len() ==> (#[trigger] cells@[r]@[c]).tag()
                        == regions@[r]@[c] && cells@[r]@[c].status() is Blank,
        {
            let mut line: Vec<Cell> = Vec::new();
            let len = regions[row].len();
            for col in 0..len
                invariant
                    row < regions@.len(),
                    len == regions@[row as int]@.len(),
                    line@.len() == col,
                    forall|c: int|
                        0 <= c < col ==> (#[trigger] line@[c]).tag() == regions@[row as int]@[c]
                            && line@[c].status() is Blank,
            {
                line.push(Cell::blank(regions[row][col]));
            }
            cells.push(line);
        }
        cells
    }

    /// A board of `height` rows and `width` columns, all blank, whose cell
    /// `(r, c)` belongs to the region with tag `regions[r][c]`.
    ///
    /// The input is accepted exactly if it is `valid_input`: the tags need
    /// not start at 0 nor be contiguous. The board has one region list for
    /// every tag that occurs, the lists stand in ascending order of their
    /// tags, and each list holds the cells of its tag in row-major order.
    pub fn new(width: usize, height: usize, regions: Vec<Vec<usize>>) -> (result: Result<
        Board,
        InvalidInput,
    >)
        ensures
            result is Ok <==> valid_input(width as nat, height as nat, rows_of(regions@)),
            result matches Ok(board) ==> {
                &&& board@.width == width
                &&& board@.height == height
                &&& board@.tags == rows_of(regions@)
                &&& forall|r: int, c: int|
                    board@.has_cell(r, c) ==> #[trigger] board@.state(r, c) is Blank
                &&& board@.solution is None
                &&& board@.wf()
                &&& board@.regions_exact()
                &&& board@.lists_ascend_by_tag()
                &&& forall|t: int|
                    0 <= t < board@.regions.len() ==> (#[trigger] board@.regions[t]).len() > 0
            },
    {
        let ghost tags = rows_of(regions@);
        if width == 0 || height == 0 || regions.len() != height {
            proof {
                assert(tags.len() == regions@.len());
            }
            return Err(InvalidInput);
        }
        for row in 0..height
            invariant
                regions@.len() == height,
                tags == rows_of(regions@),
                forall|r: int| 0 <= r < row ==> (#[trigger] tags[r]).len() == width,
        {
            if regions[row].len() != width {
                proof {
                    assert(tags[row as int].len() != width);
                }
                return Err(InvalidInput);
            }
        }
        if width.checked_mul(height).is_none() {
            return Err(InvalidInput);
        }
        let (labels, lists) = group_by_tag(width, height, &regions);
        let cells = Self::blank_from_regions(regions);
        let board = Board { width, height, cells, regions: lists, solution: None };
        proof {
            let v = board@;
            let filled = rows_of(lists@);
            assert(v.tags =~~= tags);
            assert(v.regions =~~= filled);
            assert(v.states.len() == height);
            assert forall|r: int| 0 <= r < height implies (#[trigger] v.states[r]).len()
                == width by {
                assert(tags[r].len() == width);
                assert(board.cells@[r]@.len() == regions@[r]@.len());
            }
            assert forall|k: int| 0 <= k < labels@.len() implies tag_rank(
                tags,
                #[trigger] labels@[k] as int,
            ) == k by {
                lemma_rank_of_label(tags, labels@, k);
            }
            assert forall|r: int, c: int| v.has_cell(r, c) implies (#[trigger] v.region_of(r, c))
                < v.regions.len() && v.listed(r, c) by {
                assert(row_major_lt(r, c, height as int, 0));
                assert(placed(labels@, filled, tags[r][c], r, c));
            }
            assert forall|t: int| 0 <= t < v.regions.len() implies #[trigger] v.region_in_order(
                t,
            ) by {
                assert(ascending(filled[t]));
                assert forall|i: int| 0 <= i < filled[t].len() implies {
                    &&& v.has_cell((#[trigger] filled[t][i]).0 as int, filled[t][i].1 as int)
                    &&& v.region_of(filled[t][i].0 as int, filled[t][i].1 as int) == t
                } by {
                    let p = filled[t][i];
                    assert(tags[p.0 as int][p.1 as int] == labels@[t]);
                }
            }
            assert forall|t: int| 0 <= t < v.regions.len() implies (#[trigger] v.regions[t]).len()
                > 0 by {
                assert(ascending(filled[t]) && filled[t].len() > 0);
            }
            lemma_lists_ascend_by_tag(v);
        }
        Ok(board)
    }

    /// A reference board of the given dimensions: in every row the two
    /// columns that `stars` names for it hold a star, every other cell is
    /// filled. All cells carry tag 0, and the list of this one region holds
    /// the stars.
    pub fn solved(width: usize, height: usize, stars: Vec<(usize, usize)>) -> (board: Board)
        requires
            stars@.len() == height,
            forall|r: int|
                0 <= r < height ==> (#[trigger] stars@[r]).0 < width && stars@[r].1 < width,
        ensures
            board@.width == width,
            board@.height == height,
            forall|r: int, c: int| board@.has_cell(r, c) ==> #[trigger] board@.tag(r, c) == 0,
            forall|r: int, c: int|
                board@.has_cell(r, c) ==> #[trigger] board@.state(r, c) == if c == stars@[r].0
                    || c == stars@[r].1 {
                    CellState::Star
                } else {
                    CellState::Filled
                },
            board@.regions.len() == 1,
            board@.solution is None,
            board@.wf(),
            board@.regions_exact(),
    {
        let mut cells: Vec<Vec<Cell>> = Vec::new();
        let mut lit: Vec<(usize, usize)> = Vec::new();
        for row in 0..height
            invariant
                stars@.len() == height,
                forall|r: int|
                    0 <= r < height ==> (#[trigger] stars@[r]).0 < width && stars@[r].1 < width,
                cells@.len() == row,
                forall|r: int| 0 <= r < row ==> (#[trigger] cells@[r])@.len() == width,
                forall|r: int, c: int|
                    0 <= r < row && 0 <= c < width ==> (#[trigger] cells@[r]@[c]).tag() == 0
                        && cells@[r]@[c].status() == if c == stars@[r].0 || c == stars@[r].1 {
                        CellState::Star
                    } else {
                        CellState::Filled
                    },
                ascending(lit@),
                forall|i: int|
                    0 <= i < lit@.len() ==> {
                        let p = #[trigger] lit@[i];
                        p.0 < row && (p.1 == stars@[p.0 as int].0 || p.1 == stars@[p.0 as int].1)
                    },
                forall|r: int|
                    0 <= r < row ==> lit@.contains((r as usize, (#[trigger] stars@[r]).0))
                        && lit@.contains((r as usize, stars@[r].1)),
        {
            let (star1, star2) = stars[row];
            let mut line: Vec<Cell> = Vec::new();
            for col in 0..width
                invariant
                    line@.len() == col,
                    forall|c: int|
                        0 <= c < col ==> (#[trigger] line@[c]).tag() == 0 && line@[c].status()
                            == CellState::Filled,
            {
                line.push(Cell::new(0, CellState::Filled));
            }
            line[star1] = Cell::new(0, CellState::Star);
            line[star2] = Cell::new(0, CellState::Star);
            cells.push(line);
            let first = if star1 <= star2 {
                star1
            } else {
                star2
            };
            let second = if star1 <= star2 {
                star2
            } else {
                star1
            };
            let ghost before = lit@;
            lit.push((row, first));
            if first != second {
                lit.push((row, second));
            }
            proof {
                assert forall|r: int| 0 <= r < row + 1 implies lit@.contains(
                    (r as usize, (#[trigger] stars@[r]).0),
                ) && lit@.contains((r as usize, stars@[r].1)) by {
                    if r < row {
                        let a = choose|k: int|
                            0 <= k < before.len() && before[k] == (r as usize, stars@[r].0);
                        let b = choose|k: int|
                            0 <= k < before.len() && before[k] == (r as usize, stars@[r].1);
                        assert(before.contains((r as usize, stars@[r].0)));
                        assert(before.contains((r as usize, stars@[r].1)));
                        assert(lit@[a] == before[a] && lit@[b] == before[b]);
                    } else {
                        assert(lit@[before.len() as int] == (row, first));
                        if first != second {
                            assert(lit@[before.len() as int + 1] == (row, second));
                        }
                    }
                }
                assert forall|i: int, j: int| 0 <= i < j < lit@.len() implies row_major_lt(
                    (#[trigger] lit@[i]).0 as int,
                    lit@[i].1 as int,
                    (#[trigger] lit@[j]).0 as int,
                    lit@[j].1 as int,
                ) by {
                    if j < before.len() {
                        assert(lit@[i] == before[i] && lit@[j] == before[j]);
                    } else if i < before.len() {
                        assert(lit@[i] == before[i]);
                    }
                }
            }
        }
        let mut regions: Vec<Vec<(usize, usize)>> = Vec::new();
        regions.push(lit);
        let board = Board { width, height, cells, regions, solution: None };
        proof {
            let v = board@;
            assert(v.states.len() == height);
            assert(v.regions[0] == lit@);
            lemma_rank_unfold(v.tags, 0);
            assert(v.region_in_order(0));
            assert forall|r: int, c: int|
                v.has_cell(r, c) && !(v.state(r, c) is Filled) implies #[trigger] v.listed(
                r,
                c,
            ) by {
                assert(c == stars@[r].0 || c == stars@[r].1);
            }
        }
        board
    }

    /// Attaches `solution` as the reference that the board is checked
    /// against; only the states of its cells are kept.
    pub fn add_solution(&mut self, solution: Board)
        requires
            solution@.is_grid(),
            solution@.width == old(self)@.width,
            solution@.height == old(self)@.height,
        ensures
            final(self)@ == (BoardView { solution: Some(solution@.states), ..old(self)@ }),
            old(self)@.wf() ==> final(self)@.wf(),
            old(self)@.regions_exact() ==> final(self)@.regions_exact(),
            old(self)@.stars_apart() ==> final(self)@.stars_apart(),
    {
        let mut states: Vec<Vec<CellState>> = Vec::new();
        for row in 0..solution.height
            invariant
                solution@.is_grid(),
                states@.len() == row,
                forall|r: int|
                    0 <= r < row ==> (#[trigger] states@[r])@ == solution@.states[r],
        {
            let mut line: Vec<CellState> = Vec::new();
            for col in 0..solution.width
                invariant
                    solution@.is_grid(),
                    row < solution@.height,
                    line@.len() == col,
                    forall|c: int|
                        0 <= c < col ==> #[trigger] line@[c] == solution@.states[row as int][c],
            {
                line.push(solution.state(row, col));
            }
            proof {
                assert(line@ =~= solution@.states[row as int]);
            }
            states.push(line);
        }
        self.solution = Some(states);
        proof {
            assert(self@ =~~= (BoardView { solution: Some(solution@.states), ..old(self)@ }));
            lemma_solution_keeps_wf(old(self)@, solution@.states);
        }
    }

    /// Whether a reference solution is attached.
    pub fn has_solution(&self) -> (attached: bool)
        ensures
            attached == self@.solution is Some,
    {
        self.solution.is_some()
    }

    /// The state that the attached reference solution gives cell
    /// `(row, col)`.
    pub fn solution_state(&self, row: usize, col: usize) -> (s: CellState)
        requires
            self@.is_grid(),
            self@.solution is Some,
            self@.has_cell(row as int, col as int),
        ensures
            s == self@.solution->0[row as int][col as int],
    {
        match &self.solution {
            Some(states) => {
                proof {
                    assert(self@.solution->0[row as int].len() == self@.width);
                }
                states[row][col]
            },
            None => CellState::Blank,
        }
    }

    /// The number of columns.
    pub fn width(&self) -> (w: usize)
        ensures
            w == self@.width,
    {
        self.width
    }

    /// The number of rows.
    pub fn height(&self) -> (h: usize)
        ensures
            h == self@.height,
    {
        self.height
    }

    /// The state of cell `(row, col)`.
    pub fn state(&self, row: usize, col: usize) -> (s: CellState)
        requires
            self@.is_grid(),
            self@.has_cell(row as int, col as int),
        ensures
            s == self@.state(row as int, col as int),
    {
        proof {
            assert(self@.states[row as int].len() == self@.width);
        }
        self.cells[row][col].state()
    }

    /// The region tag of cell `(row, col)`.
    pub fn region(&self, row: usize, col: usize) -> (tag: usize)
        requires
            self@.is_grid(),
            self@.has_cell(row as int, col as int),
        ensures
            tag == self@.tag(row as int, col as int),
    {
        proof {
            assert(self@.states[row as int].len() == self@.width);
        }
        self.cells[row][col].region()
    }

    /// The number of regions.
    pub fn region_count(&self) -> (n: usize)
        ensures
            n == self@.regions.len(),
    {
        self.regions.len()
    }

    /// The cells kept in the region list with the given index, in row-major
    /// order. The lists stand in ascending order of their regions' tags.
    pub fn region_cells(&self, index: usize) -> (list: &Vec<(usize, usize)>)
        requires
            index < self@.regions.len(),
        ensures
            list@ == self@.regions[index as int],
    {
        &self.regions[index]
    }

    /// A copy of all region lists.
    pub fn regions_snapshot(&self) -> (lists: Vec<Vec<(usize, usize)>>)
        ensures
            rows_of(lists@) == self@.regions,
    {
        let lists = copy_lists(&self.regions);
        proof {
            assert(rows_of(self.regions@) =~= self@.regions);
        }
        lists
    }

    /// Puts `list` in the place of the region list with the given index.
    pub(crate) fn replace_region(&mut self, index: usize, list: Vec<(usize, usize)>)
        requires
            index < old(self)@.regions.len(),
        ensures
            final(self)@ == old(self)@.with_regions(
                old(self)@.regions.update(index as int, list@),
            ),
    {
        self.regions[index] = list;
        proof {
            assert(self@ =~~= old(self)@.with_regions(
                old(self)@.regions.update(index as int, list@),
            ));
        }
    }

    /// Fills cell `(row, col)` if it is blank; nothing else changes.
    pub fn shade_coords(&mut self, row: usize, col: usize)
        requires
            old(self)@.is_grid(),
            old(self)@.has_cell(row as int, col as int),
        ensures
            final(self)@ == old(self)@.shade(row as int, col as int),
            old(self)@.shades_to(final(self)@),
            old(self)@.wf() ==> final(self)@.wf(),
    {
        proof {
            assert(self@.states[row as int].len() == self@.width);
        }
        self.cells[row][col].shade();
        proof {
            assert(self@ =~~= old(self)@.shade(row as int, col as int));
            lemma_step_keeps_wf(old(self)@, self@);
        }
    }

    /// Puts a star in cell `(row, col)` if it is blank; nothing else changes.
    pub fn star_coords(&mut self, row: usize, col: usize)
        requires
            old(self)@.is_grid(),
            old(self)@.has_cell(row as int, col as int),
        ensures
            final(self)@ == old(self)@.star(row as int, col as int),
            old(self)@.evolves_to(final(self)@),
            old(self)@.wf() ==> final(self)@.wf(),
    {
        proof {
            assert(self@.states[row as int].len() == self@.width);
        }
        self.cells[row][col].star();
        proof {
            assert(self@ =~~= old(self)@.star(row as int, col as int));
            lemma_step_keeps_wf(old(self)@, self@);
        }
    }
}

} // verus!
