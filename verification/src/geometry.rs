//! Grid geometry: the king-move neighbourhood of a cell.

use vstd::prelude::*;

verus! {

/// `(row, col)` names a cell of a grid with `height` rows and `width` columns.
pub open spec fn in_grid(width: int, height: int, row: int, col: int) -> bool {
    0 <= row < height && 0 <= col < width
}

/// Two distinct cells that differ by at most one in both row and column.
pub open spec fn king_adjacent(row: int, col: int, other_row: int, other_col: int) -> bool {
    &&& -1 <= row - other_row <= 1
    &&& -1 <= col - other_col <= 1
    &&& !(row == other_row && col == other_col)
}

/// How many of `index - 1`, `index`, `index + 1` lie in `0..len`, for an
/// `index` that does.
pub open spec fn span(len: int, index: int) -> int {
    1 + (if index > 0 { 1int } else { 0 }) + (if index + 1 < len { 1int } else { 0 })
}

/// `index` is the first or the last of `0..len`.
pub open spec fn on_border(len: int, index: int) -> bool {
    index == 0 || index == len - 1
}

/// The number of king-neighbours of `(row, col)` inside the grid; none for a
/// cell outside it.
pub open spec fn neighbour_count(width: int, height: int, row: int, col: int) -> int {
    if in_grid(width, height, row, col) {
        span(height, row) * span(width, col) - 1
    } else {
        0
    }
}

/// The king-neighbours of `(row, col)` that lie inside the grid, each once,
/// in no particular order. A cell outside the grid has none.
pub fn adjacencies(width: usize, height: usize, row: usize, col: usize) -> (out: Vec<
    (usize, usize),
>)
    ensures
        out@.no_duplicates(),
        forall|r: usize, c: usize|
            #[trigger] out@.contains((r, c)) <==> in_grid(
                width as int,
                height as int,
                row as int,
                col as int,
            ) && in_grid(width as int, height as int, r as int, c as int) && king_adjacent(
                row as int,
                col as int,
                r as int,
                c as int,
            ),
        out@.len() == neighbour_count(width as int, height as int, row as int, col as int),
{
    broadcast use vstd::seq_lib::group_seq_properties;

    let mut out: Vec<(usize, usize)> = Vec::new();
    if row >= height || col >= width {
        return out;
    }
    if row > 0 {
        out.push((row - 1, col));
        if col > 0 {
            out.push((row - 1, col - 1));
        }
        if col < width - 1 {
            out.push((row - 1, col + 1));
        }
    }
    if row < height - 1 {
        out.push((row + 1, col));
        if col > 0 {
            out.push((row + 1, col - 1));
        }
        if col < width - 1 {
            out.push((row + 1, col + 1));
        }
    }
    if col > 0 {
        out.push((row, col - 1));
    }
    if col < width - 1 {
        out.push((row, col + 1));
    }
    proof {
        let a = span(height as int, row as int);
        let b = span(width as int, col as int);
        assert(a * b == if a == 1 {
            b
        } else if a == 2 {
            2 * b
        } else {
            3 * b
        }) by (nonlinear_arith)
            requires
                1 <= a <= 3,
        ;
    }
    out
}

/// A corner cell of a grid at least two cells wide and high has three
/// neighbours, a border cell that is no corner has five, a cell off the
/// border has eight, and a cell outside the grid has none.
pub proof fn lemma_neighbour_counts(width: int, height: int, row: int, col: int)
    ensures
        !in_grid(width, height, row, col) ==> neighbour_count(width, height, row, col) == 0,
        in_grid(width, height, row, col) && width >= 2 && height >= 2 ==> neighbour_count(
            width,
            height,
            row,
            col,
        ) == if on_border(height, row) && on_border(width, col) {
            3int
        } else if on_border(height, row) || on_border(width, col) {
            5int
        } else {
            8int
        },
{
    let a = span(height, row);
    let b = span(width, col);
    assert(a * b == if a == 1 {
        b
    } else if a == 2 {
        2 * b
    } else {
        3 * b
    }) by (nonlinear_arith)
        requires
            1 <= a <= 3,
    ;
}

} // verus!
