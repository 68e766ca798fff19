//! Copies and comparison of the matrices a board is made of.

use crate::cell::{Cell, CellState};
use vstd::prelude::*;

verus! {

/// The rows of a matrix as sequences.
pub open spec fn rows_of<T>(m: Seq<Vec<T>>) -> Seq<Seq<T>> {
    Seq::new(m.len(), |r: int| m[r]@)
}

/// Whether two rows of cells hold the same cells.
pub fn same_cell_row(a: &Vec<Cell>, b: &Vec<Cell>) -> (same: bool)
    ensures
        same == (a@ == b@),
{
    if a.len() != b.len() {
        return false;
    }
    let mut i: usize = 0;
    while i < a.len()
        invariant
            a.len() == b.len(),
            i <= a.len(),
            a@.take(i as int) == b@.take(i as int),
        decreases a.len() - i,
    {
        if a[i] != b[i] {
            return false;
        }
        proof {
            assert(a@.take(i + 1) == a@.take(i as int).push(a@[i as int]));
            assert(b@.take(i + 1) == b@.take(i as int).push(b@[i as int]));
        }
        i = i + 1;
    }
    proof {
        assert(a@.take(a.len() as int) == a@);
        assert(b@.take(b.len() as int) == b@);
    }
    true
}

/// Whether two rows of states hold the same states.
pub fn same_state_row(a: &Vec<CellState>, b: &Vec<CellState>) -> (same: bool)
    ensures
        same == (a@ == b@),
{
    if a.len() != b.len() {
        return false;
    }
    let mut i: usize = 0;
    while i < a.len()
        invariant
            a.len() == b.len(),
            i <= a.len(),
            a@.take(i as int) == b@.take(i as int),
        decreases a.len() - i,
    {
        if a[i] != b[i] {
            return false;
        }
        proof {
            assert(a@.take(i + 1) == a@.take(i as int).push(a@[i as int]));
            assert(b@.take(i + 1) == b@.take(i as int).push(b@[i as int]));
        }
        i = i + 1;
    }
    proof {
        assert(a@.take(a.len() as int) == a@);
        assert(b@.take(b.len() as int) == b@);
    }
    true
}

/// Whether two lists of coordinates hold the same coordinates.
pub fn same_coords(a: &Vec<(usize, usize)>, b: &Vec<(usize, usize)>) -> (same: bool)
    ensures
        same == (a@ == b@),
{
    if a.len() != b.len() {
        return false;
    }
    let mut i: usize = 0;
    while i < a.len()
        invariant
            a.len() == b.len(),
            i <= a.len(),
            a@.take(i as int) == b@.take(i as int),
        decreases a.len() - i,
    {
        if a[i].0 != b[i].0 || a[i].1 != b[i].1 {
            return false;
        }
        proof {
            assert(a@.take(i + 1) == a@.take(i as int).push(a@[i as int]));
            assert(b@.take(i + 1) == b@.take(i as int).push(b@[i as int]));
        }
        i = i + 1;
    }
    proof {
        assert(a@.take(a.len() as int) == a@);
        assert(b@.take(b.len() as int) == b@);
    }
    true
}

/// Whether two matrices of cells are equal row by row.
pub fn same_cells(a: &Vec<Vec<Cell>>, b: &Vec<Vec<Cell>>) -> (same: bool)
    ensures
        same == (rows_of(a@) == rows_of(b@)),
{
    if a.len() != b.len() {
        proof {
            assert(rows_of(a@).len() != rows_of(b@).len());
        }
        return false;
    }
    let mut r: usize = 0;
    while r < a.len()
        invariant
            a.len() == b.len(),
            r <= a.len(),
            forall|k: int| 0 <= k < r ==> (#[trigger] a@[k])@ == b@[k]@,
        decreases a.len() - r,
    {
        if !same_cell_row(&a[r], &b[r]) {
            proof {
                assert(rows_of(a@)[r as int] != rows_of(b@)[r as int]);
            }
            return false;
        }
        r = r + 1;
    }
    proof {
        assert(rows_of(a@) =~= rows_of(b@));
    }
    true
}

/// Whether two matrices of states are equal row by row.
pub fn same_states(a: &Vec<Vec<CellState>>, b: &Vec<Vec<CellState>>) -> (same: bool)
    ensures
        same == (rows_of(a@) == rows_of(b@)),
{
    if a.len() != b.len() {
        proof {
            assert(rows_of(a@).len() != rows_of(b@).len());
        }
        return false;
    }
    let mut r: usize = 0;
    while r < a.len()
        invariant
            a.len() == b.len(),
            r <= a.len(),
            forall|k: int| 0 <= k < r ==> (#[trigger] a@[k])@ == b@[k]@,
        decreases a.len() - r,
    {
        if !same_state_row(&a[r], &b[r]) {
            proof {
                assert(rows_of(a@)[r as int] != rows_of(b@)[r as int]);
            }
            return false;
        }
        r = r + 1;
    }
    proof {
        assert(rows_of(a@) =~= rows_of(b@));
    }
    true
}

/// Whether two families of coordinate lists are equal list by list.
pub fn same_lists(a: &Vec<Vec<(usize, usize)>>, b: &Vec<Vec<(usize, usize)>>) -> (same: bool)
    ensures
        same == (rows_of(a@) == rows_of(b@)),
{
    if a.len() != b.len() {
        proof {
            assert(rows_of(a@).len() != rows_of(b@).len());
        }
        return false;
    }
    let mut r: usize = 0;
    while r < a.len()
        invariant
            a.len() == b.len(),
            r <= a.len(),
            forall|k: int| 0 <= k < r ==> (#[trigger] a@[k])@ == b@[k]@,
        decreases a.len() - r,
    {
        if !same_coords(&a[r], &b[r]) {
            proof {
                assert(rows_of(a@)[r as int] != rows_of(b@)[r as int]);
            }
            return false;
        }
        r = r + 1;
    }
    proof {
        assert(rows_of(a@) =~= rows_of(b@));
    }
    true
}

/// A copy of a row of cells.
pub fn copy_cell_row(a: &Vec<Cell>) -> (copy: Vec<Cell>)
    ensures
        copy@ == a@,
{
    let mut copy: Vec<Cell> = Vec::new();
    let mut i: usize = 0;
    while i < a.len()
        invariant
            i <= a.len(),
            copy@ == a@.take(i as int),
        decreases a.len() - i,
    {
        copy.push(a[i]);
        proof {
            assert(a@.take(i + 1) == a@.take(i as int).push(a@[i as int]));
        }
        i = i + 1;
    }
    proof {
        assert(a@.take(a.len() as int) == a@);
    }
    copy
}

/// A copy of a row of states.
pub fn copy_state_row(a: &Vec<CellState>) -> (copy: Vec<CellState>)
    ensures
        copy@ == a@,
{
    let mut copy: Vec<CellState> = Vec::new();
    let mut i: usize = 0;
    while i < a.len()
        invariant
            i <= a.len(),
            copy@ == a@.take(i as int),
        decreases a.len() - i,
    {
        copy.push(a[i]);
        proof {
            assert(a@.take(i + 1) == a@.take(i as int).push(a@[i as int]));
        }
        i = i + 1;
    }
    proof {
        assert(a@.take(a.len() as int) == a@);
    }
    copy
}

/// A copy of a list of coordinates.
pub fn copy_coords(a: &Vec<(usize, usize)>) -> (copy: Vec<(usize, usize)>)
    ensures
        copy@ == a@,
{
    let mut copy: Vec<(usize, usize)> = Vec::new();
    let mut i: usize = 0;
    while i < a.len()
        invariant
            i <= a.len(),
            copy@ == a@.take(i as int),
        decreases a.len() - i,
    {
        copy.push(a[i]);
        proof {
            assert(a@.take(i + 1) == a@.take(i as int).push(a@[i as int]));
        }
        i = i + 1;
    }
    proof {
        assert(a@.take(a.len() as int) == a@);
    }
    copy
}

/// A copy of a matrix of cells.
pub fn copy_cells(a: &Vec<Vec<Cell>>) -> (copy: Vec<Vec<Cell>>)
    ensures
        rows_of(copy@) == rows_of(a@),
{
    let mut copy: Vec<Vec<Cell>> = Vec::new();
    let mut r: usize = 0;
    while r < a.len()
        invariant
            r <= a.len(),
            copy@.len() == r,
            forall|k: int| 0 <= k < r ==> (#[trigger] copy@[k])@ == a@[k]@,
        decreases a.len() - r,
    {
        copy.push(copy_cell_row(&a[r]));
        r = r + 1;
    }
    proof {
        assert(rows_of(copy@) =~= rows_of(a@));
    }
    copy
}

/// A copy of a matrix of states.
pub fn copy_states(a: &Vec<Vec<CellState>>) -> (copy: Vec<Vec<CellState>>)
    ensures
        rows_of(copy@) == rows_of(a@),
{
    let mut copy: Vec<Vec<CellState>> = Vec::new();
    let mut r: usize = 0;
    while r < a.len()
        invariant
            r <= a.len(),
            copy@.len() == r,
            forall|k: int| 0 <= k < r ==> (#[trigger] copy@[k])@ == a@[k]@,
        decreases a.len() - r,
    {
        copy.push(copy_state_row(&a[r]));
        r = r + 1;
    }
    proof {
        assert(rows_of(copy@) =~= rows_of(a@));
    }
    copy
}

/// A copy of a family of coordinate lists.
pub fn copy_lists(a: &Vec<Vec<(usize, usize)>>) -> (copy: Vec<Vec<(usize, usize)>>)
    ensures
        rows_of(copy@) == rows_of(a@),
{
    let mut copy: Vec<Vec<(usize, usize)>> = Vec::new();
    let mut r: usize = 0;
    while r < a.len()
        invariant
            r <= a.len(),
            copy@.len() == r,
            forall|k: int| 0 <= k < r ==> (#[trigger] copy@[k])@ == a@[k]@,
        decreases a.len() - r,
    {
        copy.push(copy_coords(&a[r]));
        r = r + 1;
    }
    proof {
        assert(rows_of(copy@) =~= rows_of(a@));
    }
    copy
}

} // verus!
