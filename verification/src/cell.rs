//! Cells and their three states.

use vstd::prelude::*;

verus! {

/// What is known about one cell.
#[derive(Clone, Copy, Debug, PartialEq, Eq, Structural)]
pub enum CellState {
    /// Nothing decided yet.
    Blank,
    /// The cell holds a star.
    Star,
    /// The cell is proved to hold no star.
    Filled,
}

impl CellState {
    /// The state after shading: a blank cell becomes filled, any other state
    /// stays.
    pub open spec fn shaded(self) -> CellState {
        if self is Blank {
            CellState::Filled
        } else {
            self
        }
    }

    /// The state after starring: a blank cell becomes a star, any other state
    /// stays.
    pub open spec fn starred(self) -> CellState {
        if self is Blank {
            CellState::Star
        } else {
            self
        }
    }

    /// A state may only move from blank to a decided state, or stay.
    pub open spec fn may_become(self, next: CellState) -> bool {
        next == self || self is Blank
    }

    /// The character a decided or blank state is drawn with.
    pub open spec fn symbol_spec(self) -> char {
        match self {
            CellState::Blank => '-',
            CellState::Star => 'X',
            CellState::Filled => '#',
        }
    }

    /// `-` for blank, `X` for a star, `#` for a filled cell.
    pub fn symbol(&self) -> (c: char)
        ensures
            c == self.symbol_spec(),
    {
        match self {
            CellState::Blank => '-',
            CellState::Star => 'X',
            CellState::Filled => '#',
        }
    }
}

/// One position of the grid: the tag of the region it belongs to, and its
/// state.
#[derive(Clone, Copy, Debug, PartialEq, Eq, Structural)]
pub struct Cell {
    /// The tag of the cell's region.
    region: usize,
    state: CellState,
}

impl Cell {
    /// The tag of the cell's region.
    pub closed spec fn tag(self) -> usize {
        self.region
    }

    /// The cell's state.
    pub closed spec fn status(self) -> CellState {
        self.state
    }

    /// Two cells with the same tag and the same state are the same cell.
    pub proof fn lemma_same_cell(a: Cell, b: Cell)
        requires
            a.tag() == b.tag(),
            a.status() == b.status(),
        ensures
            a == b,
    {
    }

    /// A blank cell of the given region.
    pub fn blank(region: usize) -> (cell: Cell)
        ensures
            cell.tag() == region,
            cell.status() is Blank,
    {
        Cell { region, state: CellState::Blank }
    }

    /// A cell of the given region and state.
    pub fn new(region: usize, state: CellState) -> (cell: Cell)
        ensures
            cell.tag() == region,
            cell.status() == state,
    {
        Cell { region, state }
    }

    /// The tag of the cell's region.
    pub fn region(&self) -> (tag: usize)
        ensures
            tag == self.tag(),
    {
        self.region
    }

    /// The cell's state.
    pub fn state(&self) -> (state: CellState)
        ensures
            state == self.status(),
    {
        self.state
    }

    /// Fills the cell if it is blank; the tag stays.
    pub fn shade(&mut self)
        ensures
            final(self).tag() == old(self).tag(),
            final(self).status() == old(self).status().shaded(),
    {
        if self.state == CellState::Blank {
            self.state = CellState::Filled;
        }
    }

    /// Puts a star in the cell if it is blank; the tag stays.
    pub fn star(&mut self)
        ensures
            final(self).tag() == old(self).tag(),
            final(self).status() == old(self).status().starred(),
    {
        if self.state == CellState::Blank {
            self.state = CellState::Star;
        }
    }
}

} // verus!
