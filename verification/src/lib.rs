//! A deductive solver for Star Battle puzzles with two stars per row, column
//! and region.
//!
//! A puzzle is a grid whose cells are partitioned into regions. A solution
//! places two stars in every row, every column and every region so that no
//! two stars touch, not even diagonally. The solver does not search: it
//! applies propagation rules, each of which promotes blank cells to stars or
//! to filled cells, until no rule changes anything. What is left may still
//! hold blanks.
//!
//! A [`Board`] is built from a matrix of region tags by [`Board::new`] and
//! solved in place by [`Board::solve`]. Every contract is stated over the
//! board's mathematical view, [`model::BoardView`]; each rule and each
//! driver has a function on views that says exactly what it computes, and
//! the executable code is proved to compute it.
//!
//! * [`cell`], [`geometry`], [`errors`]: cells, the king-move
//!   neighbourhood, and what can be reported.
//! * [`model`], [`input`], [`evolution`]: the view of a board, what the
//!   constructor accepts, and how a board may change.
//! * [`board`], [`grouping`], [`snapshot`], [`lines`], [`regions`]: the
//!   board itself with its two primitives, the grouping of cells by tag,
//!   copies and comparison, rows and columns read as lines, and the region
//!   lists.
//! * [`rules`]: the propagation rules.
//! * [`enforce`], [`solve`], [`outcome`], [`settled`]: the two fixed-point
//!   loops, how a step can end, and what holds of a board once the rules
//!   have nothing left to do.
//! * [`checks`]: stars side by side, and the comparison with a reference
//!   solution.
//! * [`render`]: the board as text.

pub mod board;
pub mod cell;
pub mod checks;
pub mod enforce;
pub mod errors;
pub mod evolution;
pub mod geometry;
pub mod grouping;
pub mod input;
pub mod lines;
pub mod model;
pub mod outcome;
pub mod regions;
pub mod render;
pub mod rules;
pub mod settled;
pub mod snapshot;
pub mod solve;

pub use board::Board;
pub use cell::{Cell, CellState};
pub use errors::{InvalidInput, InvariantViolation};
pub use geometry::adjacencies;
