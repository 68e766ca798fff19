//! The propagation rules, one module each.
//!
//! The shading rules fill blank cells: [`saturation`], [`star_adjacency`],
//! [`middle`] and [`contiguity`]. The placement rules put stars in blank
//! cells: [`placement`] for rows and columns, [`region_placement`] for
//! regions.

pub mod contiguity;
pub mod middle;
pub mod placement;
pub mod region_placement;
pub mod saturation;
pub mod star_adjacency;
