//! Conway's Game of Life on a toroidal grid whose cells are packed into a bit set.

pub mod bitset;
pub mod grid;
pub mod theorems;
pub mod universe;

pub use crate::grid::Grid;
pub use crate::universe::Universe;
