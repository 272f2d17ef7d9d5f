//! Conway's Game of Life on a fixed-size torus.
//!
//! The grid is stored one bit per cell in a `fixedbitset::FixedBitSet`. Every
//! operation is specified against [`board::Board`], a plain mathematical model
//! of the grid, and proved to follow it.

pub mod bitset;
pub mod board;
pub mod laws;
pub mod universe;

pub use universe::Universe;
