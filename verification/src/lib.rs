//! Conway's Game of Life on a fixed-size toroidal grid.
//!
//! The cells live in a packed bit set, one bit per cell, row after row.
//! [`Universe`] owns the bits; its view is a [`Grid`], the mathematical
//! grid over which every contract is stated.

pub mod bitset;
pub mod grid;
pub mod laws;
pub mod patterns;
pub mod random;
pub mod torus;
pub mod universe;

pub use grid::Grid;
pub use universe::Universe;
