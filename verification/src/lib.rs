//! Conway's Game of Life on a square torus.
//!
//! [`Universe`] owns a flat, row-major buffer of [`Cell`]s and advances it one
//! generation at a time. Every executable function has a contract over
//! [`Grid`], the mathematical model of a universe; [`laws`] and [`patterns`]
//! hold what is proved of every grid.

pub mod cell;
pub mod grid;
pub mod laws;
pub mod patterns;
pub mod universe;

pub use cell::Cell;
pub use grid::Grid;
pub use universe::{Universe, HEIGHT, WIDTH};
