//! Conway's Game of Life on a fixed-size toroidal grid.
//!
//! The grid is a flat, row-major sequence of cells. Every cell stores its
//! own column/row coordinate and the linear indices of its eight neighbours
//! under wraparound, so that advancing a generation only has to count and
//! compare.

pub mod bitmap;
pub mod cell;
pub mod error;
pub mod game;
pub mod random;
pub mod rules;
pub mod settings;
pub mod topology;
