//! Conway's Game of Life on a fixed, bounded grid.

pub mod gameoflife;
pub mod laws;
pub mod rules;
