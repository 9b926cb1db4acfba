//! A verified engine for Conway's Game of Life on a bounded grid.
//!
//! The engine keeps one generation of history per cell in a bit-shift
//! register, which lets it advance the board in place (one row-major sweep,
//! no second buffer) and rewind exactly one generation.

pub mod cell;
pub mod control;
pub mod game;
pub mod render;
pub mod rules;

pub use cell::Cell;
pub use game::Game;
