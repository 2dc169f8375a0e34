//! A verified minesweeper board engine.
//!
//! The [`board::MineSweeper`] type owns a rectangular grid of cells, places
//! mines at construction, tracks which cells have been revealed, and computes
//! per-cell neighboring-mine counts.  [`board::MineSweeper::render`] projects
//! the board onto a grid of glyphs.

mod board;
mod laws;
mod render;
mod rng;

pub use board::BoardError;
pub use board::MineSweeper;
pub use board::OpenResult;
