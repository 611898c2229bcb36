//! Sudoku as a search domain: the puzzle model and its strategies.

pub mod grid;
pub mod strategies;
