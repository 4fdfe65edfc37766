//! A 9x9 number-placement solver.
//!
//! The grid is a flat, row-major sequence of 81 cells, each holding a digit
//! (0 for empty, 1..=9 for a placed digit) and a flag telling whether the
//! digit was given by the puzzle. The solver walks the free cells in index
//! order and completes the grid by chronological backtracking, or answers
//! `Unsolvable` once the search has exhausted every revisable choice.

pub mod checks;
pub mod grid;
pub mod laws;
pub mod rows;
pub mod solver;
