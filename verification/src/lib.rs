//! A 9-by-9 Sudoku solver based on exhaustive backtracking search.
//!
//! The `grid` module holds the board, its mathematical model, and the two
//! point queries the search needs (first empty cell, legality of a
//! placement). The `solver` module performs the depth-first search with
//! try/undo backtracking, against a specification-level description of the
//! same search. The `laws` module proves the global guarantees: a solvable
//! puzzle yields a fully valid grid, given clues are never altered, the
//! search is deterministic, and a consistent puzzle without a completion is
//! reported unsolvable.

pub mod grid;
pub mod laws;
pub mod solver;
