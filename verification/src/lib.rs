//! A 9x9 constraint-puzzle grid: construction with validation, the
//! row/column/box uniqueness check, and a backtracking solver, all with
//! machine-checked contracts.

pub mod grid;
pub mod rules;

pub use grid::Sudoku;
pub use grid::SudokuError;
