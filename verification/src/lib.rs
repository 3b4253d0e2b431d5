//! A 9×9 Sudoku board with constraint checking, and two exhaustive solvers.
//!
//! - [`sudoku`] holds the board type, [`grid`] the matrix of digits that a
//!   board stands for and the constraints on it.
//! - [`solver`] holds the two searches, [`completion`] what they look for: the
//!   solutions of a grid, and the order that ranks them.
//! - [`display`] draws a board as text, and [`controls`] says what the
//!   controls of a front end do to the board on display.
//! - [`laws`] collects what holds of every board.

pub mod completion;
pub mod controls;
pub mod display;
pub mod grid;
pub mod laws;
pub mod solver;
pub mod sudoku;
pub mod sudoku_error;
mod work_list;

pub use crate::solver::{solve_sudoku, solve_sudoku_bfs};
pub use crate::sudoku::Sudoku;
pub use crate::sudoku_error::SudokuError;
