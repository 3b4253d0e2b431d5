//! What the two controls of a front end do to the board on display.

use vstd::prelude::*;
use crate::grid::Grid;
use crate::solver::{depth_first_outcome, solve_sudoku};
use crate::sudoku::{grid_of, Sudoku};
use crate::sudoku_error::SudokuError;

verus! {

/// A control that the user can work.
#[derive(Clone, Copy, Debug, PartialEq, Eq, Structural)]
pub enum Control {
    /// Replace the board on display by its solution.
    Solve,
    /// Go back to the starting board.
    Reset,
}

/// The cells of the board that a front end starts with, and comes back to on
/// `Reset`: a solved board with its first row emptied.
pub open spec fn starting_grid() -> Grid {
    seq![
        seq![0u8, 0u8, 0u8, 0u8, 0u8, 0u8, 0u8, 0u8, 0u8],
        seq![2u8, 9u8, 6u8, 8u8, 5u8, 7u8, 4u8, 3u8, 1u8],
        seq![4u8, 1u8, 7u8, 2u8, 9u8, 3u8, 6u8, 5u8, 8u8],
        seq![5u8, 6u8, 9u8, 1u8, 3u8, 4u8, 7u8, 8u8, 2u8],
        seq![1u8, 2u8, 3u8, 6u8, 7u8, 8u8, 5u8, 4u8, 9u8],
        seq![7u8, 4u8, 8u8, 5u8, 2u8, 9u8, 1u8, 6u8, 3u8],
        seq![6u8, 5u8, 2u8, 7u8, 8u8, 1u8, 3u8, 9u8, 4u8],
        seq![9u8, 8u8, 1u8, 3u8, 4u8, 5u8, 2u8, 7u8, 6u8],
        seq![3u8, 7u8, 4u8, 9u8, 6u8, 2u8, 8u8, 1u8, 5u8],
    ]
}

/// The board that a front end starts with.
pub fn starting_board() -> (board: Sudoku)
    ensures
        board@ == starting_grid(),
{
    let values: [[u8; 9]; 9] = [
        [0, 0, 0, 0, 0, 0, 0, 0, 0],
        [2, 9, 6, 8, 5, 7, 4, 3, 1],
        [4, 1, 7, 2, 9, 3, 6, 5, 8],
        [5, 6, 9, 1, 3, 4, 7, 8, 2],
        [1, 2, 3, 6, 7, 8, 5, 4, 9],
        [7, 4, 8, 5, 2, 9, 1, 6, 3],
        [6, 5, 2, 7, 8, 1, 3, 9, 4],
        [9, 8, 1, 3, 4, 5, 2, 7, 6],
        [3, 7, 4, 9, 6, 2, 8, 1, 5],
    ];
    proof {
        let g = grid_of(values);
        assert forall|r: int| 0 <= r < 9 implies #[trigger] g[r] =~= starting_grid()[r] by {}
        assert(g =~= starting_grid());
    }
    Sudoku::new(values)
}

/// What working `control` owes for a board with the cells `g` on display.
pub open spec fn control_outcome(
    g: Grid,
    control: Control,
    result: Result<Sudoku, SudokuError>,
) -> bool {
    match control {
        Control::Solve => depth_first_outcome(g, result),
        Control::Reset => result matches Ok(board) && board@ == starting_grid(),
    }
}

/// The board to display after the user has worked `control`. `Solve` gives
/// the depth-first solution of `board`, or the error that says there is none,
/// in which case the front end keeps `board`; `Reset` always gives the
/// starting board.
pub fn apply(board: &Sudoku, control: Control) -> (result: Result<Sudoku, SudokuError>)
    ensures
        control_outcome(board@, control, result),
{
    match control {
        Control::Solve => solve_sudoku(board),
        Control::Reset => Ok(starting_board()),
    }
}

} // verus!
