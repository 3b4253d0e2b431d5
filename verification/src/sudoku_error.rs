use vstd::prelude::*;

verus! {

/// Why a solver gave no board back.
#[derive(Clone, Copy, Debug, PartialEq, Eq, Structural)]
pub enum SudokuError {
    /// The board breaks a constraint already, or no way of filling its empty
    /// cells satisfies all of them.
    NoSolution,
}

} // verus!
