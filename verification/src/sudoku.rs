//! The board type and its constraint checks.

use vstd::prelude::*;
use crate::grid::{
    box_cell, box_of, box_ok, clash, col_ok, empty_grid, first_empty_at, full, is_grid, row_ok,
    set_cell, solved, valid, valid_around, Grid,
};
use std::collections::HashSet;

verus! {

broadcast use vstd::std_specs::hash::group_hash_axioms;

/// One 9×9 board. A cell holds a digit from 1 to 9, or 0 when it is empty.
///
/// A board is a plain value: `set` gives a new board and leaves the receiver
/// as it was. Nothing is promised about the Sudoku constraints until `verify`
/// has been asked.
#[derive(PartialEq, Eq, Hash, Copy, Clone, Debug)]
pub struct Sudoku {
    data: [[u8; 9]; 9],
}

/// The matrix that a 9×9 array of digits stands for.
pub open spec fn grid_of(values: [[u8; 9]; 9]) -> Grid {
    Seq::new(9, |r: int| values[r]@)
}

impl View for Sudoku {
    type V = Grid;

    closed spec fn view(&self) -> Grid {
        grid_of(self.data)
    }
}

impl Sudoku {
    /// Every cell holds a digit from 0 to 9.
    #[verifier::type_invariant]
    pub open spec fn wf(&self) -> bool {
        is_grid(self@)
    }

    /// Boards are plain values: two boards with the same cells are the same
    /// board.
    pub proof fn lemma_same_cells_same_board(self, other: Sudoku)
        requires
            self@ == other@,
        ensures
            self == other,
    {
        assert forall|r: int| 0 <= r < 9 implies self.data[r] == other.data[r] by {
            assert(self@[r] == self.data[r]@);
            assert(other@[r] == other.data[r]@);
            assert forall|c: int| 0 <= c < 9 implies self.data[r][c] == other.data[r][c] by {
                assert(self.data[r]@[c] == other.data[r]@[c]);
            }
            assert(self.data[r] =~= other.data[r]);
        }
        assert(self.data =~= other.data);
    }

    /// A board with the given cells.
    pub fn new(values: [[u8; 9]; 9]) -> (sudoku: Sudoku)
        requires
            is_grid(grid_of(values)),
        ensures
            sudoku@ == grid_of(values),
    {
        Sudoku { data: values }
    }

    /// The digit at (`row`, `col`), 0 for an empty cell.
    pub fn get(&self, row: usize, col: usize) -> (value: u8)
        requires
            row < 9,
            col < 9,
        ensures
            value == self@[row as int][col as int],
            value <= 9,
    {
        proof {
            use_type_invariant(self);
            assert(self@[row as int][col as int] == self.data[row as int][col as int]);
        }
        self.data[row][col]
    }

    /// A new board that differs from this one at (`row`, `col`) only, where it
    /// holds `val`.
    pub fn set(self, row: usize, col: usize, val: u8) -> (sudoku: Sudoku)
        requires
            row < 9,
            col < 9,
            val <= 9,
        ensures
            sudoku@ == set_cell(self@, row as int, col as int, val),
    {
        proof {
            use_type_invariant(self);
        }
        let mut data = self.data;
        let mut cells = data[row];
        cells[col] = val;
        data[row] = cells;
        proof {
            let after = grid_of(data);
            let wanted = set_cell(self@, row as int, col as int, val);
            assert forall|r: int| 0 <= r < 9 implies #[trigger] after[r] =~= wanted[r] by {
                assert(self@[r] == self.data[r]@);
            }
            assert(after =~= wanted);
            assert forall|r: int, c: int| 0 <= r < 9 && 0 <= c < 9 implies #[trigger] wanted[r][c]
                <= 9 by {
                assert(self@[r][c] <= 9);
            }
        }
        Sudoku { data }
    }

    /// Whether row `row` is free of repeated digits.
    pub fn verify_row(&self, row: usize) -> (ok: bool)
        requires
            row < 9,
        ensures
            ok == row_ok(self@, row as int),
    {
        let mut seen: HashSet<u8> = HashSet::new();
        let ghost g = self@;
        for col in 0..9usize
            invariant
                row < 9,
                g == self@,
                forall|i: int| 0 <= i < col ==> seen@.contains(#[trigger] g[row as int][i]),
                forall|v: u8|
                    seen@.contains(v) ==> exists|i: int| 0 <= i < col && g[row as int][i] == v,
                forall|i: int, j: int|
                    0 <= i < j < col ==> !clash(
                        #[trigger] g[row as int][i],
                        #[trigger] g[row as int][j],
                    ),
        {
            let value: u8 = self.get(row, col);
            if value != 0 && seen.contains(&value) {
                proof {
                    let i = choose|i: int| 0 <= i < col && g[row as int][i] == value;
                    assert(clash(g[row as int][i], g[row as int][col as int]));
                }
                return false;
            }
            seen.insert(value);
        }
        true
    }

    /// Whether column `col` is free of repeated digits.
    pub fn verify_col(&self, col: usize) -> (ok: bool)
        requires
            col < 9,
        ensures
            ok == col_ok(self@, col as int),
    {
        let mut seen: HashSet<u8> = HashSet::new();
        let ghost g = self@;
        for row in 0..9usize
            invariant
                col < 9,
                g == self@,
                forall|i: int| 0 <= i < row ==> seen@.contains(#[trigger] g[i][col as int]),
                forall|v: u8|
                    seen@.contains(v) ==> exists|i: int| 0 <= i < row && g[i][col as int] == v,
                forall|i: int, j: int|
                    0 <= i < j < row ==> !clash(
                        #[trigger] g[i][col as int],
                        #[trigger] g[j][col as int],
                    ),
        {
            let value: u8 = self.get(row, col);
            if value != 0 && seen.contains(&value) {
                proof {
                    let i = choose|i: int| 0 <= i < row && g[i][col as int] == value;
                    assert(clash(g[i][col as int], g[row as int][col as int]));
                }
                return false;
            }
            seen.insert(value);
        }
        true
    }

    /// Whether box `box_index` is free of repeated digits.
    pub fn verify_box_by_index(&self, box_index: usize) -> (ok: bool)
        requires
            box_index < 9,
        ensures
            ok == box_ok(self@, box_index as int),
    {
        self.verify_box(3 * (box_index / 3), 3 * (box_index % 3))
    }

    /// Whether the box that holds the cell at (`row`, `col`) is free of
    /// repeated digits.
    pub fn verify_box(&self, row: usize, col: usize) -> (ok: bool)
        requires
            row < 9,
            col < 9,
        ensures
            ok == box_ok(self@, box_of(row as int, col as int)),
    {
        let mut seen: HashSet<u8> = HashSet::new();
        let top: usize = row - (row % 3);
        let left: usize = col - (col % 3);
        let ghost g = self@;
        let ghost b = box_of(row as int, col as int);
        for i in 0..3usize
            invariant
                g == self@,
                b == box_of(row as int, col as int),
                0 <= b < 9,
                top == 3 * (b / 3),
                left == 3 * (b % 3),
                forall|k: int| 0 <= k < 3 * i ==> seen@.contains(#[trigger] box_cell(g, b, k)),
                forall|v: u8|
                    seen@.contains(v) ==> exists|k: int| 0 <= k < 3 * i && box_cell(g, b, k) == v,
                forall|k: int, l: int|
                    0 <= k < l < 3 * i ==> !clash(
                        #[trigger] box_cell(g, b, k),
                        #[trigger] box_cell(g, b, l),
                    ),
        {
            for j in 0..3usize
                invariant
                    g == self@,
                    b == box_of(row as int, col as int),
                    0 <= b < 9,
                    i < 3,
                    top == 3 * (b / 3),
                    left == 3 * (b % 3),
                    forall|k: int|
                        0 <= k < 3 * i + j ==> seen@.contains(#[trigger] box_cell(g, b, k)),
                    forall|v: u8|
                        seen@.contains(v) ==> exists|k: int|
                            0 <= k < 3 * i + j && box_cell(g, b, k) == v,
                    forall|k: int, l: int|
                        0 <= k < l < 3 * i + j ==> !clash(
                            #[trigger] box_cell(g, b, k),
                            #[trigger] box_cell(g, b, l),
                        ),
            {
                let value: u8 = self.get(top + i, left + j);
                assert(value == box_cell(g, b, 3 * i + j));
                if value != 0 && seen.contains(&value) {
                    proof {
                        let k = choose|k: int| 0 <= k < 3 * i + j && box_cell(g, b, k) == value;
                        assert(clash(box_cell(g, b, k), box_cell(g, b, 3 * i + j)));
                    }
                    return false;
                }
                seen.insert(value);
            }
        }
        true
    }

    /// Whether every row, every column and every box is free of repeated
    /// digits. Empty cells never count as repeats of each other.
    pub fn verify(&self) -> (ok: bool)
        ensures
            ok == valid(self@),
    {
        for row in 0..9usize
            invariant
                forall|r: int| 0 <= r < row ==> #[trigger] row_ok(self@, r),
        {
            if !self.verify_row(row) {
                return false;
            }
        }
        for col in 0..9usize
            invariant
                forall|r: int| 0 <= r < 9 ==> #[trigger] row_ok(self@, r),
                forall|c: int| 0 <= c < col ==> #[trigger] col_ok(self@, c),
        {
            if !self.verify_col(col) {
                return false;
            }
        }
        for box_index in 0..9usize
            invariant
                forall|r: int| 0 <= r < 9 ==> #[trigger] row_ok(self@, r),
                forall|c: int| 0 <= c < 9 ==> #[trigger] col_ok(self@, c),
                forall|b: int| 0 <= b < box_index ==> #[trigger] box_ok(self@, b),
        {
            if !self.verify_box_by_index(box_index) {
                return false;
            }
        }
        true
    }

    /// Whether placing `val` at (`row`, `col`) would leave that cell's row,
    /// column and box free of repeated digits. The rest of the board is not
    /// looked at.
    pub fn is_valid_to_set(self, row: usize, col: usize, val: u8) -> (ok: bool)
        requires
            row < 9,
            col < 9,
            val <= 9,
        ensures
            ok == valid_around(
                set_cell(self@, row as int, col as int, val),
                row as int,
                col as int,
            ),
    {
        let copy = self.set(row, col, val);
        copy.verify_row(row) && copy.verify_col(col) && copy.verify_box(
            row - (row % 3),
            col - (col % 3),
        )
    }

    /// The first empty cell when the board is read row by row, if there is
    /// one.
    pub fn first_empty(&self) -> (cell: Option<(usize, usize)>)
        ensures
            match cell {
                Some((row, col)) => first_empty_at(self@, row as int, col as int),
                None => full(self@),
            },
    {
        for row in 0..9usize
            invariant
                forall|i: int, j: int| 0 <= i < row && 0 <= j < 9 ==> #[trigger] self@[i][j] != 0,
        {
            for col in 0..9usize
                invariant
                    row < 9,
                    forall|i: int, j: int|
                        0 <= i < row && 0 <= j < 9 ==> #[trigger] self@[i][j] != 0,
                    forall|j: int| 0 <= j < col ==> #[trigger] self@[row as int][j] != 0,
            {
                if self.get(row, col) == 0 {
                    return Some((row, col));
                }
            }
        }
        None
    }

    /// Whether every cell is filled and every constraint holds.
    pub fn is_solved(&self) -> (ok: bool)
        ensures
            ok == solved(self@),
    {
        match self.first_empty() {
            Some(_) => false,
            None => self.verify(),
        }
    }
}

impl Default for Sudoku {
    /// The board with no cell filled.
    fn default() -> (sudoku: Sudoku)
        ensures
            sudoku@ == empty_grid(),
    {
        let cells: [u8; 9] = [0u8; 9];
        let data: [[u8; 9]; 9] = [cells; 9];
        proof {
            let g = grid_of(data);
            assert forall|r: int| 0 <= r < 9 implies #[trigger] g[r] =~= empty_grid()[r] by {
                assert(data[r] == cells);
            }
            assert(g =~= empty_grid());
        }
        Sudoku { data }
    }
}

} // verus!
