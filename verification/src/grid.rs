//! The mathematical model of a board: a 9×9 matrix of digits, with 0 for an
//! empty cell, and the Sudoku constraints stated over it.

use vstd::prelude::*;

verus! {

/// Nine rows of nine cells each.
pub type Grid = Seq<Seq<u8>>;

/// `g` has nine rows of nine cells, each holding a digit from 0 to 9.
pub open spec fn is_grid(g: Grid) -> bool {
    &&& g.len() == 9
    &&& forall|r: int| 0 <= r < 9 ==> (#[trigger] g[r]).len() == 9
    &&& forall|r: int, c: int| 0 <= r < 9 && 0 <= c < 9 ==> #[trigger] g[r][c] <= 9
}

/// The grid with no cell filled.
pub open spec fn empty_grid() -> Grid {
    Seq::new(9, |r: int| Seq::new(9, |c: int| 0u8))
}

/// `g` with the cell at (`r`, `c`) replaced by `v`.
pub open spec fn set_cell(g: Grid, r: int, c: int, v: u8) -> Grid {
    g.update(r, g[r].update(c, v))
}

/// Two cells hold the same digit, and are not empty.
pub open spec fn clash(a: u8, b: u8) -> bool {
    a != 0 && a == b
}

/// No digit occurs twice in row `r`; empty cells do not count.
pub open spec fn row_ok(g: Grid, r: int) -> bool {
    forall|i: int, j: int| 0 <= i < j < 9 ==> !clash(#[trigger] g[r][i], #[trigger] g[r][j])
}

/// No digit occurs twice in column `c`; empty cells do not count.
pub open spec fn col_ok(g: Grid, c: int) -> bool {
    forall|i: int, j: int| 0 <= i < j < 9 ==> !clash(#[trigger] g[i][c], #[trigger] g[j][c])
}

/// The index of the 3×3 box that holds the cell at (`r`, `c`). Boxes are
/// numbered 0 to 8, left to right and then top to bottom.
pub open spec fn box_of(r: int, c: int) -> int {
    3 * (r / 3) + c / 3
}

/// The `k`-th cell of box `b`, counting left to right and then top to bottom
/// from the box's top-left corner at (3·(b/3), 3·(b%3)).
pub open spec fn box_cell(g: Grid, b: int, k: int) -> u8 {
    g[3 * (b / 3) + k / 3][3 * (b % 3) + k % 3]
}

/// No digit occurs twice in box `b`; empty cells do not count.
pub open spec fn box_ok(g: Grid, b: int) -> bool {
    forall|i: int, j: int|
        0 <= i < j < 9 ==> !clash(#[trigger] box_cell(g, b, i), #[trigger] box_cell(g, b, j))
}

/// Every row, every column and every box is free of repeated digits.
pub open spec fn valid(g: Grid) -> bool {
    &&& forall|r: int| 0 <= r < 9 ==> #[trigger] row_ok(g, r)
    &&& forall|c: int| 0 <= c < 9 ==> #[trigger] col_ok(g, c)
    &&& forall|b: int| 0 <= b < 9 ==> #[trigger] box_ok(g, b)
}

/// The row, the column and the box that pass through (`r`, `c`) are free of
/// repeated digits. The rest of the grid is not looked at.
pub open spec fn valid_around(g: Grid, r: int, c: int) -> bool {
    row_ok(g, r) && col_ok(g, c) && box_ok(g, box_of(r, c))
}

/// (`r1`, `c1`) comes before (`r2`, `c2`) when the cells are read row by row.
pub open spec fn before(r1: int, c1: int, r2: int, c2: int) -> bool {
    r1 < r2 || (r1 == r2 && c1 < c2)
}

/// (`r`, `c`) is empty, and every cell before it is filled.
pub open spec fn first_empty_at(g: Grid, r: int, c: int) -> bool {
    &&& 0 <= r < 9 && 0 <= c < 9
    &&& g[r][c] == 0
    &&& forall|i: int, j: int|
        0 <= i < 9 && 0 <= j < 9 && before(i, j, r, c) ==> #[trigger] g[i][j] != 0
}

/// No cell is empty.
pub open spec fn full(g: Grid) -> bool {
    forall|r: int, c: int| 0 <= r < 9 && 0 <= c < 9 ==> #[trigger] g[r][c] != 0
}

/// Every cell is filled and every constraint holds.
pub open spec fn solved(g: Grid) -> bool {
    full(g) && valid(g)
}

} // verus!
