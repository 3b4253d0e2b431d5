//! Laws of the library: facts that hold of every board, proved from the
//! contracts of the functions they speak of.

use vstd::prelude::*;
use crate::completion::{
    agree_before, blanks, blanks_among, greatest_solution, is_solution, keeps, least_solution,
    lemma_agree_off_cell, lemma_agree_off_row, lemma_invalid_unsolvable, lemma_kept_by_valid,
    lemma_solved_only_solution, precedes, solvable,
};
use crate::grid::{
    before, box_cell, box_ok, clash, col_ok, empty_grid, full, is_grid, row_ok, set_cell, solved,
    valid, Grid,
};
use crate::solver::{depth_first_outcome, work_list_outcome};
use crate::sudoku::Sudoku;
use crate::sudoku_error::SudokuError;

verus! {

/// `g` with every cell of row `r` emptied.
pub open spec fn blank_row(g: Grid, r: int) -> Grid {
    g.update(r, Seq::new(9, |c: int| 0u8))
}

/// On a board without empty cells, `is_solved` and `verify` give the same
/// answer.
pub proof fn law_full_board_solved_iff_valid(board: Sudoku)
    requires
        full(board@),
    ensures
        solved(board@) == valid(board@),
{
}

/// A row, a column or a box of empty cells passes its check, whatever the
/// rest of the board holds.
pub proof fn law_blank_group_passes(g: Grid, k: int)
    requires
        0 <= k < 9,
    ensures
        (forall|c: int| 0 <= c < 9 ==> #[trigger] g[k][c] == 0) ==> row_ok(g, k),
        (forall|r: int| 0 <= r < 9 ==> #[trigger] g[r][k] == 0) ==> col_ok(g, k),
        (forall|i: int| 0 <= i < 9 ==> #[trigger] box_cell(g, k, i) == 0) ==> box_ok(g, k),
{
}

/// Empty cells never count against a board: emptying a cell of a consistent
/// board leaves it consistent.
pub proof fn law_emptying_keeps_valid(g: Grid, r: int, c: int)
    requires
        is_grid(g),
        valid(g),
        0 <= r < 9,
        0 <= c < 9,
    ensures
        valid(set_cell(g, r, c, 0)),
{
    let h = set_cell(g, r, c, 0);
    assert(keeps(g, h)) by {
        assert forall|i: int, j: int| 0 <= i < 9 && 0 <= j < 9 && h[i][j] != 0 implies g[i][j]
            == h[i][j] by {}
    }
    lemma_kept_by_valid(g, h);
}

/// A digit that stands twice in a row, in a column or in a box makes the
/// board inconsistent, whatever the other groups hold.
pub proof fn law_repeat_fails(g: Grid, k: int, i: int, j: int)
    requires
        0 <= k < 9,
        0 <= i < 9,
        0 <= j < 9,
        i != j,
    ensures
        clash(g[k][i], g[k][j]) ==> !row_ok(g, k) && !valid(g),
        clash(g[i][k], g[j][k]) ==> !col_ok(g, k) && !valid(g),
        clash(box_cell(g, k, i), box_cell(g, k, j)) ==> !box_ok(g, k) && !valid(g),
{
    if clash(g[k][i], g[k][j]) && row_ok(g, k) {
        assert(!clash(g[k][i], g[k][j]) && !clash(g[k][j], g[k][i]));
    }
    if clash(g[i][k], g[j][k]) && col_ok(g, k) {
        assert(!clash(g[i][k], g[j][k]) && !clash(g[j][k], g[i][k]));
    }
    if clash(box_cell(g, k, i), box_cell(g, k, j)) && box_ok(g, k) {
        assert(!clash(box_cell(g, k, i), box_cell(g, k, j)) && !clash(
            box_cell(g, k, j),
            box_cell(g, k, i),
        ));
    }
}

/// The board of empty cells is consistent, and not solved.
pub proof fn law_empty_board_valid()
    ensures
        is_grid(empty_grid()),
        valid(empty_grid()),
        !solved(empty_grid()),
{
    let g = empty_grid();
    assert forall|k: int| 0 <= k < 9 implies #[trigger] row_ok(g, k) && #[trigger] col_ok(g, k)
        && #[trigger] box_ok(g, k) by {
        assert forall|i: int| 0 <= i < 9 implies #[trigger] box_cell(g, k, i) == 0 by {
            assert(g[3 * (k / 3) + i / 3][3 * (k % 3) + i % 3] == 0);
        }
        law_blank_group_passes(g, k);
    }
    assert(g[0][0] == 0);
}

/// Setting a cell twice is setting it once, to the second digit: the cell
/// holds that digit, and every other cell is as it was.
pub proof fn law_set_twice(g: Grid, r: int, c: int, first: u8, second: u8)
    requires
        is_grid(g),
        0 <= r < 9,
        0 <= c < 9,
    ensures
        set_cell(set_cell(g, r, c, first), r, c, second) == set_cell(g, r, c, second),
        set_cell(set_cell(g, r, c, first), r, c, second)[r][c] == second,
        forall|i: int, j: int|
            0 <= i < 9 && 0 <= j < 9 && (i != r || j != c) ==> #[trigger] set_cell(
                set_cell(g, r, c, first),
                r,
                c,
                second,
            )[i][j] == g[i][j],
{
    let once = set_cell(g, r, c, first);
    let twice = set_cell(once, r, c, second);
    assert(once[r].update(c, second) =~= g[r].update(c, second));
    assert(twice =~= set_cell(g, r, c, second));
}

/// No grid comes before itself, and of two grids at most one comes before
/// the other.
pub proof fn law_precedes_one_way(s: Grid, t: Grid)
    requires
        precedes(s, t),
    ensures
        s != t,
        !precedes(t, s),
{
    let (r, c) = choose|r: int, c: int|
        0 <= r < 9 && 0 <= c < 9 && #[trigger] agree_before(s, t, r, c) && s[r][c] < t[r][c];
    if precedes(t, s) {
        let (r2, c2) = choose|r2: int, c2: int|
            0 <= r2 < 9 && 0 <= c2 < 9 && #[trigger] agree_before(t, s, r2, c2) && t[r2][c2]
                < s[r2][c2];
        if before(r, c, r2, c2) {
            assert(t[r][c] == s[r][c]);
        } else if before(r2, c2, r, c) {
            assert(s[r2][c2] == t[r2][c2]);
        }
    }
}

/// A grid has at most one first solution and at most one last solution.
pub proof fn law_extreme_solutions_unique(a: Grid, b: Grid, g: Grid)
    ensures
        least_solution(a, g) && least_solution(b, g) ==> a == b,
        greatest_solution(a, g) && greatest_solution(b, g) ==> a == b,
{
    if a != b {
        if least_solution(a, g) && least_solution(b, g) {
            law_precedes_one_way(a, b);
        }
        if greatest_solution(a, g) && greatest_solution(b, g) {
            law_precedes_one_way(a, b);
        }
    }
}

/// The depth-first search goes at most 81 calls deep: each call fills one
/// empty cell before it calls again, and a grid has at most 81 of them.
pub proof fn law_search_depth_bounded(g: Grid)
    ensures
        blanks(g) <= 81,
{
    lemma_blanks_among_bounded(g, 81);
}

proof fn lemma_blanks_among_bounded(g: Grid, n: nat)
    ensures
        blanks_among(g, n) <= n,
    decreases n,
{
    if n > 0 {
        lemma_blanks_among_bounded(g, (n - 1) as nat);
    }
}

/// Each solver is a function of its input: any two results that its contract
/// allows for one board are the same result.
pub proof fn law_one_outcome(
    g: Grid,
    first: Result<Sudoku, SudokuError>,
    second: Result<Sudoku, SudokuError>,
)
    ensures
        depth_first_outcome(g, first) && depth_first_outcome(g, second) ==> first == second,
        work_list_outcome(g, first) && work_list_outcome(g, second) ==> first == second,
{
    if (depth_first_outcome(g, first) && depth_first_outcome(g, second)) || (work_list_outcome(
        g,
        first,
    ) && work_list_outcome(g, second)) {
        match (first, second) {
            (Ok(a), Ok(b)) => {
                law_extreme_solutions_unique(a@, b@, g);
                a.lemma_same_cells_same_board(b);
            },
            (Ok(a), Err(_)) => {
                assert(is_solution(a@, g));
            },
            (Err(_), Ok(b)) => {
                assert(is_solution(b@, g));
            },
            (Err(_), Err(_)) => {},
        }
    }
}

/// The two solvers agree on whether a board can be solved: each succeeds
/// exactly when the board has a solution.
pub proof fn law_solvers_agree(
    g: Grid,
    depth_first: Result<Sudoku, SudokuError>,
    work_list: Result<Sudoku, SudokuError>,
)
    requires
        depth_first_outcome(g, depth_first),
        work_list_outcome(g, work_list),
    ensures
        depth_first is Ok <==> work_list is Ok,
        depth_first is Ok <==> solvable(g),
{
    if let Ok(a) = depth_first {
        assert(is_solution(a@, g));
    }
    if let Ok(b) = work_list {
        assert(is_solution(b@, g));
    }
}

/// What either solver returns on success is solved, holds digits from 1 to 9
/// only, and keeps every digit of the input where it was.
pub proof fn law_solution_fills_blanks_only(
    g: Grid,
    result: Result<Sudoku, SudokuError>,
    r: int,
    c: int,
)
    requires
        depth_first_outcome(g, result) || work_list_outcome(g, result),
        result is Ok,
        0 <= r < 9,
        0 <= c < 9,
    ensures
        solved(result->Ok_0@),
        1 <= result->Ok_0@[r][c] <= 9,
        g[r][c] != 0 ==> result->Ok_0@[r][c] == g[r][c],
{
}

/// Both solvers give a solved board back as it is.
pub proof fn law_solved_board_returned(board: Sudoku, result: Result<Sudoku, SudokuError>)
    requires
        board.wf(),
        solved(board@),
        depth_first_outcome(board@, result) || work_list_outcome(board@, result),
    ensures
        result == Ok::<Sudoku, SudokuError>(board),
{
    lemma_solved_only_solution(board@);
    law_only_solution_returned(board, board@, result);
}

/// Both solvers refuse a board that breaks a constraint.
pub proof fn law_inconsistent_board_refused(g: Grid, result: Result<Sudoku, SudokuError>)
    requires
        !valid(g),
        depth_first_outcome(g, result) || work_list_outcome(g, result),
    ensures
        result == Err::<Sudoku, SudokuError>(SudokuError::NoSolution),
{
    lemma_invalid_unsolvable(g);
    match result {
        Ok(found) => {
            assert(is_solution(found@, g));
        },
        Err(error) => {
            assert(error is NoSolution);
        },
    }
}

/// Where a grid has one solution only, both solvers return it.
pub proof fn law_only_solution_returned(
    board: Sudoku,
    g: Grid,
    result: Result<Sudoku, SudokuError>,
)
    requires
        is_solution(board@, g),
        forall|t: Grid| #[trigger] is_solution(t, g) ==> t == board@,
        depth_first_outcome(g, result) || work_list_outcome(g, result),
    ensures
        result == Ok::<Sudoku, SudokuError>(board),
{
    match result {
        Ok(found) => {
            assert(is_solution(found@, g));
            found.lemma_same_cells_same_board(board);
        },
        Err(_) => {},
    }
}

/// Emptying one cell of a solved board and solving gives the solved board
/// back, with either solver: the other eight cells of the row leave one
/// digit only.
pub proof fn law_single_blank_restored(
    board: Sudoku,
    r: int,
    c: int,
    result: Result<Sudoku, SudokuError>,
)
    requires
        board.wf(),
        solved(board@),
        0 <= r < 9,
        0 <= c < 9,
        depth_first_outcome(set_cell(board@, r, c, 0), result) || work_list_outcome(
            set_cell(board@, r, c, 0),
            result,
        ),
    ensures
        result == Ok::<Sudoku, SudokuError>(board),
{
    let s = board@;
    let g = set_cell(s, r, c, 0);
    assert(keeps(s, g)) by {
        assert forall|i: int, j: int| 0 <= i < 9 && 0 <= j < 9 && g[i][j] != 0 implies s[i][j]
            == g[i][j] by {}
    }
    assert forall|t: Grid| #[trigger] is_solution(t, g) implies t == s by {
        assert forall|i: int, j: int|
            0 <= i < 9 && 0 <= j < 9 && (i != r || j != c) implies #[trigger] t[i][j]
            == s[i][j] by {
            assert(g[i][j] == s[i][j]);
        }
        lemma_agree_off_cell(t, s, r, c);
    }
    law_only_solution_returned(board, g, result);
}

/// Emptying a whole row of a solved board and solving gives the solved board
/// back, with either solver: in each column the other eight cells leave one
/// digit only.
pub proof fn law_blank_row_restored(board: Sudoku, r: int, result: Result<Sudoku, SudokuError>)
    requires
        board.wf(),
        solved(board@),
        0 <= r < 9,
        depth_first_outcome(blank_row(board@, r), result) || work_list_outcome(
            blank_row(board@, r),
            result,
        ),
    ensures
        result == Ok::<Sudoku, SudokuError>(board),
{
    let s = board@;
    let g = blank_row(s, r);
    assert(keeps(s, g)) by {
        assert forall|i: int, j: int| 0 <= i < 9 && 0 <= j < 9 && g[i][j] != 0 implies s[i][j]
            == g[i][j] by {}
    }
    assert forall|t: Grid| #[trigger] is_solution(t, g) implies t == s by {
        assert forall|i: int, j: int| 0 <= i < 9 && 0 <= j < 9 && i != r implies #[trigger] t[i][j]
            == s[i][j] by {
            assert(g[i][j] == s[i][j]);
        }
        lemma_agree_off_row(t, s, r);
    }
    law_only_solution_returned(board, g, result);
}

} // verus!
