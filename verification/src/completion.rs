//! What it means to solve a grid: the solutions of a grid, the order in which
//! they are ranked, and the facts about them that the solvers rest on.

use vstd::prelude::*;
use vstd::set_lib::{lemma_int_range, lemma_subset_equality, set_int_range};
use crate::grid::{
    before, box_cell, box_of, box_ok, clash, col_ok, first_empty_at, is_grid, row_ok, set_cell,
    solved, valid, valid_around, Grid,
};

verus! {

/// `t` holds every digit that `g` holds, in the same cell. The empty cells of
/// `g` are free in `t`.
pub open spec fn keeps(t: Grid, g: Grid) -> bool {
    forall|r: int, c: int|
        #![trigger t[r][c]]
        #![trigger g[r][c]]
        0 <= r < 9 && 0 <= c < 9 && g[r][c] != 0 ==> t[r][c] == g[r][c]
}

/// `t` is a solved grid reached from `g` by filling empty cells only.
pub open spec fn is_solution(t: Grid, g: Grid) -> bool {
    is_grid(t) && solved(t) && keeps(t, g)
}

/// `g` has at least one solution.
pub open spec fn solvable(g: Grid) -> bool {
    exists|t: Grid| is_solution(t, g)
}

/// `s` and `t` hold the same digit in every cell before (`r`, `c`).
pub open spec fn agree_before(s: Grid, t: Grid, r: int, c: int) -> bool {
    forall|i: int, j: int|
        #![trigger s[i][j]]
        #![trigger t[i][j]]
        0 <= i < 9 && 0 <= j < 9 && before(i, j, r, c) ==> s[i][j] == t[i][j]
}

/// `s` comes before `t` in dictionary order: reading both row by row, the
/// first cell in which they differ holds the smaller digit in `s`.
pub open spec fn precedes(s: Grid, t: Grid) -> bool {
    exists|r: int, c: int|
        0 <= r < 9 && 0 <= c < 9 && #[trigger] agree_before(s, t, r, c) && s[r][c] < t[r][c]
}

/// `s` is the solution of `g` that comes before every other one.
pub open spec fn least_solution(s: Grid, g: Grid) -> bool {
    &&& is_solution(s, g)
    &&& forall|t: Grid| #[trigger] is_solution(t, g) && t != s ==> precedes(s, t)
}

/// `s` is the solution of `g` that comes after every other one.
pub open spec fn greatest_solution(s: Grid, g: Grid) -> bool {
    &&& is_solution(s, g)
    &&& forall|t: Grid| #[trigger] is_solution(t, g) && t != s ==> precedes(t, s)
}

/// The number of empty cells among the first `n` cells of `g`, read row by
/// row.
pub open spec fn blanks_among(g: Grid, n: nat) -> nat
    decreases n,
{
    if n == 0 {
        0
    } else {
        let k = (n - 1) as int;
        blanks_among(g, (n - 1) as nat) + if g[k / 9][k % 9] == 0 {
            1nat
        } else {
            0nat
        }
    }
}

/// The number of empty cells of `g`.
pub open spec fn blanks(g: Grid) -> nat {
    blanks_among(g, 81)
}

/// Filling an empty cell leaves one empty cell fewer.
pub proof fn lemma_fill_removes_blank(g: Grid, r: int, c: int, v: u8)
    requires
        is_grid(g),
        0 <= r < 9,
        0 <= c < 9,
        g[r][c] == 0,
        v != 0,
    ensures
        blanks(set_cell(g, r, c, v)) + 1 == blanks(g),
{
    lemma_fill_among(g, r, c, v, 81);
}

proof fn lemma_fill_among(g: Grid, r: int, c: int, v: u8, n: nat)
    requires
        is_grid(g),
        0 <= r < 9,
        0 <= c < 9,
        g[r][c] == 0,
        v != 0,
        n <= 81,
    ensures
        blanks_among(set_cell(g, r, c, v), n) + (if 9 * r + c < n {
            1nat
        } else {
            0nat
        }) == blanks_among(g, n),
    decreases n,
{
    if n > 0 {
        lemma_fill_among(g, r, c, v, (n - 1) as nat);
        let k = (n - 1) as int;
        let h = set_cell(g, r, c, v);
        if k == 9 * r + c {
            assert(k / 9 == r && k % 9 == c);
            assert(h[k / 9][k % 9] == v);
        } else {
            assert(k / 9 != r || k % 9 != c);
            assert(h[k / 9][k % 9] == g[k / 9][k % 9]);
        }
    }
}

/// A grid whose digits all stand in a consistent grid, in the same cells, is
/// consistent: taking digits away never creates a repeat.
pub proof fn lemma_kept_by_valid(t: Grid, g: Grid)
    requires
        valid(t),
        keeps(t, g),
    ensures
        valid(g),
{
    assert forall|r: int| 0 <= r < 9 implies #[trigger] row_ok(g, r) by {
        assert(row_ok(t, r));
        assert forall|i: int, j: int| 0 <= i < j < 9 implies !clash(
            #[trigger] g[r][i],
            #[trigger] g[r][j],
        ) by {
            if clash(g[r][i], g[r][j]) {
                assert(clash(t[r][i], t[r][j]));
            }
        }
    }
    assert forall|c: int| 0 <= c < 9 implies #[trigger] col_ok(g, c) by {
        assert(col_ok(t, c));
        assert forall|i: int, j: int| 0 <= i < j < 9 implies !clash(
            #[trigger] g[i][c],
            #[trigger] g[j][c],
        ) by {
            if clash(g[i][c], g[j][c]) {
                assert(clash(t[i][c], t[j][c]));
            }
        }
    }
    assert forall|b: int| 0 <= b < 9 implies #[trigger] box_ok(g, b) by {
        assert(box_ok(t, b));
        assert forall|i: int, j: int| 0 <= i < j < 9 implies !clash(
            #[trigger] box_cell(g, b, i),
            #[trigger] box_cell(g, b, j),
        ) by {
            if clash(box_cell(g, b, i), box_cell(g, b, j)) {
                assert(clash(box_cell(t, b, i), box_cell(t, b, j)));
            }
        }
    }
}

/// A grid that breaks a constraint has no solution.
pub proof fn lemma_invalid_unsolvable(g: Grid)
    requires
        !valid(g),
    ensures
        !solvable(g),
{
    if solvable(g) {
        let t = choose|t: Grid| is_solution(t, g);
        lemma_kept_by_valid(t, g);
    }
}

/// A solved grid is its own solution, and its only one.
pub proof fn lemma_solved_only_solution(g: Grid)
    requires
        is_grid(g),
        solved(g),
    ensures
        least_solution(g, g),
        greatest_solution(g, g),
{
    assert forall|t: Grid| #[trigger] is_solution(t, g) implies t == g by {
        assert forall|r: int| 0 <= r < 9 implies #[trigger] t[r] =~= g[r] by {
            assert forall|c: int| 0 <= c < 9 implies t[r][c] == g[r][c] by {
                assert(g[r][c] != 0);
            }
        }
        assert(t =~= g);
    }
}

/// On a consistent grid the check around one newly set cell is as good as
/// the check of the whole grid: a change to one cell can only break the row,
/// the column and the box that pass through it.
pub proof fn lemma_valid_around_suffices(g: Grid, r: int, c: int, v: u8)
    requires
        is_grid(g),
        valid(g),
        0 <= r < 9,
        0 <= c < 9,
        valid_around(set_cell(g, r, c, v), r, c),
    ensures
        valid(set_cell(g, r, c, v)),
{
    let h = set_cell(g, r, c, v);
    assert forall|r2: int| 0 <= r2 < 9 implies #[trigger] row_ok(h, r2) by {
        if r2 != r {
            assert(row_ok(g, r2));
            assert(h[r2] == g[r2]);
        }
    }
    assert forall|c2: int| 0 <= c2 < 9 implies #[trigger] col_ok(h, c2) by {
        if c2 != c {
            assert(col_ok(g, c2));
            assert forall|i: int, j: int| 0 <= i < j < 9 implies !clash(
                #[trigger] h[i][c2],
                #[trigger] h[j][c2],
            ) by {
                assert(h[i][c2] == g[i][c2]);
                assert(h[j][c2] == g[j][c2]);
            }
        }
    }
    assert forall|b: int| 0 <= b < 9 implies #[trigger] box_ok(h, b) by {
        if b != box_of(r, c) {
            assert(box_ok(g, b));
            assert forall|i: int, j: int| 0 <= i < j < 9 implies !clash(
                #[trigger] box_cell(h, b, i),
                #[trigger] box_cell(h, b, j),
            ) by {
                assert(box_cell(h, b, i) == box_cell(g, b, i));
                assert(box_cell(h, b, j) == box_cell(g, b, j));
            }
        }
    }
}

/// A solution of `g` holds a digit from 1 to 9 in each empty cell of `g`, and
/// is a solution of `g` with that digit placed there.
pub proof fn lemma_solution_through_cell(t: Grid, g: Grid, r: int, c: int)
    requires
        is_grid(g),
        is_solution(t, g),
        0 <= r < 9,
        0 <= c < 9,
        g[r][c] == 0,
    ensures
        1 <= t[r][c] <= 9,
        is_solution(t, set_cell(g, r, c, t[r][c])),
        valid_around(set_cell(g, r, c, t[r][c]), r, c),
{
    let h = set_cell(g, r, c, t[r][c]);
    assert forall|i: int, j: int| 0 <= i < 9 && 0 <= j < 9 && h[i][j] != 0 implies t[i][j]
        == h[i][j] by {
        if i != r || j != c {
            assert(h[i][j] == g[i][j]);
        }
    }
    lemma_kept_by_valid(t, h);
}

/// A solution of `g` with one more cell filled is a solution of `g`, with
/// that digit in that cell.
pub proof fn lemma_solution_of_filled(t: Grid, g: Grid, r: int, c: int, v: u8)
    requires
        is_grid(g),
        0 <= r < 9,
        0 <= c < 9,
        g[r][c] == 0,
        v != 0,
        is_solution(t, set_cell(g, r, c, v)),
    ensures
        is_solution(t, g),
        t[r][c] == v,
{
    let h = set_cell(g, r, c, v);
    assert(h[r][c] == v);
    assert forall|i: int, j: int| 0 <= i < 9 && 0 <= j < 9 && g[i][j] != 0 implies t[i][j]
        == g[i][j] by {
        assert(h[i][j] == g[i][j]);
    }
}

/// Two solutions of `g` agree on every cell before the first empty cell of
/// `g`, so the digit they hold there ranks them.
pub proof fn lemma_ranked_by_first_empty(s: Grid, t: Grid, g: Grid, r: int, c: int)
    requires
        first_empty_at(g, r, c),
        keeps(s, g),
        keeps(t, g),
        s[r][c] < t[r][c],
    ensures
        precedes(s, t),
{
    assert(agree_before(s, t, r, c)) by {
        assert forall|i: int, j: int|
            0 <= i < 9 && 0 <= j < 9 && before(i, j, r, c) implies s[i][j] == t[i][j] by {
            assert(g[i][j] != 0);
        }
    }
}

/// Nine different digits from 1 to 9 are all of them: each digit is among
/// them.
pub proof fn lemma_nine_digits_hold_all(cells: Seq<u8>, d: u8)
    requires
        cells.len() == 9,
        forall|i: int| 0 <= i < 9 ==> 1 <= #[trigger] cells[i] <= 9,
        forall|i: int, j: int| 0 <= i < j < 9 ==> #[trigger] cells[i] != #[trigger] cells[j],
        1 <= d <= 9,
    ensures
        exists|i: int| 0 <= i < 9 && cells[i] == d,
{
    let digits = Seq::new(9, |i: int| cells[i] as int);
    assert(digits.no_duplicates());
    digits.unique_seq_to_set();
    lemma_int_range(1, 10);
    assert(digits.to_set().subset_of(set_int_range(1, 10))) by {
        assert forall|v: int| digits.to_set().contains(v) implies set_int_range(1, 10).contains(
            v,
        ) by {
            let i = choose|i: int| 0 <= i < digits.len() && digits[i] == v;
            assert(1 <= cells[i] <= 9);
        }
    }
    lemma_subset_equality(digits.to_set(), set_int_range(1, 10));
    assert(set_int_range(1, 10).contains(d as int));
    assert(digits.contains(d as int));
    let i = choose|i: int| 0 <= i < digits.len() && digits[i] == d as int;
    assert(cells[i] == d);
}

/// A row without empty cells and without repeats holds every digit.
pub proof fn lemma_row_holds_digit(g: Grid, r: int, d: u8)
    requires
        is_grid(g),
        solved(g),
        0 <= r < 9,
        1 <= d <= 9,
    ensures
        exists|c: int| 0 <= c < 9 && g[r][c] == d,
{
    assert(row_ok(g, r));
    assert forall|i: int, j: int| 0 <= i < j < 9 implies #[trigger] g[r][i]
        != #[trigger] g[r][j] by {
        assert(!clash(g[r][i], g[r][j]));
    }
    lemma_nine_digits_hold_all(g[r], d);
}

/// A column without empty cells and without repeats holds every digit.
pub proof fn lemma_col_holds_digit(g: Grid, c: int, d: u8)
    requires
        is_grid(g),
        solved(g),
        0 <= c < 9,
        1 <= d <= 9,
    ensures
        exists|r: int| 0 <= r < 9 && g[r][c] == d,
{
    let cells = Seq::new(9, |r: int| g[r][c]);
    assert(col_ok(g, c));
    assert forall|i: int, j: int| 0 <= i < j < 9 implies #[trigger] cells[i]
        != #[trigger] cells[j] by {
        assert(!clash(g[i][c], g[j][c]));
    }
    lemma_nine_digits_hold_all(cells, d);
    let r = choose|r: int| 0 <= r < 9 && cells[r] == d;
    assert(g[r][c] == d);
}

/// Two solved grids that agree on every cell but one agree on that cell too.
pub proof fn lemma_agree_off_cell(s: Grid, t: Grid, r: int, c: int)
    requires
        is_grid(s),
        is_grid(t),
        solved(s),
        solved(t),
        0 <= r < 9,
        0 <= c < 9,
        forall|i: int, j: int|
            0 <= i < 9 && 0 <= j < 9 && (i != r || j != c) ==> #[trigger] s[i][j] == t[i][j],
    ensures
        s == t,
{
    lemma_row_holds_digit(s, r, t[r][c]);
    let k = choose|k: int| 0 <= k < 9 && s[r][k] == t[r][c];
    if k != c {
        assert(s[r][k] == t[r][k]);
        assert(row_ok(t, r));
        assert(clash(t[r][k], t[r][c]));
        assert(false);
    }
    assert forall|i: int| 0 <= i < 9 implies #[trigger] s[i] =~= t[i] by {
        assert forall|j: int| 0 <= j < 9 implies s[i][j] == t[i][j] by {}
    }
    assert(s =~= t);
}

/// Two solved grids that agree on every row but one agree on that row too.
pub proof fn lemma_agree_off_row(s: Grid, t: Grid, r: int)
    requires
        is_grid(s),
        is_grid(t),
        solved(s),
        solved(t),
        0 <= r < 9,
        forall|i: int, j: int| 0 <= i < 9 && 0 <= j < 9 && i != r ==> #[trigger] s[i][j] == t[i][j],
    ensures
        s == t,
{
    assert forall|c: int| 0 <= c < 9 implies s[r][c] == t[r][c] by {
        lemma_col_holds_digit(s, c, t[r][c]);
        let k = choose|k: int| 0 <= k < 9 && s[k][c] == t[r][c];
        if k != r {
            assert(s[k][c] == t[k][c]);
            assert(col_ok(t, c));
            assert(clash(t[k][c], t[r][c]));
            assert(false);
        }
    }
    assert forall|i: int| 0 <= i < 9 implies #[trigger] s[i] =~= t[i] by {
        assert forall|j: int| 0 <= j < 9 implies s[i][j] == t[i][j] by {}
    }
    assert(s =~= t);
}

/// Keeping digits is transitive.
pub proof fn lemma_keeps_transitive(t: Grid, h: Grid, g: Grid)
    requires
        keeps(t, h),
        keeps(h, g),
    ensures
        keeps(t, g),
{
    assert forall|r: int, c: int| 0 <= r < 9 && 0 <= c < 9 && g[r][c] != 0 implies t[r][c]
        == g[r][c] by {
        assert(h[r][c] == g[r][c]);
    }
}

/// A digit that does not fit an empty cell, or that leaves a grid without
/// solution when it is placed there, stands in that cell in no solution.
pub proof fn lemma_digit_fails(g: Grid, r: int, c: int, v: u8)
    requires
        is_grid(g),
        0 <= r < 9,
        0 <= c < 9,
        g[r][c] == 0,
        !valid_around(set_cell(g, r, c, v), r, c) || !solvable(set_cell(g, r, c, v)),
    ensures
        forall|t: Grid| #[trigger] is_solution(t, g) ==> t[r][c] != v,
{
    assert forall|t: Grid| #[trigger] is_solution(t, g) implies t[r][c] != v by {
        lemma_solution_through_cell(t, g, r, c);
    }
}

/// When every solution of `g` holds at least `v` in the first empty cell of
/// `g`, the first solution of `g` with `v` placed there is the first
/// solution of `g`.
pub proof fn lemma_first_through_digit(s: Grid, g: Grid, r: int, c: int, v: u8)
    requires
        is_grid(g),
        first_empty_at(g, r, c),
        v != 0,
        least_solution(s, set_cell(g, r, c, v)),
        forall|t: Grid| #[trigger] is_solution(t, g) ==> t[r][c] >= v,
    ensures
        least_solution(s, g),
{
    lemma_solution_of_filled(s, g, r, c, v);
    assert forall|t: Grid| #[trigger] is_solution(t, g) && t != s implies precedes(s, t) by {
        lemma_solution_through_cell(t, g, r, c);
        if t[r][c] == v {
            assert(is_solution(t, set_cell(g, r, c, v)));
        } else {
            lemma_ranked_by_first_empty(s, t, g, r, c);
        }
    }
}

/// A grid with an empty cell in which no digit from 1 to 9 can stand has no
/// solution.
pub proof fn lemma_no_digit_left(g: Grid, r: int, c: int)
    requires
        0 <= r < 9,
        0 <= c < 9,
        forall|t: Grid| #[trigger] is_solution(t, g) ==> t[r][c] >= 10,
    ensures
        !solvable(g),
{
    assert forall|t: Grid| !is_solution(t, g) by {
        if is_solution(t, g) {
            assert(t[r][c] >= 10);
        }
    }
}

} // verus!
