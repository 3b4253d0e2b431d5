//! The invariant of the work-list search, and the steps that keep it.
//!
//! The list is a stack. Its boards are ranked: every solution below a board
//! comes before every solution below the boards above it. So the first solved
//! board that comes up is the last solution in dictionary order.

use vstd::prelude::*;
use crate::completion::{
    blanks, greatest_solution, is_solution, keeps, lemma_agree_off_cell,
    lemma_fill_removes_blank, lemma_keeps_transitive, lemma_ranked_by_first_empty,
    lemma_solution_through_cell, lemma_valid_around_suffices, precedes, solvable,
};
use crate::grid::{first_empty_at, full, is_grid, set_cell, solved, valid, valid_around, Grid};
use crate::sudoku::Sudoku;

verus! {

/// A board that may wait on the list of a search for `g`: consistent, reached
/// from `g` by filling cells, and with a cell still to fill.
pub closed spec fn pending(b: Grid, g: Grid) -> bool {
    is_grid(b) && valid(b) && keeps(b, g) && !full(b)
}

/// Some board of `list` can still be filled up to `t`.
pub closed spec fn covered(t: Grid, list: Seq<Sudoku>) -> bool {
    exists|i: int| 0 <= i < list.len() && keeps(t, #[trigger] list[i]@)
}

/// Every solution of `a` comes before every solution of `b`.
pub closed spec fn ranked_below(a: Grid, b: Grid) -> bool {
    forall|s: Grid, t: Grid|
        #![trigger is_solution(s, a), is_solution(t, b)]
        is_solution(s, a) && is_solution(t, b) ==> precedes(s, t)
}

/// A bound on the boards that the search below a board with `n` empty cells
/// takes off the list.
pub closed spec fn cost(n: nat) -> nat
    decreases n,
{
    if n == 0 {
        1
    } else {
        10 * cost((n - 1) as nat)
    }
}

/// The work that a list still stands for. It shrinks each time a board is
/// taken off and its successors are put on.
pub closed spec fn weight(list: Seq<Sudoku>) -> nat
    decreases list.len(),
{
    if list.len() == 0 {
        0
    } else {
        weight(list.drop_last()) + cost(blanks(list.last()@))
    }
}

/// The state of the list between two rounds of a search for `g`: its boards
/// are pending and ranked from bottom to top, and every solution of `g` can
/// still be reached from one of them.
pub closed spec fn settled(list: Seq<Sudoku>, g: Grid) -> bool {
    &&& is_grid(g)
    &&& forall|i: int| 0 <= i < list.len() ==> pending(#[trigger] list[i]@, g)
    &&& forall|i: int, j: int|
        0 <= i < j < list.len() ==> ranked_below(#[trigger] list[i]@, #[trigger] list[j]@)
    &&& forall|t: Grid| #[trigger] is_solution(t, g) ==> covered(t, list)
}

/// The state of the list in the middle of a round: the board `cur` has been
/// taken off, which left `rest`, and its successors with a digit below `val`
/// in its first empty cell (`r`, `c`) have been put on.
pub closed spec fn expanding(
    list: Seq<Sudoku>,
    rest: Seq<Sudoku>,
    cur: Grid,
    r: int,
    c: int,
    val: int,
    g: Grid,
) -> bool {
    &&& is_grid(g)
    &&& pending(cur, g)
    &&& first_empty_at(cur, r, c)
    &&& rest.len() <= list.len()
    &&& forall|i: int| 0 <= i < rest.len() ==> list[i] == rest[i]
    &&& forall|i: int| 0 <= i < list.len() ==> pending(#[trigger] list[i]@, g)
    &&& forall|i: int|
        rest.len() <= i < list.len() ==> keeps(#[trigger] list[i]@, cur) && 1 <= list[i]@[r][c]
            < val
    &&& forall|i: int, j: int|
        0 <= i < j < list.len() ==> ranked_below(#[trigger] list[i]@, #[trigger] list[j]@)
    &&& forall|i: int| 0 <= i < rest.len() ==> ranked_below(#[trigger] rest[i]@, cur)
    &&& forall|t: Grid| #[trigger]
        is_solution(t, g) ==> covered(t, list) || (keeps(t, cur) && t[r][c] >= val)
    &&& blanks(cur) >= 1
    &&& weight(list) <= weight(rest) + (val - 1) * cost((blanks(cur) - 1) as nat)
}

proof fn lemma_cost_positive(n: nat)
    ensures
        cost(n) >= 1,
    decreases n,
{
    if n > 0 {
        lemma_cost_positive((n - 1) as nat);
    }
}

proof fn lemma_weight_push(list: Seq<Sudoku>, board: Sudoku)
    ensures
        weight(list.push(board)) == weight(list) + cost(blanks(board@)),
{
    assert(list.push(board).drop_last() =~= list);
}

/// The solutions of a board that fills cells of `b` are solutions of `b`, so
/// they keep the rank of `b`.
proof fn lemma_ranked_below_filled(a: Grid, b: Grid, h: Grid)
    requires
        ranked_below(a, b),
        keeps(h, b),
    ensures
        ranked_below(a, h),
{
    assert forall|s: Grid, t: Grid| is_solution(s, a) && is_solution(t, h) implies precedes(
        s,
        t,
    ) by {
        lemma_keeps_transitive(t, h, b);
        assert(is_solution(t, b));
    }
}

/// Two boards that fill the first empty cell of `g` with different digits are
/// ranked by those digits.
proof fn lemma_ranked_by_digit(a: Grid, b: Grid, g: Grid, r: int, c: int)
    requires
        first_empty_at(g, r, c),
        keeps(a, g),
        keeps(b, g),
        1 <= a[r][c] < b[r][c],
    ensures
        ranked_below(a, b),
{
    assert forall|s: Grid, t: Grid| is_solution(s, a) && is_solution(t, b) implies precedes(
        s,
        t,
    ) by {
        lemma_keeps_transitive(s, a, g);
        lemma_keeps_transitive(t, b, g);
        lemma_ranked_by_first_empty(s, t, g, r, c);
    }
}

/// The successor of `cur` with `v` in the empty cell (`r`, `c`) keeps the
/// digits of `cur`, and those of the board that the search started from.
proof fn lemma_successor_keeps(cur: Grid, g: Grid, r: int, c: int, v: u8)
    requires
        is_grid(cur),
        keeps(cur, g),
        0 <= r < 9,
        0 <= c < 9,
        cur[r][c] == 0,
    ensures
        keeps(set_cell(cur, r, c, v), cur),
        keeps(set_cell(cur, r, c, v), g),
{
    let h = set_cell(cur, r, c, v);
    assert forall|i: int, j: int| 0 <= i < 9 && 0 <= j < 9 && cur[i][j] != 0 implies h[i][j]
        == cur[i][j] by {}
    lemma_keeps_transitive(h, cur, g);
}

/// A list that holds the board to solve, and nothing else, is settled.
pub proof fn lemma_search_starts(board: Sudoku, g: Grid)
    requires
        board@ == g,
        is_grid(g),
        valid(g),
        !solved(g),
    ensures
        settled(seq![board], g),
{
    let list = seq![board];
    assert forall|t: Grid| #[trigger] is_solution(t, g) implies covered(t, list) by {
        assert(keeps(t, list[0]@));
    }
}

/// When the list is empty, no solution is left to reach.
pub proof fn lemma_search_exhausted(list: Seq<Sudoku>, g: Grid)
    requires
        settled(list, g),
        list.len() == 0,
    ensures
        !solvable(g),
{
    assert forall|t: Grid| !is_solution(t, g) by {
        if is_solution(t, g) {
            assert(covered(t, list));
        }
    }
}

/// The board on top of a settled list has an empty cell.
pub proof fn lemma_top_has_blank(list: Seq<Sudoku>, g: Grid)
    requires
        settled(list, g),
        list.len() > 0,
    ensures
        !full(list.last()@),
{
    assert(pending(list[list.len() - 1]@, g));
}

/// Taking the top board off a settled list starts a round.
pub proof fn lemma_round_starts(list: Seq<Sudoku>, g: Grid, r: int, c: int)
    requires
        settled(list, g),
        list.len() > 0,
        first_empty_at(list.last()@, r, c),
    ensures
        expanding(list.drop_last(), list.drop_last(), list.last()@, r, c, 1, g),
{
    let rest = list.drop_last();
    let n = rest.len() as int;
    let cur = list.last()@;
    assert(pending(list[n]@, g));
    assert forall|i: int| 0 <= i < rest.len() implies pending(#[trigger] rest[i]@, g) by {
        assert(pending(list[i]@, g));
    }
    assert forall|i: int, j: int| 0 <= i < j < rest.len() implies ranked_below(
        #[trigger] rest[i]@,
        #[trigger] rest[j]@,
    ) by {
        assert(ranked_below(list[i]@, list[j]@));
    }
    assert forall|i: int| 0 <= i < rest.len() implies ranked_below(#[trigger] rest[i]@, cur) by {
        assert(ranked_below(list[i]@, list[n]@));
    }
    assert forall|t: Grid| #[trigger] is_solution(t, g) implies covered(t, rest) || (keeps(t, cur)
        && t[r][c] >= 1) by {
        assert(covered(t, list));
        let i = choose|i: int| 0 <= i < list.len() && keeps(t, list[i]@);
        if i < n {
            assert(keeps(t, rest[i]@));
        } else {
            assert(t[r][c] != 0);
        }
    }
    lemma_fill_removes_blank(cur, r, c, 1);
}

/// A digit that does not fit the first empty cell of `cur` leads to no
/// solution, so the round goes on without a successor for it.
pub proof fn lemma_round_skips(
    list: Seq<Sudoku>,
    rest: Seq<Sudoku>,
    cur: Grid,
    r: int,
    c: int,
    val: u8,
    g: Grid,
)
    requires
        expanding(list, rest, cur, r, c, val as int, g),
        1 <= val <= 9,
        !valid_around(set_cell(cur, r, c, val), r, c),
    ensures
        expanding(list, rest, cur, r, c, val + 1, g),
{
    let unit = cost((blanks(cur) - 1) as nat);
    assert(val * unit == (val - 1) * unit + unit) by (nonlinear_arith);
    assert forall|t: Grid| #[trigger] is_solution(t, g) implies covered(t, list) || (keeps(t, cur)
        && t[r][c] >= val + 1) by {
        if !covered(t, list) {
            lemma_solution_through_cell(t, cur, r, c);
        }
    }
}

/// A successor that fits and still has an empty cell goes on top of the
/// list, above the successors with smaller digits.
pub proof fn lemma_round_puts(
    list: Seq<Sudoku>,
    rest: Seq<Sudoku>,
    cur: Grid,
    r: int,
    c: int,
    val: u8,
    g: Grid,
    next: Sudoku,
)
    requires
        expanding(list, rest, cur, r, c, val as int, g),
        1 <= val <= 9,
        next@ == set_cell(cur, r, c, val),
        is_grid(next@),
        valid_around(next@, r, c),
        !solved(next@),
    ensures
        expanding(list.push(next), rest, cur, r, c, val + 1, g),
{
    let h = next@;
    let longer = list.push(next);
    let n = list.len() as int;
    let unit = cost((blanks(cur) - 1) as nat);
    lemma_valid_around_suffices(cur, r, c, val);
    lemma_successor_keeps(cur, g, r, c, val);
    lemma_weight_push(list, next);
    lemma_fill_removes_blank(cur, r, c, val);
    assert(val * unit == (val - 1) * unit + unit) by (nonlinear_arith);
    assert forall|i: int| 0 <= i < longer.len() implies pending(#[trigger] longer[i]@, g) by {
        if i < n {
            assert(pending(list[i]@, g));
        }
    }
    assert forall|i: int| rest.len() <= i < longer.len() implies keeps(#[trigger] longer[i]@, cur)
        && 1 <= longer[i]@[r][c] < val + 1 by {
        if i < n {
            assert(keeps(list[i]@, cur));
        }
    }
    assert forall|i: int, j: int| 0 <= i < j < longer.len() implies ranked_below(
        #[trigger] longer[i]@,
        #[trigger] longer[j]@,
    ) by {
        if j < n {
            assert(ranked_below(list[i]@, list[j]@));
        } else if i < rest.len() {
            lemma_ranked_below_filled(rest[i]@, cur, h);
        } else {
            assert(keeps(list[i]@, cur));
            lemma_ranked_by_digit(list[i]@, h, cur, r, c);
        }
    }
    assert forall|t: Grid| #[trigger] is_solution(t, g) implies covered(t, longer) || (keeps(
        t,
        cur,
    ) && t[r][c] >= val + 1) by {
        if covered(t, list) {
            let i = choose|i: int| 0 <= i < list.len() && keeps(t, list[i]@);
            assert(keeps(t, longer[i]@));
        } else if t[r][c] == val {
            assert forall|i: int, j: int| 0 <= i < 9 && 0 <= j < 9 && h[i][j] != 0 implies t[i][j]
                == h[i][j] by {
                if i != r || j != c {
                    assert(h[i][j] == cur[i][j]);
                }
            }
            assert(keeps(t, longer[n]@));
        }
    }
}

/// A successor that is solved is the last solution of all: the solutions
/// that the list still covers come before it, and the board that it came
/// from had no other cell to fill.
pub proof fn lemma_round_finds(
    list: Seq<Sudoku>,
    rest: Seq<Sudoku>,
    cur: Grid,
    r: int,
    c: int,
    val: u8,
    g: Grid,
    next: Sudoku,
)
    requires
        expanding(list, rest, cur, r, c, val as int, g),
        1 <= val <= 9,
        next@ == set_cell(cur, r, c, val),
        is_grid(next@),
        solved(next@),
    ensures
        greatest_solution(next@, g),
{
    let h = next@;
    lemma_successor_keeps(cur, g, r, c, val);
    assert forall|t: Grid| #[trigger] is_solution(t, g) && t != h implies precedes(t, h) by {
        if covered(t, list) {
            let i = choose|i: int| 0 <= i < list.len() && keeps(t, list[i]@);
            if i < rest.len() {
                assert(ranked_below(rest[i]@, cur));
                assert(is_solution(t, rest[i]@));
                assert(is_solution(h, cur));
            } else {
                assert(keeps(list[i]@, cur));
                lemma_keeps_transitive(t, list[i]@, cur);
                lemma_ranked_by_first_empty(t, h, cur, r, c);
            }
        } else {
            assert forall|i: int, j: int|
                0 <= i < 9 && 0 <= j < 9 && (i != r || j != c) implies #[trigger] t[i][j]
                == h[i][j] by {
                assert(h[i][j] == cur[i][j]);
            }
            lemma_agree_off_cell(t, h, r, c);
        }
    }
}

/// After the ninth digit the round is over: the list is settled again, and
/// stands for less work than before `taken` was taken off.
pub proof fn lemma_round_ends(
    list: Seq<Sudoku>,
    rest: Seq<Sudoku>,
    taken: Sudoku,
    r: int,
    c: int,
    g: Grid,
)
    requires
        expanding(list, rest, taken@, r, c, 10, g),
    ensures
        settled(list, g),
        weight(list) < weight(rest.push(taken)),
{
    let cur = taken@;
    lemma_weight_push(rest, taken);
    lemma_cost_positive((blanks(cur) - 1) as nat);
    assert(cost(blanks(cur)) == 10 * cost((blanks(cur) - 1) as nat));
    assert forall|t: Grid| #[trigger] is_solution(t, g) implies covered(t, list) by {
        if !covered(t, list) {
            assert(t[r][c] >= 10);
        }
    }
}

} // verus!
