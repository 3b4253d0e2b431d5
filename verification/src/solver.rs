//! The two solvers: depth-first backtracking, and a work-list search.

use vstd::prelude::*;
use crate::completion::{
    blanks, greatest_solution, is_solution, least_solution, lemma_digit_fails,
    lemma_fill_removes_blank, lemma_first_through_digit, lemma_invalid_unsolvable,
    lemma_no_digit_left, lemma_solved_only_solution, solvable,
};
use crate::grid::{first_empty_at, is_grid, Grid};
use crate::sudoku::Sudoku;
use crate::sudoku_error::SudokuError;
use crate::work_list::{
    expanding, lemma_round_ends, lemma_round_finds, lemma_round_puts, lemma_round_skips,
    lemma_round_starts, lemma_search_exhausted, lemma_search_starts, lemma_top_has_blank, settled,
    weight,
};

verus! {

/// What the depth-first solver owes for the board `g`: the first solution in
/// dictionary order, or an error exactly when there is none.
pub open spec fn depth_first_outcome(g: Grid, result: Result<Sudoku, SudokuError>) -> bool {
    match result {
        Ok(solution) => least_solution(solution@, g),
        Err(error) => error == SudokuError::NoSolution && !solvable(g),
    }
}

/// Solves the board by backtracking.
///
/// The search fills the first empty cell, read row by row, with each digit
/// from 1 to 9 in turn, and goes on from there; the first solved board that
/// it reaches is returned. The filled cells of `sudoku` are never changed.
pub fn solve_sudoku(sudoku: &Sudoku) -> (result: Result<Sudoku, SudokuError>)
    ensures
        depth_first_outcome(sudoku@, result),
    decreases blanks(sudoku@),
{
    let ghost g = sudoku@;
    proof {
        use_type_invariant(sudoku);
    }
    if !sudoku.verify() {
        proof {
            lemma_invalid_unsolvable(g);
        }
        return Err(SudokuError::NoSolution);
    }
    match sudoku.first_empty() {
        None => {
            proof {
                lemma_solved_only_solution(g);
            }
            Ok(*sudoku)
        },
        Some((row, col)) => {
            for val in 1..10u8
                invariant
                    g == sudoku@,
                    is_grid(g),
                    first_empty_at(g, row as int, col as int),
                    forall|t: Grid| #[trigger]
                        is_solution(t, g) ==> t[row as int][col as int] >= val,
            {
                if sudoku.is_valid_to_set(row, col, val) {
                    let next = sudoku.set(row, col, val);
                    proof {
                        lemma_fill_removes_blank(g, row as int, col as int, val);
                    }
                    match solve_sudoku(&next) {
                        Ok(solution) => {
                            proof {
                                lemma_first_through_digit(
                                    solution@,
                                    g,
                                    row as int,
                                    col as int,
                                    val,
                                );
                            }
                            return Ok(solution);
                        },
                        Err(_) => {},
                    }
                }
                proof {
                    lemma_digit_fails(g, row as int, col as int, val);
                }
            }
            proof {
                lemma_no_digit_left(g, row as int, col as int);
            }
            Err(SudokuError::NoSolution)
        },
    }
}

/// What the work-list solver owes for the board `g`: the last solution in
/// dictionary order, or an error exactly when there is none.
pub open spec fn work_list_outcome(g: Grid, result: Result<Sudoku, SudokuError>) -> bool {
    match result {
        Ok(solution) => greatest_solution(solution@, g),
        Err(error) => error == SudokuError::NoSolution && !solvable(g),
    }
}

/// Solves the board with a work-list of boards still to be filled.
///
/// The search takes the board that was put on the list last, and puts back
/// one board for each digit from 1 to 9 that can stand in its first empty
/// cell without a repeat in that cell's row, column or box. The first solved
/// board that comes up is returned. The filled cells of `sudoku` are never
/// changed.
pub fn solve_sudoku_bfs(sudoku: &Sudoku) -> (result: Result<Sudoku, SudokuError>)
    ensures
        work_list_outcome(sudoku@, result),
{
    let ghost g = sudoku@;
    proof {
        use_type_invariant(sudoku);
    }
    if !sudoku.verify() {
        proof {
            lemma_invalid_unsolvable(g);
        }
        return Err(SudokuError::NoSolution);
    }
    if sudoku.is_solved() {
        proof {
            lemma_solved_only_solution(g);
        }
        return Ok(*sudoku);
    }
    let mut queue: Vec<Sudoku> = Vec::new();
    queue.push(*sudoku);
    proof {
        lemma_search_starts(*sudoku, g);
        assert(queue@ =~= seq![*sudoku]);
    }
    loop
        invariant
            g == sudoku@,
            settled(queue@, g),
        decreases weight(queue@),
    {
        let ghost list = queue@;
        let current = match queue.pop() {
            Some(board) => board,
            None => {
                proof {
                    lemma_search_exhausted(list, g);
                }
                return Err(SudokuError::NoSolution);
            },
        };
        let ghost rest = queue@;
        proof {
            assert(rest =~= list.drop_last());
            assert(list =~= rest.push(current));
            lemma_top_has_blank(list, g);
        }
        match current.first_empty() {
            // Every board on the list has an empty cell.
            None => {},
            Some((row, col)) => {
                proof {
                    lemma_round_starts(list, g, row as int, col as int);
                }
                for val in 1..10u8
                    invariant
                        g == sudoku@,
                        row < 9,
                        col < 9,
                        expanding(queue@, rest, current@, row as int, col as int, val as int, g),
                {
                    if current.is_valid_to_set(row, col, val) {
                        let next = current.set(row, col, val);
                        proof {
                            use_type_invariant(&next);
                        }
                        if next.is_solved() {
                            proof {
                                lemma_round_finds(
                                    queue@,
                                    rest,
                                    current@,
                                    row as int,
                                    col as int,
                                    val,
                                    g,
                                    next,
                                );
                            }
                            return Ok(next);
                        }
                        proof {
                            lemma_round_puts(
                                queue@,
                                rest,
                                current@,
                                row as int,
                                col as int,
                                val,
                                g,
                                next,
                            );
                        }
                        queue.push(next);
                    } else {
                        proof {
                            lemma_round_skips(
                                queue@,
                                rest,
                                current@,
                                row as int,
                                col as int,
                                val,
                                g,
                            );
                        }
                    }
                }
                proof {
                    lemma_round_ends(queue@, rest, current, row as int, col as int, g);
                }
            },
        }
    }
}

} // verus!
