use sudoku_solver::{solve_sudoku, solve_sudoku_bfs, Sudoku, SudokuError};

fn solved_sudoku() -> Sudoku {
    Sudoku::new([
        [5, 3, 4, 6, 7, 8, 9, 1, 2],
        [6, 7, 2, 1, 9, 5, 3, 4, 8],
        [1, 9, 8, 3, 4, 2, 5, 6, 7],
        [8, 5, 9, 7, 6, 1, 4, 2, 3],
        [4, 2, 6, 8, 5, 3, 7, 9, 1],
        [7, 1, 3, 9, 2, 4, 8, 5, 6],
        [9, 6, 1, 5, 3, 7, 2, 8, 4],
        [2, 8, 7, 4, 1, 9, 6, 3, 5],
        [3, 4, 5, 2, 8, 6, 1, 7, 9],
    ])
}

#[test]
fn test_solve_already_complete_sudoku() {
    let result: Result<Sudoku, SudokuError> = solve_sudoku(&solved_sudoku());
    assert_eq!(result.unwrap(), solved_sudoku());
}

#[test]
fn test_solve_one_missing_value() {
    let missing_one: Sudoku = solved_sudoku().set(0, 0, 0);
    let result: Result<Sudoku, SudokuError> = solve_sudoku(&missing_one);
    assert_eq!(result.unwrap(), solved_sudoku());
}

#[test]
fn test_solve_one_row() {
    let first_row_zero: &mut Sudoku = &mut solved_sudoku();
    for i in 0..9 {
        *first_row_zero = first_row_zero.set(0, i, 0);
    }
    let result = solve_sudoku(first_row_zero).unwrap();
    assert_eq!(result, solved_sudoku());
}

#[test]
fn test_solve_one_row_bfs() {
    let first_row_zero: &mut Sudoku = &mut solved_sudoku();
    for i in 0..9 {
        *first_row_zero = first_row_zero.set(0, i, 0);
    }
    let result: Sudoku = solve_sudoku_bfs(first_row_zero).unwrap();
    assert_eq!(result, solved_sudoku());
}

#[test]
fn work_list_returns_a_complete_board_unchanged() {
    assert_eq!(solve_sudoku_bfs(&solved_sudoku()), Ok(solved_sudoku()));
}

#[test]
fn any_single_blank_is_restored() {
    for row in 0..9usize {
        for col in 0..9usize {
            let puzzle: Sudoku = solved_sudoku().set(row, col, 0);
            assert_eq!(solve_sudoku(&puzzle), Ok(solved_sudoku()));
            assert_eq!(solve_sudoku_bfs(&puzzle), Ok(solved_sudoku()));
        }
    }
}

#[test]
fn any_blank_row_is_restored() {
    for row in 0..9usize {
        let mut puzzle: Sudoku = solved_sudoku();
        for col in 0..9usize {
            puzzle = puzzle.set(row, col, 0);
        }
        assert_eq!(solve_sudoku(&puzzle), Ok(solved_sudoku()));
        assert_eq!(solve_sudoku_bfs(&puzzle), Ok(solved_sudoku()));
    }
}

#[test]
fn inconsistent_board_has_no_solution() {
    let repeated: Sudoku = Sudoku::new([[1, 2, 3, 4, 5, 6, 7, 8, 9]; 9]);
    assert!(!repeated.verify());
    assert_eq!(solve_sudoku(&repeated), Err(SudokuError::NoSolution));
    assert_eq!(solve_sudoku_bfs(&repeated), Err(SudokuError::NoSolution));
}

#[test]
fn inconsistent_board_with_blanks_has_no_solution() {
    let puzzle: Sudoku = Sudoku::default().set(0, 0, 4).set(0, 5, 4);
    assert_eq!(solve_sudoku(&puzzle), Err(SudokuError::NoSolution));
    assert_eq!(solve_sudoku_bfs(&puzzle), Err(SudokuError::NoSolution));
}

#[test]
fn consistent_board_without_completion_has_no_solution() {
    // Row 0 leaves only 9 for its last cell, and column 8 already holds a 9.
    let mut puzzle: Sudoku = Sudoku::default();
    for col in 0..8usize {
        puzzle = puzzle.set(0, col, (col + 1) as u8);
    }
    puzzle = puzzle.set(4, 8, 9);
    assert!(puzzle.verify());
    assert_eq!(solve_sudoku(&puzzle), Err(SudokuError::NoSolution));
    assert_eq!(solve_sudoku_bfs(&puzzle), Err(SudokuError::NoSolution));
}

#[test]
fn depth_first_backs_out_of_a_dead_end() {
    // Cell (5, 3) can take 4 or 9 as far as its row, column and box go. With
    // 4 there, nothing is left for (5, 5), so the search has to come back
    // and place 9.
    let puzzle: Sudoku = solved_sudoku().set(5, 3, 0).set(5, 5, 0).set(7, 3, 0);
    assert!(puzzle.is_valid_to_set(5, 3, 4));
    assert!(puzzle.is_valid_to_set(5, 3, 9));
    assert_eq!(solve_sudoku(&puzzle), Ok(solved_sudoku()));
    assert_eq!(solve_sudoku_bfs(&puzzle), Ok(solved_sudoku()));
}

#[test]
fn work_list_drops_a_dead_end() {
    // Cell (2, 6) can take 5 or 6. The board with 6 is taken off the list
    // first, and has nothing for (2, 7); the board with 5 leads on.
    let puzzle: Sudoku = solved_sudoku().set(2, 6, 0).set(2, 7, 0).set(7, 6, 0);
    assert!(puzzle.is_valid_to_set(2, 6, 5));
    assert!(puzzle.is_valid_to_set(2, 6, 6));
    assert_eq!(solve_sudoku_bfs(&puzzle), Ok(solved_sudoku()));
    assert_eq!(solve_sudoku(&puzzle), Ok(solved_sudoku()));
}

#[test]
fn depth_first_returns_the_first_of_two_solutions() {
    // The four blanked cells can be filled in two ways: 6 7 / 7 6, or
    // 7 6 / 6 7.
    let puzzle: Sudoku = solved_sudoku().set(0, 3, 0).set(0, 4, 0).set(3, 3, 0).set(3, 4, 0);
    assert_eq!(solve_sudoku(&puzzle), Ok(solved_sudoku()));
}

#[test]
fn work_list_returns_the_last_of_two_solutions() {
    let puzzle: Sudoku = solved_sudoku().set(0, 3, 0).set(0, 4, 0).set(3, 3, 0).set(3, 4, 0);
    let other: Sudoku = solved_sudoku().set(0, 3, 7).set(0, 4, 6).set(3, 3, 6).set(3, 4, 7);
    assert!(other.is_solved());
    assert_eq!(solve_sudoku_bfs(&puzzle), Ok(other));
}

#[test]
fn depth_first_fills_the_empty_board_with_the_first_solution() {
    let first: Sudoku = Sudoku::new([
        [1, 2, 3, 4, 5, 6, 7, 8, 9],
        [4, 5, 6, 7, 8, 9, 1, 2, 3],
        [7, 8, 9, 1, 2, 3, 4, 5, 6],
        [2, 1, 4, 3, 6, 5, 8, 9, 7],
        [3, 6, 5, 8, 9, 7, 2, 1, 4],
        [8, 9, 7, 2, 1, 4, 3, 6, 5],
        [5, 3, 1, 6, 4, 2, 9, 7, 8],
        [6, 4, 2, 9, 7, 8, 5, 3, 1],
        [9, 7, 8, 5, 3, 1, 6, 4, 2],
    ]);
    assert_eq!(solve_sudoku(&Sudoku::default()), Ok(first));
}

#[test]
fn work_list_fills_the_empty_board_with_the_last_solution() {
    let last: Sudoku = Sudoku::new([
        [9, 8, 7, 6, 5, 4, 3, 2, 1],
        [6, 5, 4, 3, 2, 1, 9, 8, 7],
        [3, 2, 1, 9, 8, 7, 6, 5, 4],
        [8, 9, 6, 7, 4, 5, 2, 1, 3],
        [7, 4, 5, 2, 1, 3, 8, 9, 6],
        [2, 1, 3, 8, 9, 6, 7, 4, 5],
        [5, 7, 9, 4, 6, 8, 1, 3, 2],
        [4, 6, 8, 1, 3, 2, 5, 7, 9],
        [1, 3, 2, 5, 7, 9, 4, 6, 8],
    ]);
    assert_eq!(solve_sudoku_bfs(&Sudoku::default()), Ok(last));
}

#[test]
fn solvers_keep_the_given_digits() {
    let puzzle: Sudoku = Sudoku::new([
        [0, 0, 0, 0, 0, 0, 0, 0, 0],
        [2, 9, 6, 8, 5, 7, 4, 3, 1],
        [4, 1, 7, 2, 9, 3, 6, 5, 8],
        [5, 6, 9, 1, 3, 4, 7, 8, 2],
        [1, 2, 3, 6, 7, 8, 5, 4, 9],
        [7, 4, 8, 5, 2, 9, 1, 6, 3],
        [6, 5, 2, 7, 8, 1, 3, 9, 4],
        [9, 8, 1, 3, 4, 5, 2, 7, 6],
        [3, 7, 4, 9, 6, 2, 8, 1, 5],
    ]);
    let before: Sudoku = puzzle;
    let solution: Sudoku = solve_sudoku(&puzzle).unwrap();
    assert_eq!(puzzle, before);
    assert!(solution.is_solved());
    for row in 0..9usize {
        for col in 0..9usize {
            if puzzle.get(row, col) != 0 {
                assert_eq!(solution.get(row, col), puzzle.get(row, col));
            }
        }
    }
    let top: [u8; 9] = [8, 3, 5, 4, 1, 6, 9, 2, 7];
    for col in 0..9usize {
        assert_eq!(solution.get(0, col), top[col]);
    }
    assert_eq!(solve_sudoku_bfs(&puzzle), Ok(solution));
}

#[test]
fn solvers_agree_on_whether_a_board_can_be_solved() {
    let mut boards: Vec<Sudoku> = Vec::new();
    boards.push(Sudoku::default());
    boards.push(solved_sudoku());
    boards.push(Sudoku::new([[1, 2, 3, 4, 5, 6, 7, 8, 9]; 9]));
    for row in 0..9usize {
        // A consistent board, and the same board with a digit that blocks it.
        let open: Sudoku = solved_sudoku().set(row, 2, 0).set(row, 6, 0);
        boards.push(open);
        boards.push(open.set(row, 2, solved_sudoku().get(row, 6)));
    }
    for board in boards.iter() {
        let depth_first: Result<Sudoku, SudokuError> = solve_sudoku(board);
        let work_list: Result<Sudoku, SudokuError> = solve_sudoku_bfs(board);
        assert_eq!(depth_first.is_ok(), work_list.is_ok());
    }
}
