use sudoku_solver::Sudoku;

fn solved_values() -> [[u8; 9]; 9] {
    [
        [8, 3, 5, 4, 1, 6, 9, 2, 7],
        [2, 9, 6, 8, 5, 7, 4, 3, 1],
        [4, 1, 7, 2, 9, 3, 6, 5, 8],
        [5, 6, 9, 1, 3, 4, 7, 8, 2],
        [1, 2, 3, 6, 7, 8, 5, 4, 9],
        [7, 4, 8, 5, 2, 9, 1, 6, 3],
        [6, 5, 2, 7, 8, 1, 3, 9, 4],
        [9, 8, 1, 3, 4, 5, 2, 7, 6],
        [3, 7, 4, 9, 6, 2, 8, 1, 5],
    ]
}

#[test]
fn test_new() {
    let values: [[u8; 9]; 9] = [[1, 2, 3, 4, 5, 6, 7, 8, 9]; 9];
    let sudoku: Sudoku = Sudoku::new(values);
    for (row_idx, row) in values.iter().enumerate() {
        for (col_idx, cell) in row.iter().enumerate() {
            assert_eq!(sudoku.get(row_idx, col_idx), *cell);
        }
    }
}

#[test]
fn test_verify_then_set() {
    let sudoku: Sudoku = Sudoku::default();
    for i in 0..9 {
        assert!(sudoku.is_valid_to_set(0, 0, (i + 1) as u8));
    }
}

#[test]
fn test_set() {
    let mut sudoku: Sudoku = Sudoku::default();
    sudoku = sudoku.set(0, 0, 1);
    assert_eq!(sudoku.get(0, 0), 1);
}

#[test]
fn test_verify() {
    // Negative case
    assert!(!Sudoku::new([[1, 2, 3, 4, 5, 6, 7, 8, 9]; 9]).verify());

    // Positive case
    assert!(Sudoku::new([
        [8, 3, 5, 4, 1, 6, 9, 2, 7],
        [2, 9, 6, 8, 5, 7, 4, 3, 1],
        [4, 1, 7, 2, 9, 3, 6, 5, 8],
        [5, 6, 9, 1, 3, 4, 7, 8, 2],
        [1, 2, 3, 6, 7, 8, 5, 4, 9],
        [7, 4, 8, 5, 2, 9, 1, 6, 3],
        [6, 5, 2, 7, 8, 1, 3, 9, 4],
        [9, 8, 1, 3, 4, 5, 2, 7, 6],
        [3, 7, 4, 9, 6, 2, 8, 1, 5],
    ])
    .verify());
}

#[test]
fn default_board_is_empty_and_consistent() {
    let sudoku: Sudoku = Sudoku::default();
    for row in 0..9usize {
        for col in 0..9usize {
            assert_eq!(sudoku.get(row, col), 0);
        }
    }
    assert!(sudoku.verify());
    assert!(!sudoku.is_solved());
    assert_eq!(sudoku, Sudoku::new([[0; 9]; 9]));
}

#[test]
fn blank_groups_never_count_as_repeats() {
    let sudoku: Sudoku = Sudoku::default().set(4, 4, 7);
    for index in 0..9usize {
        assert!(sudoku.verify_row(index));
        assert!(sudoku.verify_col(index));
        assert!(sudoku.verify_box_by_index(index));
    }
    assert!(sudoku.verify());
}

#[test]
fn set_leaves_the_receiver_and_the_other_cells_alone() {
    let before: Sudoku = Sudoku::new(solved_values());
    let after: Sudoku = before.set(3, 7, 0);
    assert_eq!(before.get(3, 7), 8);
    assert_eq!(after.get(3, 7), 0);
    for row in 0..9usize {
        for col in 0..9usize {
            if row != 3 || col != 7 {
                assert_eq!(after.get(row, col), before.get(row, col));
            }
        }
    }
}

#[test]
fn set_twice_keeps_the_second_digit() {
    let start: Sudoku = Sudoku::new(solved_values());
    for row in 0..9usize {
        for col in 0..9usize {
            let twice: Sudoku = start.set(row, col, 4).set(row, col, 9);
            assert_eq!(twice.get(row, col), 9);
            assert_eq!(twice, start.set(row, col, 9));
        }
    }
}

#[test]
fn verify_finds_a_repeat_in_a_row_only() {
    // The two 5s share row 2, but neither a column nor a box.
    let sudoku: Sudoku = Sudoku::default().set(2, 0, 5).set(2, 8, 5);
    assert!(!sudoku.verify_row(2));
    for index in 0..9usize {
        assert!(sudoku.verify_col(index));
        assert!(sudoku.verify_box_by_index(index));
        if index != 2 {
            assert!(sudoku.verify_row(index));
        }
    }
    assert!(!sudoku.verify());
}

#[test]
fn verify_finds_a_repeat_in_a_column_only() {
    let sudoku: Sudoku = Sudoku::default().set(0, 6, 3).set(8, 6, 3);
    assert!(!sudoku.verify_col(6));
    for index in 0..9usize {
        assert!(sudoku.verify_row(index));
        assert!(sudoku.verify_box_by_index(index));
        if index != 6 {
            assert!(sudoku.verify_col(index));
        }
    }
    assert!(!sudoku.verify());
}

#[test]
fn verify_finds_a_repeat_in_a_box_only() {
    // Both 2s lie in the middle box, the box with index 4.
    let sudoku: Sudoku = Sudoku::default().set(3, 3, 2).set(5, 4, 2);
    for index in 0..9usize {
        assert!(sudoku.verify_row(index));
        assert!(sudoku.verify_col(index));
        assert_eq!(sudoku.verify_box_by_index(index), index != 4);
    }
    assert!(!sudoku.verify());
}

#[test]
fn verify_finds_a_repeat_in_the_last_box() {
    let sudoku: Sudoku = Sudoku::default().set(6, 8, 4).set(8, 6, 4);
    assert!(!sudoku.verify_box_by_index(8));
    assert!(!sudoku.verify());
}

#[test]
fn verify_box_checks_the_box_around_the_cell() {
    let sudoku: Sudoku = Sudoku::default().set(3, 6, 1).set(4, 8, 1);
    // Box 5 spans rows 3 to 5 and columns 6 to 8.
    for row in 0..9usize {
        for col in 0..9usize {
            let inside: bool = (3..6).contains(&row) && (6..9).contains(&col);
            assert_eq!(sudoku.verify_box(row, col), !inside);
        }
    }
}

#[test]
fn repeated_row_board_has_repeats_in_columns_and_boxes_only() {
    let sudoku: Sudoku = Sudoku::new([[1, 2, 3, 4, 5, 6, 7, 8, 9]; 9]);
    for index in 0..9usize {
        assert!(sudoku.verify_row(index));
        assert!(!sudoku.verify_col(index));
        assert!(!sudoku.verify_box_by_index(index));
    }
    assert!(!sudoku.verify());
    assert!(!sudoku.is_solved());
}

#[test]
fn is_valid_to_set_looks_at_row_column_and_box() {
    let sudoku: Sudoku = Sudoku::default().set(4, 4, 5);
    // Same row, same column, same box.
    assert!(!sudoku.is_valid_to_set(4, 0, 5));
    assert!(!sudoku.is_valid_to_set(0, 4, 5));
    assert!(!sudoku.is_valid_to_set(3, 3, 5));
    // Another digit, or a cell that shares nothing with (4, 4).
    assert!(sudoku.is_valid_to_set(4, 0, 6));
    assert!(sudoku.is_valid_to_set(0, 0, 5));
    assert!(sudoku.is_valid_to_set(8, 8, 5));
    // Replacing the digit where it stands.
    assert!(sudoku.is_valid_to_set(4, 4, 5));
    assert!(sudoku.is_valid_to_set(4, 4, 0));
}

#[test]
fn is_valid_to_set_ignores_repeats_elsewhere() {
    // Row 0 holds two 9s; the cell (8, 8) shares nothing with them.
    let sudoku: Sudoku = Sudoku::default().set(0, 0, 9).set(0, 1, 9);
    assert!(!sudoku.verify());
    assert!(sudoku.is_valid_to_set(8, 8, 9));
    assert!(!sudoku.set(8, 8, 9).verify());
}

#[test]
fn is_valid_to_set_leaves_the_board_alone() {
    let sudoku: Sudoku = Sudoku::new(solved_values());
    let copy: Sudoku = sudoku;
    assert!(!sudoku.is_valid_to_set(0, 0, 3));
    assert_eq!(sudoku, copy);
}

#[test]
fn is_solved_needs_every_cell_and_every_constraint() {
    let solved: Sudoku = Sudoku::new(solved_values());
    assert!(solved.is_solved());
    assert!(solved.verify());
    // One empty cell.
    let open: Sudoku = solved.set(8, 8, 0);
    assert!(open.verify());
    assert!(!open.is_solved());
    // Full, with a repeat.
    let broken: Sudoku = solved.set(8, 8, 6);
    assert!(!broken.verify());
    assert!(!broken.is_solved());
}

#[test]
fn full_boards_are_solved_exactly_when_they_verify() {
    let solved: Sudoku = Sudoku::new(solved_values());
    for row in 0..9usize {
        for col in 0..9usize {
            for val in 1..10u8 {
                let full: Sudoku = solved.set(row, col, val);
                assert_eq!(full.is_solved(), full.verify());
                assert_eq!(full.verify(), val == solved.get(row, col));
            }
        }
    }
}

#[test]
fn first_empty_reads_row_by_row() {
    let solved: Sudoku = Sudoku::new(solved_values());
    assert_eq!(solved.first_empty(), None);
    assert_eq!(Sudoku::default().first_empty(), Some((0, 0)));
    assert_eq!(solved.set(8, 8, 0).first_empty(), Some((8, 8)));
    // (2, 7) comes before (3, 1), although its column is further right.
    assert_eq!(solved.set(3, 1, 0).set(2, 7, 0).first_empty(), Some((2, 7)));
    assert_eq!(solved.set(2, 7, 0).set(2, 3, 0).first_empty(), Some((2, 3)));
}

#[test]
fn equal_cells_make_equal_boards() {
    let a: Sudoku = Sudoku::new(solved_values());
    let b: Sudoku = Sudoku::new(solved_values());
    assert_eq!(a, b);
    assert_ne!(a, b.set(0, 0, 0));
    assert_eq!(a, b.set(0, 0, 0).set(0, 0, 8));
}
