use sudoku_solver::Sudoku;

#[test]
fn test_display() {
    assert_eq!(
        format!("{}", Sudoku::new([[1, 2, 3, 4, 5, 6, 7, 8, 9]; 9]).to_text()),
        r#"+---+---+---+
|123|456|789|
|123|456|789|
|123|456|789|
+---+---+---+
|123|456|789|
|123|456|789|
|123|456|789|
+---+---+---+
|123|456|789|
|123|456|789|
|123|456|789|
+---+---+---+"#
    );
    let mut doku = Sudoku::default();
    for row in 0..9 {
        for col in 0..9 {
            doku = doku.set(row, col, (row / 3 % 3 * 3 + (col / 3)) as u8);
        }
    }
    assert_eq!(
        format!("{}", doku.to_text()),
        r#"+---+---+---+
|000|111|222|
|000|111|222|
|000|111|222|
+---+---+---+
|333|444|555|
|333|444|555|
|333|444|555|
+---+---+---+
|666|777|888|
|666|777|888|
|666|777|888|
+---+---+---+"#
    );
}

#[test]
fn empty_cells_show_as_zero() {
    let text: String = Sudoku::default().set(0, 0, 9).set(8, 8, 1).to_text();
    let lines: Vec<&str> = text.split('\n').collect();
    assert_eq!(lines.len(), 13);
    assert_eq!(lines[0], "+---+---+---+");
    assert_eq!(lines[1], "|900|000|000|");
    assert_eq!(lines[2], "|000|000|000|");
    assert_eq!(lines[4], "+---+---+---+");
    assert_eq!(lines[8], "+---+---+---+");
    assert_eq!(lines[11], "|000|000|001|");
    assert_eq!(lines[12], "+---+---+---+");
    assert!(!text.ends_with('\n'));
}

#[test]
fn every_digit_has_its_character() {
    let sudoku: Sudoku = Sudoku::new([
        [0, 1, 2, 3, 4, 5, 6, 7, 8],
        [9, 0, 1, 2, 3, 4, 5, 6, 7],
        [8, 9, 0, 1, 2, 3, 4, 5, 6],
        [7, 8, 9, 0, 1, 2, 3, 4, 5],
        [6, 7, 8, 9, 0, 1, 2, 3, 4],
        [5, 6, 7, 8, 9, 0, 1, 2, 3],
        [4, 5, 6, 7, 8, 9, 0, 1, 2],
        [3, 4, 5, 6, 7, 8, 9, 0, 1],
        [2, 3, 4, 5, 6, 7, 8, 9, 0],
    ]);
    let text: String = sudoku.to_text();
    let lines: Vec<&str> = text.split('\n').collect();
    assert_eq!(lines[1], "|012|345|678|");
    assert_eq!(lines[2], "|901|234|567|");
    assert_eq!(lines[5], "|789|012|345|");
    assert_eq!(lines[11], "|234|567|890|");
}
