//! The board as text: a fixed layout of digits, with rules between the bands
//! of three rows and bars between the groups of three columns.

use vstd::prelude::*;
use vstd::string::StringExecFns;
use crate::grid::Grid;
use crate::sudoku::Sudoku;

verus! {

/// The character that stands for a digit; an empty cell shows as `0`.
pub open spec fn digit_char(value: u8) -> char {
    seq!['0', '1', '2', '3', '4', '5', '6', '7', '8', '9'][value as int]
}

/// The horizontal rule above, between and below the bands.
pub open spec fn rule_text() -> Seq<char> {
    seq!['+', '-', '-', '-', '+', '-', '-', '-', '+', '-', '-', '-', '+']
}

/// The first `n` cells of row `r`, with a bar after the third and after the
/// sixth.
pub open spec fn cells_text(g: Grid, r: int, n: nat) -> Seq<char>
    decreases n,
{
    if n == 0 {
        Seq::empty()
    } else {
        let c = (n - 1) as int;
        let cell = cells_text(g, r, (n - 1) as nat).push(digit_char(g[r][c]));
        if c == 2 || c == 5 {
            cell.push('|')
        } else {
            cell
        }
    }
}

/// One line of the layout: row `r` between two bars, and a line break.
pub open spec fn row_text(g: Grid, r: int) -> Seq<char> {
    seq!['|'] + cells_text(g, r, 9) + seq!['|', '\n']
}

/// The lines of the first `n` rows, with a rule on a line of its own above
/// each band of three.
pub open spec fn rows_text(g: Grid, n: nat) -> Seq<char>
    decreases n,
{
    if n == 0 {
        Seq::empty()
    } else {
        let r = (n - 1) as int;
        let above = rows_text(g, (n - 1) as nat);
        if r % 3 == 0 {
            above + rule_text() + seq!['\n'] + row_text(g, r)
        } else {
            above + row_text(g, r)
        }
    }
}

/// The whole layout: the nine rows, and a closing rule without a line break.
pub open spec fn grid_text(g: Grid) -> Seq<char> {
    rows_text(g, 9) + rule_text()
}

/// The one-character text of a digit.
fn digit_text(value: u8) -> (text: &'static str)
    requires
        value <= 9,
    ensures
        text@ == seq![digit_char(value)],
{
    proof {
        reveal_strlit("0");
        reveal_strlit("1");
        reveal_strlit("2");
        reveal_strlit("3");
        reveal_strlit("4");
        reveal_strlit("5");
        reveal_strlit("6");
        reveal_strlit("7");
        reveal_strlit("8");
        reveal_strlit("9");
    }
    let text = match value {
        0 => "0",
        1 => "1",
        2 => "2",
        3 => "3",
        4 => "4",
        5 => "5",
        6 => "6",
        7 => "7",
        8 => "8",
        _ => "9",
    };
    assert(text@ =~= seq![digit_char(value)]);
    text
}

impl Sudoku {
    /// The board drawn as thirteen lines of text.
    pub fn to_text(&self) -> (text: String)
        ensures
            text@ == grid_text(self@),
    {
        let ghost g = self@;
        let mut output = String::new();
        for row in 0..9usize
            invariant
                g == self@,
                output@ == rows_text(g, row as nat),
        {
            let ghost above = output@;
            proof {
                reveal_strlit("+---+---+---+\n");
                reveal_strlit("|");
                reveal_strlit("|\n");
            }
            if row % 3 == 0 {
                output.append("+---+---+---+\n");
            }
            output.append("|");
            let ghost start = output@;
            for col in 0..9usize
                invariant
                    g == self@,
                    row < 9,
                    output@ == start + cells_text(g, row as int, col as nat),
            {
                proof {
                    reveal_strlit("|");
                }
                output.append(digit_text(self.get(row, col)));
                if col == 2 || col == 5 {
                    output.append("|");
                }
                assert(output@ =~= start + cells_text(g, row as int, (col + 1) as nat));
            }
            output.append("|\n");
            proof {
                let line = row_text(g, row as int);
                assert(seq!['|'] + cells_text(g, row as int, 9) + seq!['|', '\n'] == line);
                if row % 3 == 0 {
                    assert("+---+---+---+\n"@ =~= rule_text() + seq!['\n']);
                    assert(output@ =~= above + rule_text() + seq!['\n'] + line);
                } else {
                    assert(output@ =~= above + line);
                }
            }
        }
        proof {
            reveal_strlit("+---+---+---+");
        }
        output.append("+---+---+---+");
        assert("+---+---+---+"@ =~= rule_text());
        output
    }
}

} // verus!
