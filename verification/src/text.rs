//! Plain-text forms of the game's values: what a player reads on a
//! terminal and what it types there.

use crate::board::{lemma_point_in_bounds, Board, Grid};
use crate::interfaces::{BoardStateEntry, GameResult, PointPlacement};
use vstd::prelude::*;

verus! {

/// The character of the decimal digit `d`.
pub open spec fn digit_char(d: nat) -> char {
    if d == 0 {
        '0'
    } else if d == 1 {
        '1'
    } else if d == 2 {
        '2'
    } else if d == 3 {
        '3'
    } else if d == 4 {
        '4'
    } else if d == 5 {
        '5'
    } else if d == 6 {
        '6'
    } else if d == 7 {
        '7'
    } else if d == 8 {
        '8'
    } else {
        '9'
    }
}

/// The decimal digits of `n`, most significant first, without leading zeros.
pub open spec fn decimal_digits(n: nat) -> Seq<char>
    decreases n,
{
    if n < 10 {
        seq![digit_char(n)]
    } else {
        decimal_digits(n / 10).push(digit_char(n % 10))
    }
}

/// Appends the decimal digit `d` to `text`.
fn push_digit(text: &mut String, d: u16)
    requires
        d < 10,
    ensures
        final(text)@ == old(text)@.push(digit_char(d as nat)),
{
    proof {
        reveal_strlit("0");
        reveal_strlit("1");
        reveal_strlit("2");
        reveal_strlit("3");
        reveal_strlit("4");
        reveal_strlit("5");
        reveal_strlit("6");
        reveal_strlit("7");
        reveal_strlit("8");
        reveal_strlit("9");
    }
    let digit = if d == 0 {
        "0"
    } else if d == 1 {
        "1"
    } else if d == 2 {
        "2"
    } else if d == 3 {
        "3"
    } else if d == 4 {
        "4"
    } else if d == 5 {
        "5"
    } else if d == 6 {
        "6"
    } else if d == 7 {
        "7"
    } else if d == 8 {
        "8"
    } else {
        "9"
    };
    assert(digit@ =~= seq![digit_char(d as nat)]);
    text.append(digit);
    assert(text@ =~= old(text)@.push(digit_char(d as nat)));
}

/// Appends `n` in decimal to `text`.
pub fn push_decimal(text: &mut String, n: u16)
    ensures
        final(text)@ == old(text)@ + decimal_digits(n as nat),
    decreases n,
{
    if n < 10 {
        push_digit(text, n);
        assert(text@ =~= old(text)@ + decimal_digits(n as nat));
    } else {
        push_decimal(text, n / 10);
        push_digit(text, n % 10);
        assert(text@ =~= old(text)@ + decimal_digits(n as nat));
    }
}

/// A cell as text: the owner's id in decimal, or a dot for a free cell.
pub open spec fn cell_text(cell: BoardStateEntry) -> Seq<char> {
    match cell.0 {
        Some(player_id) => decimal_digits(player_id as nat),
        None => seq!['.'],
    }
}

/// The first `upto` cells of a grid as text, row by row: the cells of a
/// row one after another, and a line feed after each row.
pub open spec fn cells_text(grid: Grid<BoardStateEntry>, upto: nat) -> Seq<char>
    decreases upto,
{
    if upto == 0 {
        Seq::empty()
    } else {
        let before = cells_text(grid, (upto - 1) as nat) + cell_text(grid.cells[upto - 1]);
        if upto % grid.columns == 0 {
            before.push('\n')
        } else {
            before
        }
    }
}

/// A grid as text.
pub open spec fn board_text(grid: Grid<BoardStateEntry>) -> Seq<char> {
    cells_text(grid, grid.cells.len())
}

/// A coordinate as text: `PointPlacement(row, column)`.
pub open spec fn point_text(pp: PointPlacement) -> Seq<char> {
    "PointPlacement("@ + decimal_digits(pp.row as nat) + ", "@ + decimal_digits(pp.column as nat)
        + ")"@
}

/// A verdict as text: its name.
pub open spec fn result_text(result: GameResult) -> Seq<char> {
    match result {
        GameResult::Defeat => "Defeat"@,
        GameResult::Draw => "Draw"@,
        GameResult::IllegalMove => "IllegalMove"@,
        GameResult::Undecided => "Undecided"@,
        GameResult::Victory => "Victory"@,
    }
}

impl BoardStateEntry {
    /// The cell as text: the owner's id, or a dot for a free cell.
    pub fn to_text(self) -> (text: String)
        ensures
            text@ == cell_text(self),
    {
        let mut text = String::new();
        match self.0 {
            Some(player_id) => {
                push_decimal(&mut text, player_id);
                assert(text@ =~= cell_text(self));
            },
            None => {
                proof {
                    reveal_strlit(".");
                }
                text.append(".");
                assert(text@ =~= cell_text(self));
            },
        }
        text
    }
}

impl PointPlacement {
    /// The coordinate as text.
    pub fn to_text(self) -> (text: String)
        ensures
            text@ == point_text(self),
    {
        let mut text = String::from_str("PointPlacement(");
        push_decimal(&mut text, self.row);
        text.append(", ");
        push_decimal(&mut text, self.column);
        text.append(")");
        text
    }
}

impl GameResult {
    /// The verdict as text.
    pub fn to_text(self) -> (text: String)
        ensures
            text@ == result_text(self),
    {
        match self {
            GameResult::Defeat => String::from_str("Defeat"),
            GameResult::Draw => String::from_str("Draw"),
            GameResult::IllegalMove => String::from_str("IllegalMove"),
            GameResult::Undecided => String::from_str("Undecided"),
            GameResult::Victory => String::from_str("Victory"),
        }
    }
}

impl Board<BoardStateEntry> {
    /// The board as text, one line per row.
    pub fn to_text(&self) -> (text: String)
        requires
            self.wf(),
        ensures
            text@ == board_text(self@),
    {
        let mut text = String::new();
        let cells = self.iter_2d();
        let ncolumns = self.get_number_of_columns();
        let mut i: usize = 0;
        assert(text@ =~= cells_text(self@, 0));
        while i < cells.len()
            invariant
                self.wf(),
                ncolumns == self@.columns,
                i <= cells.len(),
                cells.len() == self@.cells.len(),
                forall|k: int|
                    0 <= k < cells.len() ==> (#[trigger] cells[k]).0 == self@.point(k)
                        && *cells[k].1 == self@.cells[k],
                text@ == cells_text(self@, i as nat),
            decreases cells.len() - i,
        {
            let pp = cells[i].0;
            let cell = *cells[i].1;
            let ghost before = text@;
            let piece = cell.to_text();
            text.append(piece.as_str());
            proof {
                lemma_point_in_bounds(self@, i as int);
                let c = self@.columns as int;
                vstd::arithmetic::div_mod::lemma_fundamental_div_mod(i as int, c);
                vstd::arithmetic::div_mod::lemma_fundamental_div_mod(i + 1, c);
                assert(pp.column == i as int % c);
                let q = i as int / c;
                assert((q + 1) * c == c * q + c && q * c == c * q) by (nonlinear_arith);
                if pp.column + 1 == c {
                    vstd::arithmetic::div_mod::lemma_fundamental_div_mod_converse(
                        i + 1,
                        c,
                        i as int / c + 1,
                        0,
                    );
                } else {
                    vstd::arithmetic::div_mod::lemma_fundamental_div_mod_converse(
                        i + 1,
                        c,
                        i as int / c,
                        pp.column + 1,
                    );
                }
            }
            if pp.column == ncolumns - 1 {
                proof {
                    reveal_strlit("\n");
                }
                text.append("\n");
                assert(text@ =~= (before + cell_text(cell)).push('\n'));
            }
            i += 1;
        }
        text
    }
}

} // verus!
