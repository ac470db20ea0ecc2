//! A player whose moves come from outside, one line of text per move.

use crate::board::Grid;
use crate::interfaces::{GameState, Placement, PlayerID, PointPlacement, Weight};
use vstd::prelude::*;
use vstd::string::StrSliceExecFns;

verus! {

/// A player that moves where a line of text says.
pub struct CLIPlayer<const K: u16> {
    pub id: PlayerID,
}

/// The weights that ask for the cell `pp` and no other.
pub open spec fn single_choice<T>(board: Grid<T>, pp: PointPlacement) -> Grid<Weight> {
    Grid::<Weight>::filled(board.rows, board.columns, 0).set(pp, 1)
}

impl<const K: u16> CLIPlayer<K> {
    /// The weights with which the player asks for the move `point_placement`.
    pub fn placement_for(&self, board: &GameState, point_placement: PointPlacement) -> (placements:
        Placement)
        requires
            board.wf(),
            board@.contains(point_placement),
        ensures
            placements.wf(),
            placements@ == single_choice(board@, point_placement),
    {
        let mut placements = Placement::filled(
            board.get_number_of_rows(),
            board.get_number_of_columns(),
            0,
        );
        placements.set(point_placement, 1);
        placements
    }

    /// The player's id.
    pub fn get_id(&self) -> (id: PlayerID)
        ensures
            id == self.id,
    {
        self.id
    }
}

/// The value of a decimal digit; `None` for any other character.
pub open spec fn digit_value(c: char) -> Option<nat> {
    if c == '0' {
        Some(0)
    } else if c == '1' {
        Some(1)
    } else if c == '2' {
        Some(2)
    } else if c == '3' {
        Some(3)
    } else if c == '4' {
        Some(4)
    } else if c == '5' {
        Some(5)
    } else if c == '6' {
        Some(6)
    } else if c == '7' {
        Some(7)
    } else if c == '8' {
        Some(8)
    } else if c == '9' {
        Some(9)
    } else {
        None
    }
}

/// The number that a non-empty run of decimal digits writes; `None` where
/// the text is empty or holds anything but digits.
pub open spec fn digits_value(text: Seq<char>) -> Option<nat>
    decreases text.len(),
{
    if text.len() == 0 {
        None
    } else if text.len() == 1 {
        digit_value(text[0])
    } else {
        match (digits_value(text.drop_last()), digit_value(text.last())) {
            (Some(front), Some(digit)) => Some(front * 10 + digit),
            _ => None,
        }
    }
}

/// The board size that `text` writes: decimal digits, with leading zeros
/// or one leading plus sign if any, that make a number of at most 65535.
pub open spec fn parse_size(text: Seq<char>) -> Option<u16> {
    let digits = if text.len() > 0 && text[0] == '+' {
        text.skip(1)
    } else {
        text
    };
    match digits_value(digits) {
        Some(value) => if value <= u16::MAX {
            Some(value as u16)
        } else {
            None
        },
        None => None,
    }
}

/// The first comma of `line` stands at `at`.
pub open spec fn is_first_comma(line: Seq<char>, at: int) -> bool {
    &&& 0 <= at < line.len()
    &&& line[at] == ','
    &&& forall|k: int| 0 <= k < at ==> #[trigger] line[k] != ','
}

/// The coordinate that `line` writes: a row and a column as `parse_size`
/// reads them, with one comma between them and nothing else.
pub open spec fn parse_point(line: Seq<char>) -> Option<PointPlacement> {
    if exists|at: int| is_first_comma(line, at) {
        let at = choose|at: int| is_first_comma(line, at);
        match (parse_size(line.take(at)), parse_size(line.skip(at + 1))) {
            (Some(row), Some(column)) => Some(PointPlacement { row, column }),
            _ => None,
        }
    } else {
        None
    }
}

/// A run of digits has a value only where every character is a digit, and
/// then each of its beginnings has a value that is no larger.
pub proof fn lemma_digits_value_of_beginning(text: Seq<char>, length: int)
    requires
        1 <= length <= text.len(),
    ensures
        digits_value(text) is Some ==> digits_value(text.take(length)) is Some && digits_value(
            text.take(length),
        )->0 <= digits_value(text)->0,
        digits_value(text) is Some ==> digit_value(text[length - 1]) is Some,
    decreases text.len(),
{
    if length == text.len() {
        assert(text.take(length) =~= text);
    } else {
        assert(text.drop_last().take(length) =~= text.take(length));
        lemma_digits_value_of_beginning(text.drop_last(), length);
    }
}

/// Reads a decimal digit.
fn digit_value_of(c: char) -> (value: Option<u32>)
    ensures
        match value {
            Some(d) => digit_value(c) == Some(d as nat) && d < 10,
            None => digit_value(c) is None,
        },
{
    if c == '0' {
        Some(0)
    } else if c == '1' {
        Some(1)
    } else if c == '2' {
        Some(2)
    } else if c == '3' {
        Some(3)
    } else if c == '4' {
        Some(4)
    } else if c == '5' {
        Some(5)
    } else if c == '6' {
        Some(6)
    } else if c == '7' {
        Some(7)
    } else if c == '8' {
        Some(8)
    } else if c == '9' {
        Some(9)
    } else {
        None
    }
}

/// Reads a board size from the characters `from..to` of `line`.
fn parse_size_in(line: &str, from: usize, to: usize) -> (parsed: Option<u16>)
    requires
        from <= to <= line@.len(),
    ensures
        parsed == parse_size(line@.subrange(from as int, to as int)),
{
    let ghost text = line@.subrange(from as int, to as int);
    let mut start = from;
    if from < to && line.get_char(from) == '+' {
        start = from + 1;
    }
    let ghost digits = line@.subrange(start as int, to as int);
    assert(digits =~= if text.len() > 0 && text[0] == '+' {
        text.skip(1)
    } else {
        text
    });
    if start == to {
        return None;
    }
    let mut value: u32 = 0;
    let mut i = start;
    while i < to
        invariant
            start <= i <= to <= line@.len(),
            start < to,
            digits == line@.subrange(start as int, to as int),
            text == line@.subrange(from as int, to as int),
            digits == (if text.len() > 0 && text[0] == '+' {
                text.skip(1)
            } else {
                text
            }),
            value <= u16::MAX,
            i == start ==> value == 0,
            i > start ==> digits_value(digits.take(i - start)) == Some(value as nat),
        decreases to - i,
    {
        let c = line.get_char(i);
        assert(digits[i - start] == c);
        proof {
            lemma_digits_value_of_beginning(digits, i - start + 1);
            assert(digits.take(i - start + 1).drop_last() =~= digits.take(i - start));
        }
        match digit_value_of(c) {
            None => {
                return None;
            },
            Some(d) => {
                value = value * 10 + d;
                if value > u16::MAX as u32 {
                    return None;
                }
            },
        }
        i += 1;
    }
    assert(digits.take(to - start) =~= digits);
    Some(value as u16)
}

/// Reads the coordinate that `line` writes.
pub fn parse_point_placement(line: &str) -> (parsed: Option<PointPlacement>)
    ensures
        parsed == parse_point(line@),
{
    let length = line.unicode_len();
    let mut at: usize = 0;
    while at < length
        invariant
            at <= length,
            length == line@.len(),
            forall|k: int| 0 <= k < at ==> #[trigger] line@[k] != ',',
        decreases length - at,
    {
        if line.get_char(at) == ',' {
            assert(is_first_comma(line@, at as int));
            let ghost chosen = choose|k: int| is_first_comma(line@, k);
            assert(chosen == at) by {
                if chosen < at {
                    assert(line@[chosen] != ',');
                }
                if at < chosen {
                    assert(line@[at as int] != ',');
                }
            }
            assert(line@.take(at as int) =~= line@.subrange(0, at as int));
            assert(line@.skip(at + 1) =~= line@.subrange(at + 1, length as int));
            let row = parse_size_in(line, 0, at);
            let column = parse_size_in(line, at + 1, length);
            return match (row, column) {
                (Some(row), Some(column)) => Some(PointPlacement { row, column }),
                _ => None,
            };
        }
        at += 1;
    }
    assert(!exists|k: int| is_first_comma(line@, k));
    None
}

/// The move that `line` asks for on `board`: the coordinate that it writes,
/// where that names a cell of the board.
pub open spec fn parse_move<T>(line: Seq<char>, board: Grid<T>) -> Option<PointPlacement> {
    match parse_point(line) {
        Some(pp) => if board.contains(pp) {
            Some(pp)
        } else {
            None
        },
        None => None,
    }
}

impl<const K: u16> CLIPlayer<K> {
    /// Reads one line as a move on `board`. `None` asks for another line.
    pub fn get_point_placement(&self, line: &str, board: &GameState) -> (parsed: Option<
        PointPlacement,
    >)
        ensures
            parsed == parse_move(line@, board@),
    {
        let _ = self;  // self is not needed here.
        let nrows = board.get_number_of_rows();
        let ncolumns = board.get_number_of_columns();
        match parse_point_placement(line) {
            Some(point_placement) => {
                if point_placement.row < nrows && point_placement.column < ncolumns {
                    Some(point_placement)
                } else {
                    None
                }
            },
            None => None,
        }
    }

    /// The weights that the line asks for: all on the one cell that it
    /// names. `None` asks for another line.
    pub fn do_move(&mut self, line: &str, board: &GameState) -> (placements: Option<Placement>)
        requires
            board.wf(),
        ensures
            *final(self) == *old(self),
            match placements {
                Some(weights) => parse_move(line@, board@) matches Some(pp) && weights.wf()
                    && weights@ == single_choice(board@, pp),
                None => parse_move(line@, board@) is None,
            },
    {
        match self.get_point_placement(line, board) {
            Some(point_placement) => Some(self.placement_for(board, point_placement)),
            None => None,
        }
    }
}

} // verus!
