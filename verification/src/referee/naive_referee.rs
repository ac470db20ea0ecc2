//! The baseline referee: after every move it scans the whole board for a
//! winning line.

use crate::board::{lemma_index_in_range, lemma_point_in_bounds, Grid};
use crate::interfaces::{
    BoardStateEntry, GameResult, GameState, PlayerID, PointPlacement, TicTacToeReferee, WinLengthT,
};
use crate::referee::rules::{
    column_step, has_winning_line, is_full, line_wins, owned, owned_along, row_step, DIRECTIONS,
};
use vstd::prelude::*;

verus! {

/// A referee that looks for a win on the whole board.
#[derive(PartialEq, Eq, Clone, Copy, Debug)]
pub struct NaiveReferee {
    pub winning_length: WinLengthT,
}

/// One of the four directions in which a line can run.
#[derive(PartialEq, Eq, Clone, Copy, Debug)]
pub struct Direction {
    pub row_delta: i32,
    pub column_delta: i32,
}

impl Direction {
    /// The number of the direction among the four: the `d` below
    /// `DIRECTIONS` with these steps; `DIRECTIONS` for any other steps.
    pub open spec fn number(self) -> int {
        if self.row_delta == 0 && self.column_delta == 1 {
            0
        } else if self.row_delta == 1 && self.column_delta == 0 {
            1
        } else if self.row_delta == 1 && self.column_delta == 1 {
            2
        } else if self.row_delta == 1 && self.column_delta == -1 {
            3
        } else {
            DIRECTIONS as int
        }
    }

    /// Direction number `d` of the four.
    pub fn nth(d: usize) -> (direction: Direction)
        requires
            d < DIRECTIONS,
        ensures
            direction.number() == d,
            direction.row_delta == row_step(d as int),
            direction.column_delta == column_step(d as int),
    {
        if d == 0 {
            Direction { row_delta: 0, column_delta: 1 }
        } else if d == 1 {
            Direction { row_delta: 1, column_delta: 0 }
        } else if d == 2 {
            Direction { row_delta: 1, column_delta: 1 }
        } else {
            Direction { row_delta: 1, column_delta: -1 }
        }
    }

    /// The same line walked the other way.
    pub fn reversed(&self) -> (direction: Direction)
        requires
            -1 <= self.row_delta <= 1,
            -1 <= self.column_delta <= 1,
        ensures
            direction.row_delta == -self.row_delta,
            direction.column_delta == -self.column_delta,
    {
        Direction { row_delta: -self.row_delta, column_delta: -self.column_delta }
    }

    /// The coordinate one step from `other` in this direction; it may lie off any board.
    #[inline]
    pub fn add(&self, other: PointPlacement) -> (next: (i32, i32))
        requires
            -1 <= self.row_delta <= 1,
            -1 <= self.column_delta <= 1,
        ensures
            next.0 == other.row + self.row_delta,
            next.1 == other.column + self.column_delta,
    {
        let row = other.row as i32 + self.row_delta;
        let column = other.column as i32 + self.column_delta;
        (row, column)
    }
}

impl NaiveReferee {
    /// A referee for which `winning_length` cells in a row win.
    #[must_use]
    pub fn new(winning_length: u16) -> (referee: Self)
        ensures
            referee.winning_length == winning_length,
    {
        Self { winning_length }
    }

    fn evaluate_board(&self, board: &GameState, player: PlayerID) -> (result: GameResult)
        requires
            board.wf(),
        ensures
            result == (if has_winning_line(board@, self.winning_length as nat, player) {
                GameResult::Victory
            } else if is_full(board@) {
                GameResult::Draw
            } else {
                GameResult::Undecided
            }),
    {
        let mut has_free_cells = false;
        let nrows = board.get_number_of_rows();
        let ncolumns = board.get_number_of_columns();
        let ghost length = self.winning_length as nat;
        let mut row: u16 = 0;
        while row < nrows
            invariant
                board.wf(),
                nrows == board@.rows,
                ncolumns == board@.columns,
                row <= nrows,
                length == self.winning_length,
                forall|r: int, c: int, d: int|
                    0 <= r < row && 0 <= c < ncolumns && 0 <= d < DIRECTIONS
                        ==> !#[trigger] line_wins(board@, length, player, r, c, d),
                has_free_cells <==> exists|r: int, c: int|
                    0 <= r < row && 0 <= c < ncolumns && (#[trigger] board@.at(r, c)).0.is_none(),
            decreases nrows - row,
        {
            let mut column: u16 = 0;
            while column < ncolumns
                invariant
                    board.wf(),
                    nrows == board@.rows,
                    ncolumns == board@.columns,
                    row < nrows,
                    column <= ncolumns,
                    length == self.winning_length,
                    forall|r: int, c: int, d: int|
                        (0 <= r < row && 0 <= c < ncolumns || r == row && 0 <= c < column) && 0 <= d
                            < DIRECTIONS ==> !#[trigger] line_wins(board@, length, player, r, c, d),
                    has_free_cells <==> exists|r: int, c: int|
                        (0 <= r < row && 0 <= c < ncolumns || r == row && 0 <= c < column) && (
                        #[trigger] board@.at(r, c)).0.is_none(),
                decreases ncolumns - column,
            {
                let pp = PointPlacement { row, column };
                let value = board.get(pp);
                if value.is_free() {
                    has_free_cells = true;
                }
                let mut d: usize = 0;
                while d < DIRECTIONS
                    invariant
                        board.wf(),
                        board@.contains(pp),
                        pp.row == row,
                        pp.column == column,
                        d <= DIRECTIONS,
                        length == self.winning_length,
                        forall|e: int|
                            0 <= e < d ==> !#[trigger] line_wins(
                                board@,
                                length,
                                player,
                                row as int,
                                column as int,
                                e,
                            ),
                    decreases DIRECTIONS - d,
                {
                    let cur = Direction::nth(d);
                    if self.has_winning_state_in_direction(&cur, pp, board, player) {
                        return GameResult::Victory;
                    }
                    d += 1;
                }
                column += 1;
            }
            row += 1;
        }
        proof {
            lemma_no_line_off_board(board@, length, player);
            lemma_full_by_coordinates(board@);
        }
        if !has_free_cells {
            return GameResult::Draw;
        }
        GameResult::Undecided
    }

    fn has_winning_state_in_direction(
        &self,
        direction: &Direction,
        start_pp: PointPlacement,
        board: &GameState,
        player: PlayerID,
    ) -> (wins: bool)
        requires
            board.wf(),
            board@.contains(start_pp),
            direction.number() < DIRECTIONS,
        ensures
            wins == line_wins(
                board@,
                self.winning_length as nat,
                player,
                start_pp.row as int,
                start_pp.column as int,
                direction.number(),
            ),
    {
        let ghost d = direction.number();
        let ghost row = start_pp.row as int;
        let ghost column = start_pp.column as int;
        if !board.get(start_pp).is_owned_by(player) {
            return false;
        }
        let max_row = board.get_number_of_rows() as i32;
        let max_column = board.get_number_of_columns() as i32;
        let mut cur_pp = start_pp;
        assert(owned_along(board@, player, row, column, d, 0));
        let mut i: u16 = 1;
        while i < self.winning_length
            invariant
                board.wf(),
                1 <= i,
                i <= self.winning_length || self.winning_length == 0,
                max_row == board@.rows,
                max_column == board@.columns,
                0 <= d < DIRECTIONS,
                direction.row_delta == row_step(d),
                direction.column_delta == column_step(d),
                row == start_pp.row,
                column == start_pp.column,
                owned(board@, player, row, column),
                cur_pp.row == row + (i - 1) * row_step(d),
                cur_pp.column == column + (i - 1) * column_step(d),
                forall|j: int|
                    0 <= j < i ==> #[trigger] owned_along(board@, player, row, column, d, j),
            decreases self.winning_length - i,
        {
            let (next_row, next_column) = direction.add(cur_pp);
            assert(next_row == row + i * row_step(d) && next_column == column + i * column_step(d))
                by (nonlinear_arith)
                requires
                    next_row == cur_pp.row + row_step(d),
                    next_column == cur_pp.column + column_step(d),
                    cur_pp.row == row + (i - 1) * row_step(d),
                    cur_pp.column == column + (i - 1) * column_step(d),
            ;
            if next_row < 0 || next_column < 0 || next_row >= max_row || next_column >= max_column {
                assert(!owned_along(board@, player, row, column, d, i as int));
                return false;
            }
            let new_pp = PointPlacement { row: next_row as u16, column: next_column as u16 };
            if !board.get(new_pp).is_owned_by(player) {
                assert(!owned_along(board@, player, row, column, d, i as int));
                return false;
            }
            assert(owned_along(board@, player, row, column, d, i as int));
            cur_pp = new_pp;
            i += 1;
        }
        true
    }
}

/// A winning line starts on an owned cell, so none starts off the board.
pub proof fn lemma_no_line_off_board(grid: Grid<BoardStateEntry>, length: nat, player: PlayerID)
    requires
        grid.wf(),
    ensures
        has_winning_line(grid, length, player) <==> exists|r: int, c: int, d: int|
            0 <= r < grid.rows && 0 <= c < grid.columns && 0 <= d < DIRECTIONS
                && #[trigger] line_wins(grid, length, player, r, c, d),
{
    if has_winning_line(grid, length, player) {
        let (r, c, d) = choose|r: int, c: int, d: int|
            0 <= d < DIRECTIONS && #[trigger] line_wins(grid, length, player, r, c, d);
        assert(owned(grid, player, r, c));
        assert(0 <= r < grid.rows && 0 <= c < grid.columns && 0 <= d < DIRECTIONS && line_wins(
            grid,
            length,
            player,
            r,
            c,
            d,
        ));
    }
}

/// A grid is full exactly when no coordinate names a free cell.
pub proof fn lemma_full_by_coordinates(grid: Grid<BoardStateEntry>)
    requires
        grid.wf(),
    ensures
        is_full(grid) <==> !exists|r: int, c: int|
            0 <= r < grid.rows && 0 <= c < grid.columns && (#[trigger] grid.at(r, c)).0.is_none(),
{
    if is_full(grid) {
        assert forall|r: int, c: int| 0 <= r < grid.rows && 0 <= c < grid.columns implies !(
        #[trigger] grid.at(r, c)).0.is_none() by {
            lemma_index_in_range(grid, r, c);
            assert(grid.cells[grid.index_of(r, c)].0.is_some());
        }
    } else {
        let i = choose|i: int| 0 <= i < grid.cells.len() && !(#[trigger] grid.cells[i]).0.is_some();
        lemma_point_in_bounds(grid, i);
        let pp = grid.point(i);
        assert(grid.at(pp.row as int, pp.column as int) == grid.cells[i]);
        assert(0 <= pp.row < grid.rows && 0 <= pp.column < grid.columns && grid.at(
            pp.row as int,
            pp.column as int,
        ).0.is_none());
    }
}

impl TicTacToeReferee for NaiveReferee {
    open spec fn sees_win(
        &self,
        after: Grid<BoardStateEntry>,
        at: PointPlacement,
        mover: PlayerID,
    ) -> bool {
        has_winning_line(after, self.winning_length as nat, mover)
    }

    fn receive_move(
        &self,
        board: &mut GameState,
        placement: PointPlacement,
        player_id: PlayerID,
    ) -> (result: GameResult) {
        if placement.row >= board.get_number_of_rows() || placement.column
            >= board.get_number_of_columns() {
            // Placement is out of bounds.
            return GameResult::IllegalMove;
        }
        if board.get(placement).is_taken() {
            // There is already a player on this cell.
            return GameResult::IllegalMove;
        }
        board.set(placement, BoardStateEntry(Some(player_id)));
        self.evaluate_board(board, player_id)
    }
}

} // verus!
