//! The optimized referee: it inspects only the lines through the cell just played.

use crate::board::Grid;
use crate::interfaces::{
    BoardSizeT, BoardStateEntry, GameResult, GameState, PlayerID, PointPlacement, TicTacToeReferee,
    WinLengthT,
};
use crate::referee::naive_referee::{Direction, NaiveReferee};
use crate::referee::rules::{
    adjudicate, after_move, column_step, has_winning_line, has_winning_line_through,
    has_winning_line_through_in, is_full, is_game_in_progress, is_legal, lemma_scans_agree,
    lemma_scans_agree_during_play, line_wins, owned, played,
    owned_along, row_step, DIRECTIONS,
};
use vstd::prelude::*;

verus! {

/// A referee that looks for a win only on the lines through the cell just
/// played.
#[derive(PartialEq, Eq, Clone, Copy, Debug)]
pub struct FasterRefereeV1 {
    pub winning_length: WinLengthT,
}

/// The longest path that `follow_direction` walks: the win length, and at
/// least the start cell.
pub open spec fn path_limit(winning_length: WinLengthT) -> int {
    if winning_length == 0 {
        1
    } else {
        winning_length as int
    }
}

impl FasterRefereeV1 {
    /// A referee for which `winning_length` cells in a row win.
    #[must_use]
    pub fn new(winning_length: u16) -> (referee: Self)
        ensures
            referee.winning_length == winning_length,
    {
        FasterRefereeV1 { winning_length }
    }

    /// The cells from `start_pp` on in `direction`, as far as the board
    /// reaches and no more of them than the win length.
    #[inline]
    fn follow_direction(
        &self,
        start_pp: PointPlacement,
        direction: &Direction,
        max_row: BoardSizeT,
        max_column: BoardSizeT,
    ) -> (path: Vec<PointPlacement>)
        requires
            start_pp.row < max_row,
            start_pp.column < max_column,
            -1 <= direction.row_delta <= 1,
            -1 <= direction.column_delta <= 1,
        ensures
            1 <= path.len() <= path_limit(self.winning_length),
            forall|i: int|
                0 <= i < path.len() ==> {
                    &&& (#[trigger] path[i]).row == start_pp.row + i * direction.row_delta
                    &&& path[i].column == start_pp.column + i * direction.column_delta
                    &&& path[i].row < max_row
                    &&& path[i].column < max_column
                },
            path.len() < self.winning_length ==> !({
                &&& 0 <= start_pp.row + path.len() * direction.row_delta < max_row
                &&& 0 <= start_pp.column + path.len() * direction.column_delta < max_column
            }),
    {
        let mut path: Vec<PointPlacement> = Vec::new();
        path.push(start_pp);
        let mut cur_pp = start_pp;
        let mut i: u16 = 1;
        assert(0 * direction.row_delta == 0 && 0 * direction.column_delta == 0);
        while i < self.winning_length
            invariant
                1 <= i <= path_limit(self.winning_length),
                path.len() == i,
                -1 <= direction.row_delta <= 1,
                -1 <= direction.column_delta <= 1,
                cur_pp == path[i - 1],
                forall|j: int|
                    0 <= j < path.len() ==> {
                        &&& (#[trigger] path[j]).row == start_pp.row + j * direction.row_delta
                        &&& path[j].column == start_pp.column + j * direction.column_delta
                        &&& path[j].row < max_row
                        &&& path[j].column < max_column
                    },
            decreases self.winning_length - i,
        {
            let (row, column) = direction.add(cur_pp);
            assert(row == start_pp.row + i * direction.row_delta && column == start_pp.column + i
                * direction.column_delta) by (nonlinear_arith)
                requires
                    row == cur_pp.row + direction.row_delta,
                    column == cur_pp.column + direction.column_delta,
                    cur_pp.row == start_pp.row + (i - 1) * direction.row_delta,
                    cur_pp.column == start_pp.column + (i - 1) * direction.column_delta,
            ;
            if row < 0 || column < 0 || row >= max_row as i32 || column >= max_column as i32 {
                return path;
            }
            let new_pp = PointPlacement { row: row as BoardSizeT, column: column as BoardSizeT };
            path.push(new_pp);
            cur_pp = new_pp;
            i += 1;
        }
        path
    }

    /// How many cells of `path` after its first belong to `player` without a gap.
    fn count_owned(path: &Vec<PointPlacement>, board: &GameState, player: PlayerID) -> (count:
        usize)
        requires
            board.wf(),
            path.len() >= 1,
            forall|i: int| 0 <= i < path.len() ==> board@.contains(#[trigger] path[i]),
        ensures
            count < path.len(),
            forall|j: int|
                1 <= j <= count ==> (#[trigger] board@.get(path[j])) == BoardStateEntry(
                    Some(player),
                ),
            count + 1 < path.len() ==> board@.get(path[count + 1]) != BoardStateEntry(Some(player)),
    {
        let mut count: usize = 0;
        while count + 1 < path.len()
            invariant
                board.wf(),
                count < path.len(),
                forall|i: int| 0 <= i < path.len() ==> board@.contains(#[trigger] path[i]),
                forall|j: int|
                    1 <= j <= count ==> (#[trigger] board@.get(path[j])) == BoardStateEntry(
                        Some(player),
                    ),
            decreases path.len() - count,
        {
            if !board.get(path[count + 1]).is_owned_by(player) {
                return count;
            }
            count += 1;
        }
        count
    }

    fn evaluate_board(
        &self,
        board: &GameState,
        placement: PointPlacement,
        player: PlayerID,
    ) -> (result: GameResult)
        requires
            board.wf(),
            board@.contains(placement),
        ensures
            result == (if has_winning_line_through(
                board@,
                self.winning_length as nat,
                player,
                placement,
            ) {
                GameResult::Victory
            } else if is_full(board@) {
                GameResult::Draw
            } else {
                GameResult::Undecided
            }),
    {
        let mut d: usize = 0;
        while d < DIRECTIONS
            invariant
                board.wf(),
                board@.contains(placement),
                d <= DIRECTIONS,
                forall|e: int|
                    0 <= e < d ==> !#[trigger] has_winning_line_through_in(
                        board@,
                        self.winning_length as nat,
                        player,
                        placement,
                        e,
                    ),
            decreases DIRECTIONS - d,
        {
            let cur = Direction::nth(d);
            if self.has_winning_state_in_direction(&cur, placement, board, player) {
                return GameResult::Victory;
            }
            d += 1;
        }
        if board.has_free_cell() {
            GameResult::Undecided
        } else {
            GameResult::Draw
        }
    }

    fn has_winning_state_in_direction(
        &self,
        direction: &Direction,
        start_pp: PointPlacement,
        board: &GameState,
        player: PlayerID,
    ) -> (wins: bool)
        requires
            board.wf(),
            board@.contains(start_pp),
            direction.number() < DIRECTIONS,
        ensures
            wins == has_winning_line_through_in(
                board@,
                self.winning_length as nat,
                player,
                start_pp,
                direction.number(),
            ),
    {
        let ghost d = direction.number();
        let ghost length = self.winning_length as nat;
        if !board.get(start_pp).is_owned_by(player) {
            proof {
                if has_winning_line_through_in(board@, length, player, start_pp, d) {
                    lemma_line_through_owns_cell(board@, length, player, start_pp, d);
                }
            }
            return false;
        }
        let nrows = board.get_number_of_rows();
        let ncolumns = board.get_number_of_columns();
        let forward = self.follow_direction(start_pp, direction, nrows, ncolumns);
        let reversed = direction.reversed();
        let backward = self.follow_direction(start_pp, &reversed, nrows, ncolumns);
        let ahead = Self::count_owned(&forward, board, player);
        let behind = Self::count_owned(&backward, board, player);
        proof {
            let grid = board@;
            let row = start_pp.row as int;
            let column = start_pp.column as int;
            assert forall|j: int| 1 <= j <= ahead implies #[trigger] owned_along(
                grid,
                player,
                row,
                column,
                d,
                j,
            ) by {
                assert(grid.contains(forward[j]));
                assert(grid.get(forward[j]) == BoardStateEntry(Some(player)));
            }
            assert forall|j: int| 1 <= j <= behind implies #[trigger] owned_along(
                grid,
                player,
                row,
                column,
                d,
                -j,
            ) by {
                assert(grid.contains(backward[j]));
                assert(grid.get(backward[j]) == BoardStateEntry(Some(player)));
                lemma_negate_steps(j, d);
            }
            if ahead < length - 1 {
                let next = ahead + 1;
                if next < forward.len() {
                    assert(grid.contains(forward[next]));
                }
                assert(!owned_along(grid, player, row, column, d, next));
            }
            if behind < length - 1 {
                let next = behind + 1;
                lemma_negate_steps(next, d);
                if next < backward.len() {
                    assert(grid.contains(backward[next]));
                }
                assert(!owned_along(grid, player, row, column, d, -next));
            }
            lemma_runs_decide_line(grid, length, player, start_pp, d, ahead as int, behind as int);
        }
        ahead as u64 + behind as u64 + 1 >= self.winning_length as u64
    }
}

/// Walking `steps` times against a direction is walking `-steps` times along it.
pub proof fn lemma_negate_steps(steps: int, d: int)
    ensures
        steps * (-row_step(d)) == (-steps) * row_step(d),
        steps * (-column_step(d)) == (-steps) * column_step(d),
{
    assert(steps * (-row_step(d)) == (-steps) * row_step(d)) by (nonlinear_arith);
    assert(steps * (-column_step(d)) == (-steps) * column_step(d)) by (nonlinear_arith);
}

/// The cell `offset` steps along a line that starts `back` steps before
/// `(row, column)` is the cell `offset - back` steps from `(row, column)`.
pub proof fn lemma_shift_along(
    grid: Grid<BoardStateEntry>,
    player: PlayerID,
    row: int,
    column: int,
    d: int,
    back: int,
    offset: int,
)
    ensures
        owned_along(
            grid,
            player,
            row - back * row_step(d),
            column - back * column_step(d),
            d,
            offset,
        ) == owned_along(grid, player, row, column, d, offset - back),
{
    let rs = row_step(d);
    let cs = column_step(d);
    assert(row - back * rs + offset * rs == row + (offset - back) * rs) by (nonlinear_arith);
    assert(column - back * cs + offset * cs == column + (offset - back) * cs) by (nonlinear_arith);
}

/// Every winning line through a cell contains that cell, so the cell is the player's.
pub proof fn lemma_line_through_owns_cell(
    grid: Grid<BoardStateEntry>,
    length: nat,
    player: PlayerID,
    at: PointPlacement,
    d: int,
)
    requires
        has_winning_line_through_in(grid, length, player, at, d),
    ensures
        owned(grid, player, at.row as int, at.column as int),
{
    let back = choose|back: int|
        0 <= back && (back < length || back == 0) && #[trigger] line_wins(
            grid,
            length,
            player,
            at.row - back * row_step(d),
            at.column - back * column_step(d),
            d,
        );
    let row = at.row - back * row_step(d);
    let column = at.column - back * column_step(d);
    if back == 0 {
        assert(0 * row_step(d) == 0 && 0 * column_step(d) == 0);
    } else {
        assert(owned_along(grid, player, row, column, d, back));
        lemma_shift_along(grid, player, at.row as int, at.column as int, d, back, back);
        assert(owned_along(grid, player, at.row as int, at.column as int, d, 0));
    }
}

/// The lengths of the two runs of the player's cells on either side of an
/// owned cell decide whether a winning line passes through it: one does
/// exactly when the runs and the cell together reach the win length.
pub proof fn lemma_runs_decide_line(
    grid: Grid<BoardStateEntry>,
    length: nat,
    player: PlayerID,
    at: PointPlacement,
    d: int,
    ahead: int,
    behind: int,
)
    requires
        owned(grid, player, at.row as int, at.column as int),
        0 <= ahead,
        0 <= behind,
        forall|j: int|
            1 <= j <= ahead ==> #[trigger] owned_along(
                grid,
                player,
                at.row as int,
                at.column as int,
                d,
                j,
            ),
        forall|j: int|
            1 <= j <= behind ==> #[trigger] owned_along(
                grid,
                player,
                at.row as int,
                at.column as int,
                d,
                -j,
            ),
        ahead < length - 1 ==> !owned_along(
            grid,
            player,
            at.row as int,
            at.column as int,
            d,
            ahead + 1,
        ),
        behind < length - 1 ==> !owned_along(
            grid,
            player,
            at.row as int,
            at.column as int,
            d,
            -(behind + 1),
        ),
    ensures
        (ahead + behind + 1 >= length) <==> has_winning_line_through_in(
            grid,
            length,
            player,
            at,
            d,
        ),
{
    let row = at.row as int;
    let column = at.column as int;
    assert(owned_along(grid, player, row, column, d, 0)) by {
        assert(0 * row_step(d) == 0 && 0 * column_step(d) == 0);
    }
    if ahead + behind + 1 >= length {
        let back = if length == 0 {
            0
        } else if behind < length - 1 {
            behind
        } else {
            length - 1
        };
        let start_row = row - back * row_step(d);
        let start_column = column - back * column_step(d);
        assert forall|i: int| 0 <= i < length implies #[trigger] owned_along(
            grid,
            player,
            start_row,
            start_column,
            d,
            i,
        ) by {
            lemma_shift_along(grid, player, row, column, d, back, i);
            let k = i - back;
            if k > 0 {
                assert(owned_along(grid, player, row, column, d, k));
            } else if k < 0 {
                assert(owned_along(grid, player, row, column, d, -(-k)));
            }
        }
        assert(owned(grid, player, start_row, start_column)) by {
            lemma_shift_along(grid, player, row, column, d, back, 0);
            assert(0 * row_step(d) == 0 && 0 * column_step(d) == 0);
            if back > 0 {
                assert(owned_along(grid, player, row, column, d, -back));
            }
        }
        assert(line_wins(grid, length, player, start_row, start_column, d));
    }
    if has_winning_line_through_in(grid, length, player, at, d) {
        let back = choose|back: int|
            0 <= back && (back < length || back == 0) && #[trigger] line_wins(
                grid,
                length,
                player,
                at.row - back * row_step(d),
                at.column - back * column_step(d),
                d,
            );
        let start_row = row - back * row_step(d);
        let start_column = column - back * column_step(d);
        if length >= 1 {
            if behind < back {
                let i = back - (behind + 1);
                assert(owned_along(grid, player, start_row, start_column, d, i));
                lemma_shift_along(grid, player, row, column, d, back, i);
                assert(false);
            }
            if ahead < length - 1 - back {
                let i = back + ahead + 1;
                assert(owned_along(grid, player, start_row, start_column, d, i));
                lemma_shift_along(grid, player, row, column, d, back, i);
                assert(false);
            }
        }
    }
}

/// The baseline referee and the optimized one give the same verdict on
/// every move, for every win length, on every board on which the mover
/// has no winning line yet or completes one with this move.
pub proof fn lemma_referees_agree(
    naive: NaiveReferee,
    faster: FasterRefereeV1,
    grid: Grid<BoardStateEntry>,
    at: PointPlacement,
    mover: PlayerID,
)
    requires
        grid.wf(),
        naive.winning_length == faster.winning_length,
        is_legal(grid, at) && has_winning_line(grid, naive.winning_length as nat, mover)
            ==> has_winning_line_through(
            after_move(grid, at, mover),
            naive.winning_length as nat,
            mover,
            at,
        ),
    ensures
        adjudicate(grid, at, mover, naive.sees_win(after_move(grid, at, mover), at, mover))
            == adjudicate(
            grid,
            at,
            mover,
            faster.sees_win(after_move(grid, at, mover), at, mover),
        ),
{
    lemma_scans_agree(grid, naive.winning_length as nat, at, mover);
}

/// On the board of every game in progress under the baseline referee, the
/// two referees give the same verdict on every next move.
pub proof fn lemma_referees_agree_during_play(
    naive: NaiveReferee,
    faster: FasterRefereeV1,
    rows: nat,
    columns: nat,
    moves: Seq<(PointPlacement, PlayerID)>,
    at: PointPlacement,
    mover: PlayerID,
)
    requires
        0 < rows <= u16::MAX,
        0 < columns <= u16::MAX,
        naive.winning_length == faster.winning_length,
        is_game_in_progress(naive.winning_length as nat, rows, columns, moves),
    ensures
        ({
            let grid = played(rows, columns, moves);
            adjudicate(grid, at, mover, naive.sees_win(after_move(grid, at, mover), at, mover))
                == adjudicate(
                grid,
                at,
                mover,
                faster.sees_win(after_move(grid, at, mover), at, mover),
            )
        }),
{
    lemma_scans_agree_during_play(naive.winning_length as nat, rows, columns, moves, at, mover);
}

impl TicTacToeReferee for FasterRefereeV1 {
    open spec fn sees_win(
        &self,
        after: Grid<BoardStateEntry>,
        at: PointPlacement,
        mover: PlayerID,
    ) -> bool {
        has_winning_line_through(after, self.winning_length as nat, mover, at)
    }

    fn receive_move(
        &self,
        board: &mut GameState,
        placement: PointPlacement,
        player_id: PlayerID,
    ) -> (result: GameResult) {
        if placement.row >= board.get_number_of_rows() || placement.column
            >= board.get_number_of_columns() {
            // Placement is out of bounds.
            return GameResult::IllegalMove;
        }
        if board.get(placement).is_taken() {
            // There is already a player on this cell.
            return GameResult::IllegalMove;
        }
        board.set(placement, BoardStateEntry(Some(player_id)));
        self.evaluate_board(board, placement, player_id)
    }
}

} // verus!
