//! The rules of the game as mathematics: which cells a player owns, what a
//! winning line is, and which verdict a move earns.

use crate::board::{lemma_index_in_range, Grid};
use crate::interfaces::{BoardStateEntry, GameResult, PlayerID, PointPlacement};
use vstd::prelude::*;

verus! {

/// The number of line directions: horizontal, vertical and the two diagonals.
pub const DIRECTIONS: usize = 4;

/// The row step of direction `d`.
pub open spec fn row_step(d: int) -> int {
    if d == 0 {
        0
    } else {
        1
    }
}

/// The column step of direction `d`: right, none (straight down), right, left.
pub open spec fn column_step(d: int) -> int {
    if d == 0 {
        1
    } else if d == 1 {
        0
    } else if d == 2 {
        1
    } else {
        -1
    }
}

/// Whether `(row, column)` is a cell of the grid that `player` occupies.
pub open spec fn owned(
    grid: Grid<BoardStateEntry>,
    player: PlayerID,
    row: int,
    column: int,
) -> bool {
    grid.in_bounds(row, column) && grid.at(row, column) == BoardStateEntry(Some(player))
}

/// The cell `steps` steps from `(row, column)` in direction `d` is `player`'s.
pub open spec fn owned_along(
    grid: Grid<BoardStateEntry>,
    player: PlayerID,
    row: int,
    column: int,
    d: int,
    steps: int,
) -> bool {
    owned(grid, player, row + steps * row_step(d), column + steps * column_step(d))
}

/// Starting at `(row, column)` and going in direction `d`, the start cell and
/// every one of the first `length` cells belong to `player`.
pub open spec fn line_wins(
    grid: Grid<BoardStateEntry>,
    length: nat,
    player: PlayerID,
    row: int,
    column: int,
    d: int,
) -> bool {
    &&& owned(grid, player, row, column)
    &&& forall|i: int| 0 <= i < length ==> #[trigger] owned_along(grid, player, row, column, d, i)
}

/// A line of at least one cell wins exactly when each of its cells is on
/// the grid and belongs to the player.
pub proof fn lemma_line_wins_by_its_cells(
    grid: Grid<BoardStateEntry>,
    length: nat,
    player: PlayerID,
    row: int,
    column: int,
    d: int,
)
    requires
        length >= 1,
    ensures
        line_wins(grid, length, player, row, column, d) <==> forall|i: int|
            0 <= i < length ==> #[trigger] owned_along(grid, player, row, column, d, i),
{
    assert(0 * row_step(d) == 0 && 0 * column_step(d) == 0);
    if forall|i: int| 0 <= i < length ==> #[trigger] owned_along(grid, player, row, column, d, i) {
        assert(owned_along(grid, player, row, column, d, 0));
    }
}

/// Some line of `length` cells anywhere on the grid belongs to `player`.
pub open spec fn has_winning_line(
    grid: Grid<BoardStateEntry>,
    length: nat,
    player: PlayerID,
) -> bool {
    exists|row: int, column: int, d: int|
        0 <= d < DIRECTIONS && #[trigger] line_wins(grid, length, player, row, column, d)
}

/// Some line of `length` cells in direction `d` that belongs to `player`
/// passes through `at`: it starts `back` steps before `at`, with `back` less
/// than the line's length.
pub open spec fn has_winning_line_through_in(
    grid: Grid<BoardStateEntry>,
    length: nat,
    player: PlayerID,
    at: PointPlacement,
    d: int,
) -> bool {
    exists|back: int|
        0 <= back && (back < length || back == 0) && #[trigger] line_wins(
            grid,
            length,
            player,
            at.row - back * row_step(d),
            at.column - back * column_step(d),
            d,
        )
}

/// Some line of `length` cells that belongs to `player` passes through `at`.
pub open spec fn has_winning_line_through(
    grid: Grid<BoardStateEntry>,
    length: nat,
    player: PlayerID,
    at: PointPlacement,
) -> bool {
    exists|d: int|
        0 <= d < DIRECTIONS && #[trigger] has_winning_line_through_in(grid, length, player, at, d)
}

/// No cell of the grid is free.
pub open spec fn is_full(grid: Grid<BoardStateEntry>) -> bool {
    forall|i: int| 0 <= i < grid.cells.len() ==> (#[trigger] grid.cells[i]).0.is_some()
}

/// A move is legal when it names a free cell of the grid.
pub open spec fn is_legal(grid: Grid<BoardStateEntry>, at: PointPlacement) -> bool {
    grid.contains(at) && grid.get(at).0.is_none()
}

/// The grid after `mover` has been placed at `at`.
pub open spec fn after_move(
    grid: Grid<BoardStateEntry>,
    at: PointPlacement,
    mover: PlayerID,
) -> Grid<BoardStateEntry> {
    grid.set(at, BoardStateEntry(Some(mover)))
}

/// What a move leaves on the board: the mover on a legal cell, nothing otherwise.
pub open spec fn board_after(
    grid: Grid<BoardStateEntry>,
    at: PointPlacement,
    mover: PlayerID,
) -> Grid<BoardStateEntry> {
    if is_legal(grid, at) {
        after_move(grid, at, mover)
    } else {
        grid
    }
}

/// The verdict on placing `mover` at `at` on `grid`, given whether the
/// referee sees a win on the board after the move.
pub open spec fn adjudicate(
    grid: Grid<BoardStateEntry>,
    at: PointPlacement,
    mover: PlayerID,
    wins: bool,
) -> GameResult {
    if !is_legal(grid, at) {
        GameResult::IllegalMove
    } else if wins {
        GameResult::Victory
    } else if is_full(after_move(grid, at, mover)) {
        GameResult::Draw
    } else {
        GameResult::Undecided
    }
}

/// How many of the cells are free.
pub open spec fn count_free(cells: Seq<BoardStateEntry>) -> nat
    decreases cells.len(),
{
    if cells.len() == 0 {
        0
    } else if cells.last().0.is_none() {
        count_free(cells.drop_last()) + 1
    } else {
        count_free(cells.drop_last())
    }
}

/// Occupying a free cell leaves one free cell fewer.
pub proof fn lemma_occupying_uses_a_free_cell(
    cells: Seq<BoardStateEntry>,
    index: int,
    owner: PlayerID,
)
    requires
        0 <= index < cells.len(),
        cells[index].0.is_none(),
    ensures
        count_free(cells.update(index, BoardStateEntry(Some(owner)))) + 1 == count_free(cells),
    decreases cells.len(),
{
    let updated = cells.update(index, BoardStateEntry(Some(owner)));
    if index == cells.len() - 1 {
        assert(updated.drop_last() =~= cells.drop_last());
    } else {
        assert(updated.drop_last() =~= cells.drop_last().update(
            index,
            BoardStateEntry(Some(owner)),
        ));
        lemma_occupying_uses_a_free_cell(cells.drop_last(), index, owner);
    }
}

/// A legal move leaves one free cell fewer on the grid.
pub proof fn lemma_move_uses_a_free_cell(
    grid: Grid<BoardStateEntry>,
    at: PointPlacement,
    mover: PlayerID,
)
    requires
        grid.wf(),
        is_legal(grid, at),
    ensures
        count_free(after_move(grid, at, mover).cells) + 1 == count_free(grid.cells),
        after_move(grid, at, mover).wf(),
{
    lemma_index_in_range(grid, at.row as int, at.column as int);
    lemma_occupying_uses_a_free_cell(
        grid.cells,
        grid.index_of(at.row as int, at.column as int),
        mover,
    );
}

/// The line of `length` cells from `(row, column)` in direction `d` meets
/// `at` at its cell number `i`.
pub open spec fn line_hits(
    length: nat,
    row: int,
    column: int,
    d: int,
    i: int,
    at: PointPlacement,
) -> bool {
    &&& 0 <= i < length || i == 0
    &&& row + i * row_step(d) == at.row
    &&& column + i * column_step(d) == at.column
}

/// A move changes no cell but the one it names.
pub proof fn lemma_move_keeps_other_cells(
    grid: Grid<BoardStateEntry>,
    at: PointPlacement,
    mover: PlayerID,
    row: int,
    column: int,
)
    requires
        grid.wf(),
        grid.contains(at),
        grid.in_bounds(row, column),
        row != at.row || column != at.column,
    ensures
        after_move(grid, at, mover).at(row, column) == grid.at(row, column),
{
    lemma_index_in_range(grid, row, column);
    lemma_index_in_range(grid, at.row as int, at.column as int);
}

/// After a move the cell it names belongs to the mover.
pub proof fn lemma_move_takes_cell(grid: Grid<BoardStateEntry>, at: PointPlacement, mover: PlayerID)
    requires
        grid.wf(),
        grid.contains(at),
    ensures
        owned(after_move(grid, at, mover), mover, at.row as int, at.column as int),
{
    lemma_index_in_range(grid, at.row as int, at.column as int);
}

/// On the board after a legal move, a winning line of the mover either passes
/// through the cell just played or was on the board before the move.
pub proof fn lemma_new_line_passes_through_move(
    grid: Grid<BoardStateEntry>,
    length: nat,
    at: PointPlacement,
    mover: PlayerID,
)
    requires
        grid.wf(),
        is_legal(grid, at),
    ensures
        has_winning_line(after_move(grid, at, mover), length, mover) <==> (has_winning_line(
            grid,
            length,
            mover,
        ) || has_winning_line_through(after_move(grid, at, mover), length, mover, at)),
{
    let after = after_move(grid, at, mover);
    assert(after.wf()) by {
        lemma_index_in_range(grid, at.row as int, at.column as int);
    }
    if has_winning_line(after, length, mover) {
        let (row, column, d) = choose|row: int, column: int, d: int|
            0 <= d < DIRECTIONS && #[trigger] line_wins(after, length, mover, row, column, d);
        if exists|i: int| #[trigger] line_hits(length, row, column, d, i, at) {
            let back = choose|i: int| #[trigger] line_hits(length, row, column, d, i, at);
            assert(at.row - back * row_step(d) == row);
            assert(at.column - back * column_step(d) == column);
            assert(has_winning_line_through_in(after, length, mover, at, d));
        } else {
            assert(!line_hits(length, row, column, d, 0, at));
            assert(0 * row_step(d) == 0 && 0 * column_step(d) == 0);
            assert(owned(grid, mover, row, column)) by {
                lemma_move_keeps_other_cells(grid, at, mover, row, column);
            }
            assert forall|i: int| 0 <= i < length implies #[trigger] owned_along(
                grid,
                mover,
                row,
                column,
                d,
                i,
            ) by {
                assert(owned_along(after, mover, row, column, d, i));
                assert(!line_hits(length, row, column, d, i, at));
                lemma_move_keeps_other_cells(
                    grid,
                    at,
                    mover,
                    row + i * row_step(d),
                    column + i * column_step(d),
                );
            }
            assert(line_wins(grid, length, mover, row, column, d));
        }
    }
    if has_winning_line(grid, length, mover) {
        let (row, column, d) = choose|row: int, column: int, d: int|
            0 <= d < DIRECTIONS && #[trigger] line_wins(grid, length, mover, row, column, d);
        assert(grid.get(at) != BoardStateEntry(Some(mover)));
        assert(owned(after, mover, row, column)) by {
            lemma_move_keeps_other_cells(grid, at, mover, row, column);
        }
        assert forall|i: int| 0 <= i < length implies #[trigger] owned_along(
            after,
            mover,
            row,
            column,
            d,
            i,
        ) by {
            assert(owned_along(grid, mover, row, column, d, i));
            lemma_move_keeps_other_cells(
                grid,
                at,
                mover,
                row + i * row_step(d),
                column + i * column_step(d),
            );
        }
        assert(line_wins(after, length, mover, row, column, d));
    }
    if has_winning_line_through(after, length, mover, at) {
        let d = choose|d: int|
            0 <= d < DIRECTIONS && #[trigger] has_winning_line_through_in(
                after,
                length,
                mover,
                at,
                d,
            );
        let back = choose|back: int|
            0 <= back && (back < length || back == 0) && #[trigger] line_wins(
                after,
                length,
                mover,
                at.row - back * row_step(d),
                at.column - back * column_step(d),
                d,
            );
        assert(line_wins(
            after,
            length,
            mover,
            at.row - back * row_step(d),
            at.column - back * column_step(d),
            d,
        ));
    }
}

/// The whole-board scan and the scan of the lines through the cell just
/// played give the same verdict on every move, on every board on which the
/// mover has no winning line yet or completes one with this move.
pub proof fn lemma_scans_agree(
    grid: Grid<BoardStateEntry>,
    length: nat,
    at: PointPlacement,
    mover: PlayerID,
)
    requires
        grid.wf(),
        is_legal(grid, at) && has_winning_line(grid, length, mover) ==> has_winning_line_through(
            after_move(grid, at, mover),
            length,
            mover,
            at,
        ),
    ensures
        adjudicate(grid, at, mover, has_winning_line(after_move(grid, at, mover), length, mover))
            == adjudicate(
            grid,
            at,
            mover,
            has_winning_line_through(after_move(grid, at, mover), length, mover, at),
        ),
{
    if is_legal(grid, at) {
        lemma_new_line_passes_through_move(grid, length, at, mover);
    }
}

/// A move gives no winning line to anyone but the mover.
pub proof fn lemma_move_gives_others_no_line(
    grid: Grid<BoardStateEntry>,
    length: nat,
    at: PointPlacement,
    mover: PlayerID,
    other: PlayerID,
)
    requires
        grid.wf(),
        grid.contains(at),
        other != mover,
        has_winning_line(after_move(grid, at, mover), length, other),
    ensures
        has_winning_line(grid, length, other),
{
    let after = after_move(grid, at, mover);
    let (row, column, d) = choose|row: int, column: int, d: int|
        0 <= d < DIRECTIONS && #[trigger] line_wins(after, length, other, row, column, d);
    lemma_move_takes_cell(grid, at, mover);
    assert(owned(grid, other, row, column)) by {
        lemma_move_keeps_other_cells(grid, at, mover, row, column);
    }
    assert forall|i: int| 0 <= i < length implies #[trigger] owned_along(
        grid,
        other,
        row,
        column,
        d,
        i,
    ) by {
        assert(owned_along(after, other, row, column, d, i));
        lemma_move_keeps_other_cells(
            grid,
            at,
            mover,
            row + i * row_step(d),
            column + i * column_step(d),
        );
    }
    assert(line_wins(grid, length, other, row, column, d));
}

/// No player has a winning line on the grid.
pub open spec fn no_winning_line(grid: Grid<BoardStateEntry>, length: nat) -> bool {
    forall|player: PlayerID| !#[trigger] has_winning_line(grid, length, player)
}

/// The grid that the moves lead to, made one after the other on an empty
/// grid of the given shape.
pub open spec fn played(rows: nat, columns: nat, moves: Seq<(PointPlacement, PlayerID)>) -> Grid<
    BoardStateEntry,
>
    decreases moves.len(),
{
    if moves.len() == 0 {
        Grid::filled(rows, columns, BoardStateEntry(None))
    } else {
        after_move(played(rows, columns, moves.drop_last()), moves.last().0, moves.last().1)
    }
}

/// The moves are a game in progress under the whole-board rule with the
/// given win length: made one after the other on an empty grid, each was
/// legal and left the game undecided.
pub open spec fn is_game_in_progress(
    length: nat,
    rows: nat,
    columns: nat,
    moves: Seq<(PointPlacement, PlayerID)>,
) -> bool
    decreases moves.len(),
{
    moves.len() == 0 || {
        let before = played(rows, columns, moves.drop_last());
        let (at, mover) = moves.last();
        &&& is_game_in_progress(length, rows, columns, moves.drop_last())
        &&& adjudicate(
            before,
            at,
            mover,
            has_winning_line(after_move(before, at, mover), length, mover),
        ) == GameResult::Undecided
    }
}

/// While a game is in progress its grid is well formed and no player has
/// a winning line on it.
pub proof fn lemma_game_in_progress_has_no_winner(
    length: nat,
    rows: nat,
    columns: nat,
    moves: Seq<(PointPlacement, PlayerID)>,
)
    requires
        0 < rows <= u16::MAX,
        0 < columns <= u16::MAX,
        is_game_in_progress(length, rows, columns, moves),
    ensures
        played(rows, columns, moves).wf(),
        played(rows, columns, moves).rows == rows,
        played(rows, columns, moves).columns == columns,
        no_winning_line(played(rows, columns, moves), length),
    decreases moves.len(),
{
    let grid = played(rows, columns, moves);
    if moves.len() == 0 {
        assert forall|player: PlayerID| !#[trigger] has_winning_line(grid, length, player) by {
            if has_winning_line(grid, length, player) {
                let (row, column, d) = choose|row: int, column: int, d: int|
                    0 <= d < DIRECTIONS && #[trigger] line_wins(
                        grid,
                        length,
                        player,
                        row,
                        column,
                        d,
                    );
                lemma_index_in_range(grid, row, column);
            }
        }
    } else {
        let before = played(rows, columns, moves.drop_last());
        let (at, mover) = moves.last();
        lemma_game_in_progress_has_no_winner(length, rows, columns, moves.drop_last());
        lemma_index_in_range(before, at.row as int, at.column as int);
        assert forall|player: PlayerID| !#[trigger] has_winning_line(grid, length, player) by {
            if player != mover && has_winning_line(grid, length, player) {
                lemma_move_gives_others_no_line(before, length, at, mover, player);
                assert(has_winning_line(before, length, player));
            }
        }
    }
}

/// On the grid of every game in progress, the whole-board scan and the
/// scan of the lines through the cell just played give the same verdict on
/// every next move.
pub proof fn lemma_scans_agree_during_play(
    length: nat,
    rows: nat,
    columns: nat,
    moves: Seq<(PointPlacement, PlayerID)>,
    at: PointPlacement,
    mover: PlayerID,
)
    requires
        0 < rows <= u16::MAX,
        0 < columns <= u16::MAX,
        is_game_in_progress(length, rows, columns, moves),
    ensures
        ({
            let grid = played(rows, columns, moves);
            adjudicate(
                grid,
                at,
                mover,
                has_winning_line(after_move(grid, at, mover), length, mover),
            ) == adjudicate(
                grid,
                at,
                mover,
                has_winning_line_through(after_move(grid, at, mover), length, mover, at),
            )
        }),
{
    let grid = played(rows, columns, moves);
    lemma_game_in_progress_has_no_winner(length, rows, columns, moves);
    assert(!has_winning_line(grid, length, mover));
    lemma_scans_agree(grid, length, at, mover);
}

} // verus!
