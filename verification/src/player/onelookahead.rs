//! A player that looks one move ahead: it takes a move that wins at once
//! where there is one.

use crate::board::{lemma_point_in_bounds, Grid};
use crate::interfaces::{
    BoardStateEntry, GameResult, GameState, Placement, Player, PlayerID, TicTacToeReferee, Weight,
};
use crate::player::minmax::verdict_at;
use vstd::prelude::*;

verus! {

/// A player that sees the moves that win at once.
pub struct OneLookaheadPlayer<R: TicTacToeReferee> {
    other_id: PlayerID,
    referee: R,
    self_id: PlayerID,
}

/// Whether `player` would win at once by moving to the cell at `index`.
pub open spec fn wins_at<R: TicTacToeReferee>(
    referee: R,
    grid: Grid<BoardStateEntry>,
    player: PlayerID,
    index: int,
) -> bool {
    verdict_at(referee, grid, player, index) == GameResult::Victory
}

/// Whether `player` has a move on `grid` that wins at once.
pub open spec fn can_win<R: TicTacToeReferee>(
    referee: R,
    grid: Grid<BoardStateEntry>,
    player: PlayerID,
) -> bool {
    exists|index: int|
        0 <= index < grid.cells.len() && #[trigger] wins_at(referee, grid, player, index)
}

/// The weights that mark the moves with which `player` wins at once: `1`
/// on each of them, `otherwise` everywhere else.
pub open spec fn winning_moves<R: TicTacToeReferee>(
    referee: R,
    grid: Grid<BoardStateEntry>,
    player: PlayerID,
    otherwise: Weight,
) -> Grid<Weight> {
    Grid {
        rows: grid.rows,
        columns: grid.columns,
        cells: Seq::new(
            grid.cells.len(),
            |index: int|
                if wins_at(referee, grid, player, index) {
                    1 as Weight
                } else {
                    otherwise
                },
        ),
    }
}

impl<R: TicTacToeReferee> OneLookaheadPlayer<R> {
    /// The opponent's id.
    pub closed spec fn opponent(&self) -> PlayerID {
        self.other_id
    }

    /// The referee that the player consults.
    pub closed spec fn judge(&self) -> R {
        self.referee
    }

    /// The player's own id.
    pub closed spec fn me(&self) -> PlayerID {
        self.self_id
    }

    /// A player with the id `self_id` that plays against `other_id`.
    #[allow(dead_code)]
    pub fn new(other_id: PlayerID, referee: R, self_id: PlayerID) -> (player: Self)
        ensures
            player.opponent() == other_id,
            player.judge() == referee,
            player.me() == self_id,
    {
        Self { other_id, referee, self_id }
    }

    /// Marks with `1` the moves with which `player` wins at once, on a grid
    /// that holds `otherwise` everywhere else, and says whether there is one.
    fn mark_winning_moves(&self, board: &GameState, player: PlayerID, otherwise: Weight) -> (found:
        (bool, Placement))
        requires
            board.wf(),
        ensures
            found.0 == can_win(self.referee, board@, player),
            found.1.wf(),
            found.1@ == winning_moves(self.referee, board@, player, otherwise),
    {
        let mut has_move = false;
        let mut mut_board = board.clone();
        let mut placements = Placement::filled(
            board.get_number_of_rows(),
            board.get_number_of_columns(),
            otherwise,
        );
        let cells = board.iter_2d();
        let mut i: usize = 0;
        while i < cells.len()
            invariant
                board.wf(),
                mut_board.wf(),
                mut_board@ == board@,
                placements.wf(),
                placements@.same_shape(board@),
                i <= cells.len(),
                cells.len() == board@.cells.len(),
                forall|k: int|
                    0 <= k < cells.len() ==> (#[trigger] cells[k]).0 == board@.point(k)
                        && *cells[k].1 == board@.cells[k],
                has_move == exists|k: int|
                    0 <= k < i && #[trigger] wins_at(self.referee, board@, player, k),
                forall|k: int|
                    0 <= k < i ==> #[trigger] placements@.cells[k] == winning_moves(
                        self.referee,
                        board@,
                        player,
                        otherwise,
                    ).cells[k],
                forall|k: int|
                    i <= k < cells.len() ==> #[trigger] placements@.cells[k] == otherwise,
            decreases cells.len() - i,
        {
            let pp = cells[i].0;
            let old_val = *cells[i].1;
            proof {
                lemma_point_in_bounds(board@, i as int);
                lemma_point_in_bounds(placements@, i as int);
            }
            let result = self.referee.receive_move(&mut mut_board, pp, player);
            let wins = match result {
                GameResult::Victory => true,
                _ => false,
            };
            assert(wins == wins_at(self.referee, board@, player, i as int));
            if wins {
                placements.set(pp, 1);
                has_move = true;
            }
            mut_board.set(pp, old_val);
            assert(mut_board@.cells =~= board@.cells);
            i += 1;
        }
        assert(placements@.cells =~= winning_moves(self.referee, board@, player, otherwise).cells);
        (has_move, placements)
    }

    /// Whether the opponent has a move that wins at once, and a grid that
    /// holds `1` everywhere.
    fn get_loosing_moves(&mut self, board: &GameState) -> (found: (bool, Placement))
        requires
            board.wf(),
        ensures
            *final(self) == *old(self),
            found.0 == can_win(old(self).judge(), board@, old(self).opponent()),
            found.1.wf(),
            found.1@ == Grid::<Weight>::filled(board@.rows, board@.columns, 1),
    {
        let found = self.mark_winning_moves(board, self.other_id, 1);
        assert(found.1@.cells =~= Grid::<Weight>::filled(board@.rows, board@.columns, 1).cells);
        found
    }

    /// Whether the player has a move that wins at once, and the grid that
    /// holds `1` on each such move and `0` elsewhere.
    fn get_winning_moves(&mut self, board: &GameState) -> (found: (bool, Placement))
        requires
            board.wf(),
        ensures
            *final(self) == *old(self),
            found.0 == can_win(old(self).judge(), board@, old(self).me()),
            found.1.wf(),
            found.1@ == winning_moves(old(self).judge(), board@, old(self).me(), 0),
    {
        let id = self.get_id();
        self.mark_winning_moves(board, id, 0)
    }
}

impl<R: TicTacToeReferee> Player for OneLookaheadPlayer<R> {
    open spec fn wf(&self) -> bool {
        true
    }

    open spec fn id(&self) -> PlayerID {
        self.me()
    }

    open spec fn answers(&self, board: Grid<BoardStateEntry>, placement: Grid<Weight>) -> bool {
        placement == (if can_win(self.judge(), board, self.me()) {
            winning_moves(self.judge(), board, self.me(), 0)
        } else {
            Grid::<Weight>::filled(board.rows, board.columns, 1)
        })
    }

    fn do_move(&mut self, board: &GameState) -> (placement: Placement)
        ensures
            *final(self) == *old(self),
    {
        let (has_winning_move, placements) = self.get_winning_moves(board);
        if has_winning_move {
            return placements;
        }
        let (has_loosing_move, placements) = self.get_loosing_moves(board);
        if has_loosing_move {
            return placements;
        }
        Placement::filled(board.get_number_of_rows(), board.get_number_of_columns(), 1)
    }

    fn get_id(&self) -> (id: PlayerID) {
        self.self_id
    }
}

} // verus!
