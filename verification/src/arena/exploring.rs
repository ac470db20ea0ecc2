//! An arena in which either player may start: it plays hypothetical
//! continuations from a given board.

use crate::arena::play_turn;
use crate::board::Grid;
use crate::interfaces::{
    seat_id, BoardStateEntry, GameResult, GameState, Player, PlayerID, PointPlacement,
    TicTacToeArena, TicTacToeReferee, Weight,
};
use vstd::prelude::*;

verus! {

/// Two players who take turns on one board, either of them starting.
pub struct ExploringTicTacToeArena<First: Player, Second: Player, R: TicTacToeReferee> {
    active_player: usize,
    board: GameState,
    player0: First,
    player1: Second,
    referee: R,
}

impl<First: Player, Second: Player, R: TicTacToeReferee> ExploringTicTacToeArena<First, Second, R> {
    /// The referee.
    pub closed spec fn judge(&self) -> R {
        self.referee
    }

    /// The two players, in their order.
    pub closed spec fn players(&self) -> (First, Second) {
        (self.player0, self.player1)
    }

    /// An arena on `board` in which the one player whose id is
    /// `starting_player` moves first.
    pub fn new(
        board: GameState,
        player0: First,
        player1: Second,
        starting_player: PlayerID,
        referee: R,
    ) -> (arena: Self)
        requires
            board.wf(),
            player0.wf(),
            player1.wf(),
            (player0.id() == starting_player) != (player1.id() == starting_player),
        ensures
            arena.wf(),
            arena.state() == board@,
            arena.judge() == referee,
            arena.players() == (player0, player1),
            arena.ids() == (player0.id(), player1.id()),
            arena.active_id() == starting_player,
            arena.active() == (if player0.id() == starting_player {
                0int
            } else {
                1int
            }),
    {
        let active_player: usize = if player0.get_id() == starting_player {
            0
        } else {
            1
        };
        Self { board, player0, player1, active_player, referee }
    }

    /// Ends the game and hands back the players and the referee.
    pub fn into_parts(self) -> (parts: (GameState, First, Second, R))
        requires
            self.wf(),
        ensures
            parts.0.wf(),
            parts.0@ == self.state(),
            parts.1.wf(),
            parts.2.wf(),
            (parts.1, parts.2) == self.players(),
            (parts.1.id(), parts.2.id()) == self.ids(),
            parts.3 == self.judge(),
    {
        (self.board, self.player0, self.player1, self.referee)
    }
}

impl<First: Player, Second: Player, R: TicTacToeReferee> TicTacToeArena for ExploringTicTacToeArena<
    First,
    Second,
    R,
> {
    closed spec fn wf(&self) -> bool {
        &&& self.active_player < 2
        &&& self.board.wf()
        &&& self.player0.wf()
        &&& self.player1.wf()
    }

    closed spec fn state(&self) -> Grid<BoardStateEntry> {
        self.board@
    }

    closed spec fn active(&self) -> int {
        self.active_player as int
    }

    closed spec fn ids(&self) -> (PlayerID, PlayerID) {
        (self.player0.id(), self.player1.id())
    }

    open spec fn active_id(&self) -> PlayerID {
        seat_id(self.ids(), self.active())
    }

    open spec fn active_answers(
        &self,
        board: Grid<BoardStateEntry>,
        placement: Grid<Weight>,
    ) -> bool {
        if self.active() == 0 {
            self.players().0.answers(board, placement)
        } else {
            self.players().1.answers(board, placement)
        }
    }

    open spec fn sees_win(
        &self,
        after: Grid<BoardStateEntry>,
        at: PointPlacement,
        mover: PlayerID,
    ) -> bool {
        self.judge().sees_win(after, at, mover)
    }

    fn do_next_move(&mut self) -> (outcome: (GameResult, PlayerID, Option<PointPlacement>))
        ensures
            final(self).judge() == old(self).judge(),
    {
        let outcome = if self.active_player == 0 {
            play_turn(&mut self.board, &mut self.player0, &self.referee)
        } else {
            play_turn(&mut self.board, &mut self.player1, &self.referee)
        };
        self.active_player = 1 - self.active_player;
        outcome
    }

    fn get_board(&self) -> (board: GameState) {
        self.board.clone()
    }
}

} // verus!
