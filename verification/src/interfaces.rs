//! The vocabulary shared by every component: player ids, cells,
//! coordinates, verdicts and the grids built from them.

use crate::arena::turn_follows;
use crate::board::{Board, Grid};
use crate::referee::rules::{adjudicate, after_move, board_after, is_full, is_legal};
use vstd::prelude::*;

verus! {

/// A number of rows or columns, and a row or column number.
pub type BoardSizeT = u16;

/// How many cells in a row win.
pub type WinLengthT = u16;

/// The name of a participant.
pub type PlayerID = u16;

/// Desirability of a move: `-1` loses, `0` is neutral, `1` wins.
pub type Score = i8;

/// Share of a cell in a move-intent distribution; `0` makes the cell ineligible.
pub type Weight = u32;

/// A score for every cell: how desirable a move there is.
pub type Evaluation = Board<Score>;

/// A weight for every cell: how much a player wants to move there.
pub type Placement = Board<Weight>;

/// The board of a game.
pub type GameState = Board<BoardStateEntry>;

/// One cell of the game: free, or occupied by a player.
#[derive(PartialEq, Hash, Eq, Copy, Clone, Debug)]
pub struct BoardStateEntry(pub Option<PlayerID>);

impl BoardStateEntry {
    /// Whether the cell is occupied.
    pub fn is_taken(self) -> (taken: bool)
        ensures
            taken == self.0.is_some(),
    {
        self.0.is_some()
    }

    /// Whether the cell is free.
    pub fn is_free(self) -> (free: bool)
        ensures
            free == self.0.is_none(),
    {
        !self.is_taken()
    }

    /// Whether the cell is occupied by `player`.
    pub fn is_owned_by(self, player: PlayerID) -> (owned: bool)
        ensures
            owned == (self.0 == Some(player)),
    {
        match self.0 {
            Some(id) => id == player,
            None => false,
        }
    }
}

impl From<Option<PlayerID>> for BoardStateEntry {
    fn from(value: Option<PlayerID>) -> (entry: Self) {
        BoardStateEntry(value)
    }
}

impl vstd::std_specs::convert::FromSpecImpl<Option<PlayerID>> for BoardStateEntry {
    open spec fn obeys_from_spec() -> bool {
        true
    }

    open spec fn from_spec(value: Option<PlayerID>) -> Self {
        BoardStateEntry(value)
    }
}

impl Board<BoardStateEntry> {
    /// Whether the cell at `pp` is occupied.
    pub fn has_placement_at(&self, pp: PointPlacement) -> (taken: bool)
        requires
            self.wf(),
            self@.contains(pp),
        ensures
            taken == self@.get(pp).0.is_some(),
    {
        self.get(pp).is_taken()
    }

    /// Whether some cell of the board is free.
    pub fn has_free_cell(&self) -> (free: bool)
        requires
            self.wf(),
        ensures
            free == !is_full(self@),
    {
        let cells = self.iter_2d();
        let mut i: usize = 0;
        while i < cells.len()
            invariant
                self.wf(),
                i <= cells.len(),
                cells@.len() == self@.cells.len(),
                forall|k: int| 0 <= k < cells.len() ==> (#[trigger] cells[k]).1 == self@.cells[k],
                forall|k: int| 0 <= k < i ==> (#[trigger] self@.cells[k]).0.is_some(),
            decreases cells.len() - i,
        {
            if cells[i].1.is_free() {
                assert(self@.cells[i as int].0.is_none());
                return true;
            }
            i += 1;
        }
        false
    }
}

/// A coordinate on a grid; it is not bounded by itself.
#[derive(PartialEq, Eq, Copy, Clone, Debug, Hash, Structural)]
pub struct PointPlacement {
    pub row: BoardSizeT,
    pub column: BoardSizeT,
}

/// The verdict on one move.
#[derive(PartialEq, Eq, Copy, Clone, Debug, Structural)]
pub enum GameResult {
    Defeat,
    Draw,
    IllegalMove,
    Victory,
    Undecided,
}

/// Adjudicates moves for a fixed win rule.
pub trait TicTacToeReferee {
    /// Whether this referee sees a win for `mover` on `after`, the board on
    /// which `mover` has just been placed at `at`.
    spec fn sees_win(
        &self,
        after: Grid<BoardStateEntry>,
        at: PointPlacement,
        mover: PlayerID,
    ) -> bool;

    /// Places `player` at `placement` if the move is legal and returns the verdict.
    fn receive_move(
        &self,
        board: &mut GameState,
        placement: PointPlacement,
        player: PlayerID,
    ) -> (result: GameResult)
        requires
            old(board).wf(),
        ensures
            final(board).wf(),
            final(board)@ == board_after(old(board)@, placement, player),
            result == adjudicate(
                old(board)@,
                placement,
                player,
                self.sees_win(after_move(old(board)@, placement, player), placement, player),
            ),
    ;
}

/// A participant: it answers a game state with a weight for every cell.
pub trait Player {
    /// What the player needs to hold of itself between moves.
    spec fn wf(&self) -> bool;

    /// The player's id.
    spec fn id(&self) -> PlayerID;

    /// Whether `placement` is a grid of weights with which the player, as
    /// it is, may answer `board`.
    spec fn answers(&self, board: Grid<BoardStateEntry>, placement: Grid<Weight>) -> bool;

    /// A weight grid of the shape of `board`; the higher a cell's weight,
    /// the more the player wants to move there.
    fn do_move(&mut self, board: &GameState) -> (placement: Placement)
        requires
            old(self).wf(),
            board.wf(),
        ensures
            final(self).wf(),
            final(self).id() == old(self).id(),
            placement.wf(),
            placement@.same_shape(board@),
            old(self).answers(board@, placement@),
    ;

    fn get_id(&self) -> (id: PlayerID)
        ensures
            id == self.id(),
    ;
}

/// The id of the player at position `active` of the two.
pub open spec fn seat_id(ids: (PlayerID, PlayerID), active: int) -> PlayerID {
    if active == 0 {
        ids.0
    } else {
        ids.1
    }
}

/// A game in progress that can be advanced turn by turn.
pub trait TicTacToeArena {
    /// What the arena needs to hold of itself between turns.
    spec fn wf(&self) -> bool;

    /// The game state.
    spec fn state(&self) -> Grid<BoardStateEntry>;

    /// The position of the player whose turn it is: 0 or 1.
    spec fn active(&self) -> int;

    /// The ids of the two players, in their order.
    spec fn ids(&self) -> (PlayerID, PlayerID);

    /// The id of the player whose turn it is.
    spec fn active_id(&self) -> PlayerID;

    /// Whether `placement` is a grid of weights with which the player
    /// whose turn it is may answer `board`.
    spec fn active_answers(&self, board: Grid<BoardStateEntry>, placement: Grid<Weight>) -> bool;

    /// Whether the arena's referee sees a win for `mover` on `after`, on
    /// which `mover` has just been placed at `at`.
    spec fn sees_win(
        &self,
        after: Grid<BoardStateEntry>,
        at: PointPlacement,
        mover: PlayerID,
    ) -> bool;

    /// Asks the active player for its weights on the game state, samples a
    /// cell among those that are free and have a weight, lets the referee
    /// judge the move and passes the turn to the other player. The outcome
    /// is the verdict, the mover's id and the cell that was sampled; where
    /// no cell is eligible, the mover is defeated and no cell is named.
    fn do_next_move(&mut self) -> (outcome: (GameResult, PlayerID, Option<PointPlacement>))
        requires
            old(self).wf(),
        ensures
            final(self).wf(),
            outcome.1 == old(self).active_id(),
            old(self).active_id() == seat_id(old(self).ids(), old(self).active()),
            final(self).active_id() == seat_id(final(self).ids(), final(self).active()),
            final(self).active() == 1 - old(self).active(),
            final(self).ids() == old(self).ids(),
            forall|after: Grid<BoardStateEntry>, at: PointPlacement, mover: PlayerID|
                #[trigger] final(self).sees_win(after, at, mover) == old(self).sees_win(
                    after,
                    at,
                    mover,
                ),
            exists|placement: Grid<Weight>|
                old(self).active_answers(old(self).state(), placement) && #[trigger] turn_follows(
                    old(self).state(),
                    placement,
                    outcome.2,
                ),
            outcome.2.is_none() ==> outcome.0 == GameResult::Defeat && final(self).state() == old(
                self,
            ).state(),
            outcome.2 matches Some(pp) ==> {
                &&& is_legal(old(self).state(), pp)
                &&& final(self).state() == after_move(old(self).state(), pp, outcome.1)
                &&& outcome.0 == adjudicate(
                    old(self).state(),
                    pp,
                    outcome.1,
                    old(self).sees_win(after_move(old(self).state(), pp, outcome.1), pp, outcome.1),
                )
            },
    ;

    /// A copy of the game state.
    fn get_board(&self) -> (board: GameState)
        requires
            self.wf(),
        ensures
            board.wf(),
            board@ == self.state(),
    ;
}

} // verus!
