//! A player without a preference: every cell gets the same weight.

use crate::board::Grid;
use crate::interfaces::{BoardStateEntry, GameState, Placement, Player, PlayerID, Weight};
use vstd::prelude::*;

verus! {

/// A player that gives every cell the same weight.
pub struct GuessingPlayer<const K: u16> {
    pub id: PlayerID,
}

impl<const K: u16> Player for GuessingPlayer<K> {
    open spec fn wf(&self) -> bool {
        true
    }

    open spec fn id(&self) -> PlayerID {
        self.id
    }

    open spec fn answers(&self, board: Grid<BoardStateEntry>, placement: Grid<Weight>) -> bool {
        placement == Grid::<Weight>::filled(board.rows, board.columns, 1)
    }

    fn do_move(&mut self, board: &GameState) -> (placement: Placement)
        ensures
            *final(self) == *old(self),
    {
        Placement::filled(board.get_number_of_rows(), board.get_number_of_columns(), 1)
    }

    fn get_id(&self) -> (id: PlayerID) {
        self.id
    }
}

} // verus!
