use std::collections::HashSet;
use tic_tac_toe_mcts::interfaces::{GameState, Player, PlayerID, WinLengthT};
use tic_tac_toe_mcts::player::guessing::GuessingPlayer;

#[test]
fn test_guessing_player_uses_constant_probabilities() {
    const N: u16 = 10;
    const K: WinLengthT = 3;
    const ID: PlayerID = 1;
    let mut player = GuessingPlayer::<K> { id: ID };
    let board = GameState::new(N, N, None);
    let placement = player.do_move(&board);
    let values = placement
        .into_iter_2d()
        .into_iter()
        .map(|(_, val)| val)
        .collect::<HashSet<_>>();
    assert_eq!(values.len(), 1);
}

#[test]
fn test_get_id() {
    const K: WinLengthT = 3;
    const ID: PlayerID = 1;
    let player = GuessingPlayer::<K> { id: ID };
    assert_eq!(player.id, ID);
}

#[test]
fn test_guessing_player_weighs_every_cell_with_one() {
    let mut player = GuessingPlayer::<3> { id: 7 };
    let board = GameState::new(2, 3, None);
    let placement = player.do_move(&board);
    assert_eq!(placement.get_number_of_rows(), 2);
    assert_eq!(placement.get_number_of_columns(), 3);
    let values: Vec<u32> = placement.into_iter_2d().into_iter().map(|(_, val)| val).collect();
    assert_eq!(values, vec![1, 1, 1, 1, 1, 1]);
    assert_eq!(player.get_id(), 7);
}
