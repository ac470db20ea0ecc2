use tic_tac_toe_mcts::game_state_storage::{
    mix, CacheKey, GameStateStorage, NaiveGameStateStorage, HASH_MODULUS,
};
use tic_tac_toe_mcts::interfaces::{GameState, PointPlacement};

#[test]
fn test_can_store_and_retrieve() {
    let nrows = 3;
    let ncolumns = 3;
    let payload = "Some Payload!".to_string();
    let depth = 2;
    let board = GameState::new(nrows, ncolumns, None);
    let mut storage = NaiveGameStateStorage::<_, String>::new();

    storage.register_game_state(&board, payload.clone(), depth);
    let result = storage.get_payload(&board, depth);
    assert_eq!(result, Some(&payload));
}

#[test]
fn test_can_retrieve_states_with_bigger_lookahead() {
    // The storage answers with a payload that was registered with a bigger
    // lookahead than the one asked for.
    let nrows = 3;
    let ncolumns = 3;
    let payload = "Some Payload!".to_string();
    let depth = 2;
    let board = GameState::new(nrows, ncolumns, None);
    let mut storage = NaiveGameStateStorage::<_, String>::new();

    storage.register_game_state(&board, payload.clone(), depth + 1);
    let result = storage.get_payload(&board, depth);
    assert_eq!(result, Some(&payload));
}

#[test]
fn test_nothing_retrived_for_wrong_payload() {
    let nrows = 3;
    let ncolumns = 3;
    let payload = "Some Payload!".to_string();
    let depth = 2;
    let board = GameState::new(nrows, ncolumns, None);
    let mut new_board = board.clone();
    let mut storage = NaiveGameStateStorage::<_, String>::new();

    new_board.set(PointPlacement { row: 0, column: 0 }, Some(1).into());
    storage.register_game_state(&board, payload.clone(), depth + 1);
    let result = storage.get_payload(&new_board, depth);
    assert_eq!(result, None);
}

#[test]
fn test_nothing_retrived_for_to_deep_depth() {
    let nrows = 7;
    let ncolumns = 7;
    let payload = "Some Payload!".to_string();
    let depth = 5;
    let board = GameState::new(nrows, ncolumns, None);
    let mut storage = NaiveGameStateStorage::<_, String>::new();

    storage.register_game_state(&board, payload.clone(), depth - 1);
    let result = storage.get_payload(&board, depth);
    assert_eq!(result, None);
}

#[test]
fn test_registering_deeper_boards_overwrites_shallower_ones() {
    let nrows = 7;
    let ncolumns = 7;
    let deep_payload = "Deep Payload!".to_string();
    let shallow_payload = "Shallow Payload!".to_string();
    let depth = 5;
    let board = GameState::new(nrows, ncolumns, None);
    let mut storage = NaiveGameStateStorage::<_, String>::new();

    storage.register_game_state(&board, shallow_payload.clone(), depth - 1);
    storage.register_game_state(&board, deep_payload.clone(), depth);
    let shallow_result = storage.get_payload(&board, depth - 1);
    let deep_result = storage.get_payload(&board, depth);
    assert_eq!(shallow_result, Some(&deep_payload));
    assert_eq!(deep_result, Some(&deep_payload));
}

#[test]
fn test_registering_shallow_board_does_not_overwrite_deeper_one() {
    let nrows = 7;
    let ncolumns = 7;
    let deep_payload = "Deep Payload!".to_string();
    let shallow_payload = "Shallow Payload!".to_string();
    let depth = 5;
    let board = GameState::new(nrows, ncolumns, None);
    let mut storage = NaiveGameStateStorage::<_, String>::new();

    storage.register_game_state(&board, deep_payload.clone(), depth);
    storage.register_game_state(&board, shallow_payload.clone(), depth - 1);
    let result = storage.get_payload(&board, depth - 1);
    assert_eq!(result, Some(&deep_payload));
}

#[test]
fn test_depth_three_then_one_keeps_the_first_payload() {
    let board = GameState::new(3, 3, None);
    let mut storage = NaiveGameStateStorage::<_, String>::new();
    let payload_a = "a".to_string();
    let payload_b = "b".to_string();

    storage.register_game_state(&board, payload_a.clone(), 3);
    storage.register_game_state(&board, payload_b.clone(), 1);
    assert_eq!(storage.get_payload(&board, 1), Some(&payload_a));
    assert_eq!(storage.get_payload(&board, 3), Some(&payload_a));
    assert_eq!(storage.get_payload(&board, 4), None);
}

#[test]
fn test_depth_one_then_three_keeps_the_second_payload() {
    let board = GameState::new(3, 3, None);
    let mut storage = NaiveGameStateStorage::<_, String>::new();
    let payload_a = "a".to_string();
    let payload_b = "b".to_string();

    storage.register_game_state(&board, payload_a.clone(), 1);
    storage.register_game_state(&board, payload_b.clone(), 3);
    assert_eq!(storage.get_payload(&board, 1), Some(&payload_b));
    assert_eq!(storage.get_payload(&board, 3), Some(&payload_b));
}

#[test]
fn test_same_depth_registered_twice_keeps_the_first_payload() {
    let board = GameState::new(2, 2, None);
    let mut storage = NaiveGameStateStorage::<_, String>::new();

    storage.register_game_state(&board, "first".to_string(), 2);
    storage.register_game_state(&board, "second".to_string(), 2);
    assert_eq!(storage.get_payload(&board, 2), Some(&"first".to_string()));
}

#[test]
fn test_boards_of_other_shape_or_content_are_other_keys() {
    let small = GameState::new(2, 3, None);
    let turned = GameState::new(3, 2, None);
    let mut marked = small.clone();
    marked.set(PointPlacement { row: 1, column: 2 }, Some(0).into());
    let mut storage = NaiveGameStateStorage::<_, u8>::new();

    storage.register_game_state(&small, 1, 1);
    storage.register_game_state(&turned, 2, 1);
    storage.register_game_state(&marked, 3, 1);
    assert_eq!(storage.get_payload(&small, 1), Some(&1));
    assert_eq!(storage.get_payload(&turned, 1), Some(&2));
    assert_eq!(storage.get_payload(&marked, 1), Some(&3));
    assert_eq!(storage.get_payload(&marked, 0), Some(&3));
}

#[test]
fn test_mix_multiplies_adds_and_reduces() {
    assert_eq!(mix(0, 0), 0);
    assert_eq!(mix(0, 5), 5);
    assert_eq!(mix(1, 0), 1_099_511_628_211);
    assert_eq!(mix(2, 3), 2_199_023_256_425);
    assert_eq!(mix(HASH_MODULUS, 7), 7);
    assert_eq!(
        mix(u64::MAX, u64::MAX),
        ((u128::from(u64::MAX) * 1_099_511_628_211 + u128::from(u64::MAX))
            % 18_446_744_073_709_551_557) as u64
    );
}

#[test]
fn test_hash_tells_shape_and_cells() {
    let board = GameState::new(2, 3, None);
    assert_eq!(board.hash_key(), GameState::new(2, 3, None).hash_key());
    assert_ne!(board.hash_key(), GameState::new(3, 2, None).hash_key());
    let mut marked = board.clone();
    marked.set(PointPlacement { row: 0, column: 1 }, Some(0).into());
    assert_ne!(board.hash_key(), marked.hash_key());
    let mut other = board.clone();
    other.set(PointPlacement { row: 0, column: 1 }, Some(1).into());
    assert_ne!(other.hash_key(), marked.hash_key());
    // rows 1, columns 1, one free cell: ((0 * f + 1) * f + 1) * f + 0
    let f: u128 = 1_099_511_628_211;
    let expected = ((f + 1) % 18_446_744_073_709_551_557 * f) % 18_446_744_073_709_551_557;
    assert_eq!(GameState::new(1, 1, None).hash_key(), expected as u64);
    assert!(board.same_key(&board.copy_key()));
}

#[test]
fn test_many_states_are_kept_apart() {
    let mut storage = NaiveGameStateStorage::<_, u32>::new();
    let mut boards = Vec::new();
    for row in 0..6u16 {
        for column in 0..6u16 {
            for player in 0..3u16 {
                let mut board = GameState::new(6, 6, None);
                board.set(PointPlacement { row, column }, Some(player).into());
                boards.push(board);
            }
        }
    }
    for (n, board) in boards.iter().enumerate() {
        storage.register_game_state(board, n as u32, 2);
    }
    for (n, board) in boards.iter().enumerate() {
        assert_eq!(storage.get_payload(board, 2), Some(&(n as u32)));
        assert_eq!(storage.get_payload(board, 3), None);
    }
    assert_eq!(storage.get_payload(&GameState::new(6, 6, None), 0), None);
}
