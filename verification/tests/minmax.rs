use tic_tac_toe_mcts::game_state_storage::{GameStateStorage, NaiveGameStateStorage};
use tic_tac_toe_mcts::interfaces::{
    Evaluation, GameState, Placement, Player, PointPlacement,
};
use tic_tac_toe_mcts::player::minmax::{
    get_maximum, GetEvaluationsArgs, MinMaxPlayer, DEFEAT, DRAW, VICTORY,
};
use tic_tac_toe_mcts::referee::{FasterRefereeV1, NaiveReferee};

type Storage = NaiveGameStateStorage<GameState, Evaluation>;

fn board_of(rows: Vec<Vec<Option<u16>>>) -> GameState {
    GameState::new_with_values(&rows).unwrap()
}

fn weights_of(rows: Vec<Vec<u32>>) -> Placement {
    Placement::new_with_values(&rows).unwrap()
}

fn scores_of(rows: Vec<Vec<i8>>) -> Evaluation {
    Evaluation::new_with_values(&rows).unwrap()
}

fn correct_moves_are_found_on(board: GameState, expected: Placement, lookahead: u32) {
    let winning_length = 3;
    let other_id = 1;
    let self_id = 0;
    let game_state_storage = Storage::new();
    let referee = NaiveReferee::new(winning_length);
    let mut player = MinMaxPlayer::new(lookahead, other_id, game_state_storage, referee, self_id);

    let result = player.do_move(&board);
    let result_from_storage = player.storage().get_payload(&board, lookahead).unwrap();
    let placement_from_storage = MinMaxPlayer::<Storage, NaiveReferee>::to_placement(result_from_storage);
    assert_eq!(placement_from_storage, expected);
    assert_eq!(result, expected);
}

#[test]
fn correct_moves_are_found_direct_winning_moves() {
    correct_moves_are_found_on(
        board_of(vec![
            vec![None, Some(1), None, None, None],
            vec![None, Some(0), None, None, None],
            vec![None, None, Some(0), None, Some(0)],
            vec![None, Some(0), None, None, Some(1)],
            vec![None, Some(1), None, None, Some(1)],
        ]),
        weights_of(vec![
            vec![1, 0, 0, 0, 0],
            vec![0, 0, 0, 1, 0],
            vec![0, 1, 0, 1, 0],
            vec![0, 0, 0, 1, 0],
            vec![1, 0, 0, 0, 0],
        ]),
        1,
    );
}

#[test]
fn correct_moves_are_found_indirect_winning_moves() {
    correct_moves_are_found_on(
        board_of(vec![
            vec![None, None, Some(0), Some(1)],
            vec![None, Some(1), None, None],
            vec![Some(0), None, None, None],
            vec![Some(1), None, None, None],
        ]),
        weights_of(vec![
            vec![1, 0, 0, 0],
            vec![0, 0, 0, 0],
            vec![0, 0, 1, 0],
            vec![0, 0, 0, 0],
        ]),
        3,
    );
}

#[test]
fn correct_moves_are_found_with_the_faster_referee() {
    let board = board_of(vec![
        vec![None, None, Some(0), Some(1)],
        vec![None, Some(1), None, None],
        vec![Some(0), None, None, None],
        vec![Some(1), None, None, None],
    ]);
    let mut player = MinMaxPlayer::new(3, 1, Storage::new(), FasterRefereeV1::new(3), 0);
    assert_eq!(
        player.do_move(&board),
        weights_of(vec![
            vec![1, 0, 0, 0],
            vec![0, 0, 0, 0],
            vec![0, 0, 1, 0],
            vec![0, 0, 0, 0],
        ])
    );
}

#[test]
fn evaluation_at_depth_one_scores_each_cell_by_its_verdict() {
    let board = board_of(vec![
        vec![Some(0), None, Some(0)],
        vec![None, Some(1), Some(1)],
        vec![Some(0), None, Some(1)],
    ]);
    let mut player = MinMaxPlayer::new(1, 1, Storage::new(), NaiveReferee::new(3), 0);
    let args = GetEvaluationsArgs { self_id: 0, other_id: 1, max_depth: 1 };
    let evaluation = player.get_evaluations(&board, &args);
    assert_eq!(
        evaluation,
        scores_of(vec![
            vec![DEFEAT, VICTORY, DEFEAT],
            vec![VICTORY, DEFEAT, DEFEAT],
            vec![DEFEAT, DRAW, DEFEAT],
        ])
    );
    assert_eq!(get_maximum(&evaluation), VICTORY);
}

#[test]
fn evaluation_at_depth_two_negates_the_best_reply() {
    // X to move; O threatens to complete the middle row.
    let board = board_of(vec![
        vec![Some(0), None, None],
        vec![None, Some(1), Some(1)],
        vec![None, None, Some(0)],
    ]);
    let mut player = MinMaxPlayer::new(2, 1, Storage::new(), NaiveReferee::new(3), 0);
    let args = GetEvaluationsArgs { self_id: 0, other_id: 1, max_depth: 2 };
    let evaluation = player.get_evaluations(&board, &args);
    assert_eq!(
        evaluation,
        scores_of(vec![
            vec![DEFEAT, DEFEAT, DEFEAT],
            vec![DRAW, DEFEAT, DEFEAT],
            vec![DEFEAT, DEFEAT, DEFEAT],
        ])
    );
    let placement = MinMaxPlayer::<Storage, NaiveReferee>::to_placement(&evaluation);
    assert_eq!(
        placement,
        weights_of(vec![vec![0, 0, 0], vec![1, 0, 0], vec![0, 0, 0]])
    );
}

#[test]
fn last_free_cell_that_draws_is_scored_neutral() {
    let board = board_of(vec![
        vec![Some(0), Some(1), Some(0)],
        vec![Some(0), Some(1), Some(1)],
        vec![Some(1), Some(0), None],
    ]);
    let mut player = MinMaxPlayer::new(4, 1, Storage::new(), NaiveReferee::new(3), 0);
    let args = GetEvaluationsArgs { self_id: 0, other_id: 1, max_depth: 4 };
    let evaluation = player.get_evaluations(&board, &args);
    assert_eq!(evaluation.get(PointPlacement { row: 2, column: 2 }), DRAW);
    assert_eq!(evaluation.get(PointPlacement { row: 0, column: 0 }), DEFEAT);
}

#[test]
fn to_placement_falls_back_to_uniform_on_certain_defeat() {
    let evaluation = Evaluation::filled(3, 4, DEFEAT);
    let placement = MinMaxPlayer::<Storage, NaiveReferee>::to_placement(&evaluation);
    assert_eq!(placement, Placement::filled(3, 4, 1));
}

#[test]
fn to_placement_marks_every_best_cell() {
    let evaluation = scores_of(vec![vec![DRAW, DEFEAT], vec![DEFEAT, DRAW]]);
    let placement = MinMaxPlayer::<Storage, NaiveReferee>::to_placement(&evaluation);
    assert_eq!(placement, weights_of(vec![vec![1, 0], vec![0, 1]]));
    let evaluation = scores_of(vec![vec![DRAW, VICTORY], vec![DEFEAT, DRAW]]);
    let placement = MinMaxPlayer::<Storage, NaiveReferee>::to_placement(&evaluation);
    assert_eq!(placement, weights_of(vec![vec![0, 1], vec![0, 0]]));
}

#[test]
fn evaluation_is_answered_from_the_cache() {
    let board = board_of(vec![
        vec![Some(0), None, None],
        vec![None, Some(1), None],
        vec![None, None, None],
    ]);
    let mut player = MinMaxPlayer::new(3, 1, Storage::new(), NaiveReferee::new(3), 0);
    let args = GetEvaluationsArgs { self_id: 0, other_id: 1, max_depth: 3 };
    let first = player.get_evaluations(&board, &args);
    assert_eq!(player.storage().get_payload(&board, 3), Some(&first));
    let second = player.get_evaluations(&board, &args);
    assert_eq!(second, first);
    // A shallower question is answered with the deeper evaluation.
    let shallow = GetEvaluationsArgs { self_id: 0, other_id: 1, max_depth: 1 };
    assert_eq!(player.get_evaluations(&board, &shallow), first);
}

#[test]
fn evaluation_returns_what_the_cache_holds_unchanged() {
    let board = GameState::new(2, 2, None);
    let mut storage = Storage::new();
    let planted = scores_of(vec![vec![VICTORY, DRAW], vec![DRAW, DEFEAT]]);
    storage.register_game_state(&board, planted.clone(), 5);
    let mut player = MinMaxPlayer::new(2, 1, storage, NaiveReferee::new(2), 0);
    let args = GetEvaluationsArgs { self_id: 0, other_id: 1, max_depth: 2 };
    assert_eq!(player.get_evaluations(&board, &args), planted);
    assert_eq!(player.do_move(&board), weights_of(vec![vec![1, 0], vec![0, 0]]));
}

#[test]
fn the_cache_does_not_change_the_choice() {
    let board = board_of(vec![
        vec![None, None, Some(0), Some(1)],
        vec![None, Some(1), None, None],
        vec![Some(0), None, None, None],
        vec![Some(1), None, None, None],
    ]);
    let mut player = MinMaxPlayer::new(3, 1, Storage::new(), NaiveReferee::new(3), 0);
    let fresh = player.do_move(&board);
    let again = player.do_move(&board);
    assert_eq!(fresh, again);
    assert_eq!(player.get_id(), 0);
}

#[test]
fn evaluation_at_depth_two_searches_the_replies_one_ply_deep() {
    // Only the block at (0, 2) stops player 1 there. A deeper look at the
    // replies would see player 1 win by force after that block as well.
    let board = board_of(vec![
        vec![Some(1), Some(1), None],
        vec![Some(0), None, None],
        vec![Some(0), None, None],
    ]);
    let mut player = MinMaxPlayer::new(2, 1, Storage::new(), NaiveReferee::new(3), 0);
    let args = GetEvaluationsArgs { self_id: 0, other_id: 1, max_depth: 2 };
    assert_eq!(
        player.get_evaluations(&board, &args),
        scores_of(vec![
            vec![DEFEAT, DEFEAT, DRAW],
            vec![DEFEAT, DEFEAT, DEFEAT],
            vec![DEFEAT, DEFEAT, DEFEAT],
        ])
    );
    let mut deeper = MinMaxPlayer::new(4, 1, Storage::new(), NaiveReferee::new(3), 0);
    let args = GetEvaluationsArgs { self_id: 0, other_id: 1, max_depth: 4 };
    assert_eq!(
        deeper.get_evaluations(&board, &args).get(PointPlacement { row: 0, column: 2 }),
        DEFEAT
    );
}

#[test]
fn a_cache_filled_by_earlier_moves_changes_no_answer() {
    let mut seasoned = MinMaxPlayer::new(3, 1, Storage::new(), NaiveReferee::new(3), 0);
    let mut board = GameState::new(3, 3, None);
    let replies = [
        PointPlacement { row: 1, column: 1 },
        PointPlacement { row: 0, column: 2 },
        PointPlacement { row: 2, column: 1 },
    ];
    for reply in replies {
        let answer = seasoned.do_move(&board);
        let mut fresh = MinMaxPlayer::new(3, 1, Storage::new(), NaiveReferee::new(3), 0);
        assert_eq!(fresh.do_move(&board), answer);
        let chosen = answer
            .into_iter_2d()
            .into_iter()
            .find(|(pp, weight)| *weight != 0 && board.get(*pp).is_free())
            .unwrap()
            .0;
        board.set(chosen, Some(0).into());
        if board.get(reply).is_free() {
            board.set(reply, Some(1).into());
        } else {
            let free = board.iter_2d().into_iter().find(|(_, cell)| cell.is_free()).unwrap().0;
            board.set(free, Some(1).into());
        }
    }
}
