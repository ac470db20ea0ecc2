use tic_tac_toe_mcts::arena::exploring::ExploringTicTacToeArena;
use tic_tac_toe_mcts::arena::{
    eligible_candidates, place_sampled_move, play_turn, sample_point_placement,
    TicTacToeArena as Arena,
};
use tic_tac_toe_mcts::game_state_storage::NaiveGameStateStorage;
use tic_tac_toe_mcts::interfaces::{
    Evaluation, GameResult, GameState, Placement, Player, PointPlacement, TicTacToeArena,
};
use tic_tac_toe_mcts::player::cli::CLIPlayer;
use tic_tac_toe_mcts::player::countboundmcts::{
    do_one_step_sample, ratio_weight_of, CountBoundMCTSPlayer, SampleCounts, FULL_WEIGHT,
};
use tic_tac_toe_mcts::player::guessing::GuessingPlayer;
use tic_tac_toe_mcts::player::minmax::MinMaxPlayer;
use tic_tac_toe_mcts::player::onelookahead::OneLookaheadPlayer;
use tic_tac_toe_mcts::referee::{FasterRefereeV1, NaiveReferee};

type Storage = NaiveGameStateStorage<GameState, Evaluation>;

fn board_of(rows: Vec<Vec<Option<u16>>>) -> GameState {
    GameState::new_with_values(&rows).unwrap()
}

fn weights_of(rows: Vec<Vec<u32>>) -> Placement {
    Placement::new_with_values(&rows).unwrap()
}

fn scenario_board() -> GameState {
    board_of(vec![
        vec![Some(0), None, Some(0)],
        vec![None, Some(1), Some(1)],
        vec![Some(0), None, Some(1)],
    ])
}

#[test]
fn end_to_end_minmax_weights_are_sampled_by_the_arena() {
    let board = scenario_board();
    let mut player = MinMaxPlayer::new(1, 1, Storage::new(), NaiveReferee::new(3), 0);
    let placement = player.do_move(&board);
    assert_eq!(
        placement,
        weights_of(vec![vec![0, 1, 0], vec![1, 0, 0], vec![0, 0, 0]])
    );
    let winning = [PointPlacement { row: 0, column: 1 }, PointPlacement { row: 1, column: 0 }];
    let mut seen = [false, false];
    for _ in 0..200 {
        let mut played = board.clone();
        let (result, id, pp) = place_sampled_move(&mut played, &placement, 0, &NaiveReferee::new(3));
        let pp = pp.unwrap();
        assert!(winning.contains(&pp));
        assert_eq!(result, GameResult::Victory);
        assert_eq!(id, 0);
        assert_eq!(played.get(pp), Some(0).into());
        seen[winning.iter().position(|w| *w == pp).unwrap()] = true;
    }
    assert_eq!(seen, [true, true]);
}

#[test]
fn end_to_end_minmax_player_wins_in_the_arena() {
    let player0 = MinMaxPlayer::new(1, 1, Storage::new(), NaiveReferee::new(3), 0);
    let player1 = GuessingPlayer::<3> { id: 1 };
    let mut arena = Arena::new(scenario_board(), player0, player1, NaiveReferee::new(3));
    let (result, id, pp) = arena.do_next_move();
    assert_eq!(result, GameResult::Victory);
    assert_eq!(id, 0);
    let pp = pp.unwrap();
    assert!(pp == PointPlacement { row: 0, column: 1 } || pp == PointPlacement { row: 1, column: 0 });
    assert_eq!(arena.get_board().get(pp), Some(0).into());
}

#[test]
fn eligible_candidates_are_the_free_cells_with_weight_in_row_major_order() {
    let board = board_of(vec![vec![None, Some(0), None], vec![None, None, Some(1)]]);
    let placement = weights_of(vec![vec![5, 7, 0], vec![1, 4_000_000_000, 9]]);
    let (pps, weights) = eligible_candidates(&board, &placement);
    assert_eq!(
        pps,
        vec![
            PointPlacement { row: 0, column: 0 },
            PointPlacement { row: 1, column: 0 },
            PointPlacement { row: 1, column: 1 },
        ]
    );
    assert_eq!(weights, vec![5, 1, 4_000_000_000]);
}

#[test]
fn sampling_never_picks_an_occupied_or_weightless_cell() {
    let board = board_of(vec![vec![None, Some(0), None], vec![None, None, Some(1)]]);
    let placement = weights_of(vec![vec![0, 7, 3], vec![0, 1, 9]]);
    let mut seen = [false, false];
    for _ in 0..300 {
        let pp = sample_point_placement(&board, &placement).unwrap();
        if pp == (PointPlacement { row: 0, column: 2 }) {
            seen[0] = true;
        } else {
            assert_eq!(pp, PointPlacement { row: 1, column: 1 });
            seen[1] = true;
        }
    }
    assert_eq!(seen, [true, true]);
}

#[test]
fn sampling_with_one_candidate_returns_it() {
    let board = GameState::new(3, 3, None);
    let placement = weights_of(vec![vec![0, 0, 0], vec![0, 0, 0], vec![0, 4_294_967_295, 0]]);
    for _ in 0..20 {
        assert_eq!(
            sample_point_placement(&board, &placement),
            Some(PointPlacement { row: 2, column: 1 })
        );
    }
}

#[test]
fn sampling_copes_with_the_largest_weights() {
    let board = GameState::new(40, 40, None);
    let placement = Placement::filled(40, 40, u32::MAX);
    let pp = sample_point_placement(&board, &placement).unwrap();
    assert!(pp.row < 40 && pp.column < 40);
}

#[test]
fn no_eligible_cell_is_a_defeat_without_a_move() {
    let mut board = board_of(vec![vec![None, Some(0)], vec![Some(1), None]]);
    let before = board.clone();
    let placement = weights_of(vec![vec![0, 3], vec![2, 0]]);
    assert_eq!(sample_point_placement(&board, &placement), None);
    let outcome = place_sampled_move(&mut board, &placement, 4, &FasterRefereeV1::new(2));
    assert_eq!(outcome, (GameResult::Defeat, 4, None));
    assert_eq!(board, before);
}

#[test]
fn arena_alternates_between_the_players() {
    let player0 = GuessingPlayer::<3> { id: 10 };
    let player1 = GuessingPlayer::<3> { id: 20 };
    let mut arena = Arena::new(GameState::new(3, 3, None), player0, player1, NaiveReferee::new(3));
    let mut expected_id = 10;
    let mut moves = 0;
    loop {
        let before = arena.get_board();
        let (result, id, pp) = arena.do_next_move();
        assert_eq!(id, expected_id);
        let pp = pp.unwrap();
        assert!(before.get(pp).is_free());
        assert_eq!(arena.get_board().get(pp), Some(id).into());
        moves += 1;
        assert_ne!(result, GameResult::IllegalMove);
        assert_ne!(result, GameResult::Defeat);
        if result != GameResult::Undecided {
            if result == GameResult::Draw {
                assert_eq!(moves, 9);
            }
            break;
        }
        expected_id = if expected_id == 10 { 20 } else { 10 };
    }
    assert!((5..=9).contains(&moves));
}

#[test]
fn arena_reports_defeat_on_a_full_board() {
    let board = board_of(vec![vec![Some(0), Some(1)], vec![Some(1), Some(0)]]);
    let mut arena = Arena::new(
        board.clone(),
        GuessingPlayer::<3> { id: 0 },
        GuessingPlayer::<3> { id: 1 },
        NaiveReferee::new(3),
    );
    assert_eq!(arena.do_next_move(), (GameResult::Defeat, 0, None));
    assert_eq!(arena.do_next_move(), (GameResult::Defeat, 1, None));
    assert_eq!(arena.get_board(), board);
}

#[test]
fn exploring_arena_starts_with_the_named_player() {
    let mut arena = ExploringTicTacToeArena::new(
        GameState::new(2, 2, None),
        GuessingPlayer::<2> { id: 3 },
        GuessingPlayer::<2> { id: 8 },
        8,
        NaiveReferee::new(2),
    );
    let (result, id, pp) = arena.do_next_move();
    assert_eq!((result, id), (GameResult::Undecided, 8));
    let first = pp.unwrap();
    let (result, id, pp) = arena.do_next_move();
    assert_eq!((result, id), (GameResult::Undecided, 3));
    assert_ne!(pp.unwrap(), first);
    let (result, id, _) = arena.do_next_move();
    assert_eq!((result, id), (GameResult::Victory, 8));
    let (board, player0, player1, _) = arena.into_parts();
    assert_eq!(player0.id, 3);
    assert_eq!(player1.id, 8);
    assert_eq!(board.into_iter_2d().into_iter().filter(|(_, cell)| cell.is_free()).count(), 1);
}

#[test]
fn play_turn_places_the_players_move() {
    let mut board = GameState::new(1, 1, None);
    let mut player = GuessingPlayer::<1> { id: 6 };
    let outcome = play_turn(&mut board, &mut player, &FasterRefereeV1::new(1));
    assert_eq!(outcome, (GameResult::Victory, 6, Some(PointPlacement { row: 0, column: 0 })));
    assert_eq!(board.get(PointPlacement { row: 0, column: 0 }), Some(6).into());
}

#[test]
fn one_step_sample_plays_to_the_end() {
    for _ in 0..50 {
        let mut board = GameState::new(3, 3, None);
        let mut player0 = GuessingPlayer::<3> { id: 0 };
        let mut player1 = GuessingPlayer::<3> { id: 1 };
        let (result, id, first) =
            do_one_step_sample(&mut board, &mut player0, &mut player1, 1, &NaiveReferee::new(3));
        assert!(result == GameResult::Victory || result == GameResult::Draw);
        assert!(id == 0 || id == 1);
        assert!(first.is_some());
        let taken = board.into_iter_2d().into_iter().filter(|(_, cell)| cell.is_taken()).count();
        assert!(taken >= 5);
        if result == GameResult::Draw {
            assert_eq!(taken, 9);
            assert_eq!(id, 1);
        }
    }
}

#[test]
fn ratio_weight_scales_and_rounds_down() {
    assert_eq!(FULL_WEIGHT, 65536);
    assert_eq!(ratio_weight_of(1, 2), 32768);
    assert_eq!(ratio_weight_of(1, 3), 21845);
    assert_eq!(ratio_weight_of(2, 3), 43690);
    assert_eq!(ratio_weight_of(7, 7), 65536);
    assert_eq!(ratio_weight_of(0, 5), 0);
    assert_eq!(ratio_weight_of(5, 0), 0);
    assert_eq!(ratio_weight_of(1, 65535), 1);
    assert_eq!(ratio_weight_of(65535, 65535), 65536);
    assert_eq!(ratio_weight_of(65535, 1), 4_294_901_760);
}

#[test]
fn mcts_player_weighs_only_free_cells() {
    let board = board_of(vec![
        vec![Some(0), None, Some(0)],
        vec![None, Some(1), Some(1)],
        vec![Some(0), None, Some(1)],
    ]);
    let mut player = CountBoundMCTSPlayer::new(
        0,
        200,
        GuessingPlayer::<3> { id: 0 },
        GuessingPlayer::<3> { id: 1 },
        NaiveReferee::new(3),
    );
    let placement = player.do_move(&board);
    assert_eq!(player.get_id(), 0);
    for (pp, weight) in placement.into_iter_2d() {
        assert!(weight <= FULL_WEIGHT);
        if board.get(pp).is_taken() {
            assert_eq!(weight, 0);
        }
    }
    let placement = player.do_move(&board);
    // A move that wins at once wins every game that starts with it.
    assert_eq!(placement.get(PointPlacement { row: 0, column: 1 }), FULL_WEIGHT);
    assert_eq!(placement.get(PointPlacement { row: 1, column: 0 }), FULL_WEIGHT);
}

#[test]
fn mcts_player_without_samples_or_free_cells_offers_nothing() {
    let board = GameState::new(2, 2, None);
    let mut player = CountBoundMCTSPlayer::new(
        1,
        0,
        GuessingPlayer::<2> { id: 0 },
        GuessingPlayer::<2> { id: 1 },
        NaiveReferee::new(2),
    );
    assert_eq!(player.do_move(&board), Placement::filled(2, 2, 0));
    let full = board_of(vec![vec![Some(0), Some(1)], vec![Some(1), Some(0)]]);
    let mut player = CountBoundMCTSPlayer::new(
        1,
        10,
        GuessingPlayer::<2> { id: 0 },
        GuessingPlayer::<2> { id: 1 },
        NaiveReferee::new(3),
    );
    assert_eq!(player.do_move(&full), Placement::filled(2, 2, 0));
}

#[test]
fn one_lookahead_player_takes_the_winning_moves() {
    let mut player = OneLookaheadPlayer::new(1, NaiveReferee::new(3), 0);
    assert_eq!(
        player.do_move(&scenario_board()),
        weights_of(vec![vec![0, 1, 0], vec![1, 0, 0], vec![0, 0, 0]])
    );
    assert_eq!(player.get_id(), 0);
    // Without a winning move every cell gets the same weight.
    let mut player = OneLookaheadPlayer::new(0, FasterRefereeV1::new(3), 1);
    let board = board_of(vec![vec![Some(0), Some(0), None], vec![None, None, None]]);
    assert_eq!(player.do_move(&board), Placement::filled(2, 3, 1));
    assert_eq!(player.do_move(&GameState::new(2, 3, None)), Placement::filled(2, 3, 1));
}

#[test]
fn cli_player_asks_for_one_cell() {
    let player = CLIPlayer::<3> { id: 2 };
    let board = GameState::new(2, 3, None);
    assert_eq!(
        player.placement_for(&board, PointPlacement { row: 1, column: 2 }),
        weights_of(vec![vec![0, 0, 0], vec![0, 0, 1]])
    );
    assert_eq!(player.get_id(), 2);
}

#[test]
fn sample_counts_weigh_wins_before_draws() {
    let board = GameState::new(1, 3, None);
    let a = PointPlacement { row: 0, column: 0 };
    let b = PointPlacement { row: 0, column: 1 };
    let mut counts = SampleCounts::new(&board);
    counts.record(a, GameResult::Draw, true);
    counts.record(a, GameResult::Draw, false);
    counts.record(b, GameResult::Draw, true);
    counts.record(b, GameResult::Defeat, true);
    counts.record(b, GameResult::Undecided, true);
    assert!(!counts.has_win_prob);
    assert_eq!(counts.tries, weights_u16(vec![vec![2, 3, 0]]));
    assert_eq!(counts.draws, weights_u16(vec![vec![2, 1, 0]]));
    // No game was won: the draws count.
    let mut unwon = SampleCounts::new(&board);
    unwon.record(a, GameResult::Draw, true);
    unwon.record(b, GameResult::Draw, true);
    unwon.record(b, GameResult::IllegalMove, true);
    assert_eq!(unwon.into_placement(), weights_of(vec![vec![65536, 32768, 0]]));
    // One game was won by the opponent: only wins count from then on.
    counts.record(a, GameResult::Victory, false);
    assert!(counts.has_win_prob);
    assert_eq!(counts.wins, weights_u16(vec![vec![0, 0, 0]]));
    counts.record(b, GameResult::Victory, true);
    assert_eq!(counts.tries, weights_u16(vec![vec![3, 4, 0]]));
    assert_eq!(counts.wins, weights_u16(vec![vec![0, 1, 0]]));
    assert_eq!(counts.into_placement(), weights_of(vec![vec![0, 16384, 0]]));
}

fn weights_u16(rows: Vec<Vec<u16>>) -> tic_tac_toe_mcts::board::Board<u16> {
    tic_tac_toe_mcts::board::Board::<u16>::new_with_values(&rows).unwrap()
}

#[test]
fn exploring_arena_plays_the_winning_move_of_the_minmax_player() {
    for _ in 0..20 {
        let mut arena = ExploringTicTacToeArena::new(
            scenario_board(),
            MinMaxPlayer::new(1, 1, Storage::new(), NaiveReferee::new(3), 0),
            GuessingPlayer::<3> { id: 1 },
            0,
            NaiveReferee::new(3),
        );
        let (result, id, pp) = arena.do_next_move();
        let pp = pp.unwrap();
        assert_eq!((result, id), (GameResult::Victory, 0));
        assert!(
            pp == PointPlacement { row: 0, column: 1 } || pp == PointPlacement { row: 1, column: 0 }
        );
        let mut expected = scenario_board();
        expected.set(pp, Some(0).into());
        assert_eq!(arena.get_board(), expected);
    }
}

#[test]
fn exploring_arena_reports_defeat_where_no_cell_is_eligible() {
    let full = board_of(vec![vec![Some(0), Some(1)], vec![Some(1), Some(0)]]);
    let mut arena = ExploringTicTacToeArena::new(
        full.clone(),
        GuessingPlayer::<2> { id: 0 },
        GuessingPlayer::<2> { id: 1 },
        1,
        NaiveReferee::new(2),
    );
    assert_eq!(arena.do_next_move(), (GameResult::Defeat, 1, None));
    assert_eq!(arena.do_next_move(), (GameResult::Defeat, 0, None));
    assert_eq!(arena.do_next_move(), (GameResult::Defeat, 1, None));
    assert_eq!(arena.get_board(), full);
}

#[test]
fn mcts_player_gives_the_last_free_cell_the_share_of_its_draws() {
    let board = board_of(vec![
        vec![Some(0), Some(1), Some(0)],
        vec![Some(0), Some(1), Some(1)],
        vec![Some(1), Some(0), None],
    ]);
    let mut player = CountBoundMCTSPlayer::new(
        0,
        4,
        GuessingPlayer::<3> { id: 0 },
        GuessingPlayer::<3> { id: 1 },
        NaiveReferee::new(3),
    );
    assert_eq!(
        player.do_move(&board),
        weights_of(vec![vec![0, 0, 0], vec![0, 0, 0], vec![0, 0, FULL_WEIGHT]])
    );
}
