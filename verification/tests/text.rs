use tic_tac_toe_mcts::interfaces::{BoardStateEntry, GameResult, GameState, PointPlacement};
use tic_tac_toe_mcts::player::cli::{parse_point_placement, CLIPlayer};
use tic_tac_toe_mcts::text::push_decimal;

#[test]
fn game_result_is_written_by_name() {
    assert_eq!(GameResult::Defeat.to_text(), "Defeat");
    assert_eq!(GameResult::Draw.to_text(), "Draw");
    assert_eq!(GameResult::IllegalMove.to_text(), "IllegalMove");
    assert_eq!(GameResult::Undecided.to_text(), "Undecided");
    assert_eq!(GameResult::Victory.to_text(), "Victory");
}

#[test]
fn point_placement_is_written_with_both_coordinates() {
    assert_eq!(PointPlacement { row: 0, column: 0 }.to_text(), "PointPlacement(0, 0)");
    assert_eq!(PointPlacement { row: 12, column: 65535 }.to_text(), "PointPlacement(12, 65535)");
}

#[test]
fn cell_is_written_as_id_or_dot() {
    assert_eq!(BoardStateEntry::from(None).to_text(), ".");
    assert_eq!(BoardStateEntry::from(Some(0)).to_text(), "0");
    assert_eq!(BoardStateEntry::from(Some(10)).to_text(), "10");
    assert_eq!(BoardStateEntry::from(Some(65535)).to_text(), "65535");
}

#[test]
fn decimal_digits_are_appended() {
    let mut text = "n=".to_string();
    push_decimal(&mut text, 9070);
    assert_eq!(text, "n=9070");
}

#[test]
fn board_is_written_row_by_row() {
    let rows = vec![vec![None, Some(0), Some(1)], vec![Some(12), None, None]];
    let board = GameState::new_with_values(&rows).unwrap();
    assert_eq!(board.to_text(), ".01\n12..\n");
    assert_eq!(GameState::new(1, 1, None).to_text(), ".\n");
    assert_eq!(GameState::new(3, 1, None).to_text(), ".\n.\n.\n");
}

#[test]
fn move_is_read_from_row_comma_column() {
    assert_eq!(parse_point_placement("1,2"), Some(PointPlacement { row: 1, column: 2 }));
    assert_eq!(parse_point_placement("0,0"), Some(PointPlacement { row: 0, column: 0 }));
    assert_eq!(parse_point_placement("007,+8"), Some(PointPlacement { row: 7, column: 8 }));
    assert_eq!(
        parse_point_placement("65535,65535"),
        Some(PointPlacement { row: 65535, column: 65535 })
    );
    assert_eq!(
        parse_point_placement("000000000000000000000065535,1"),
        Some(PointPlacement { row: 65535, column: 1 })
    );
}

#[test]
fn move_that_is_not_two_sizes_is_refused() {
    for line in [
        "", ",", "1", "1,", ",2", "1,2,3", "1,,2", "1, 2", " 1,2", "1,2 ", "a,2", "1,b", "-1,2",
        "+,2", "++1,2", "1+,2", "65536,0", "0,65536", "99999999999999999999,1", "1;2", "１,2",
        "1.0,2",
    ] {
        assert_eq!(parse_point_placement(line), None, "{:?}", line);
        assert_eq!(
            line.split(',').count() == 2
                && line.split(',').all(|part| part.parse::<u16>().is_ok()),
            false
        );
    }
}

#[test]
fn move_is_read_as_the_standard_library_reads_it() {
    let pieces = ["", "0", "7", "12", "+3", "+", "-", " ", "x", "65535", "65536", "00", "+0"];
    for first in pieces {
        for second in pieces {
            for line in [format!("{first},{second}"), format!("{first}{second}")] {
                let parts: Vec<&str> = line.split(',').collect();
                let expected = if parts.len() == 2 {
                    match (parts[0].parse::<u16>(), parts[1].parse::<u16>()) {
                        (Ok(row), Ok(column)) => Some(PointPlacement { row, column }),
                        _ => None,
                    }
                } else {
                    None
                };
                assert_eq!(parse_point_placement(&line), expected, "{:?}", line);
            }
        }
    }
}

#[test]
fn cli_player_takes_moves_on_the_board_only() {
    let mut player = CLIPlayer::<3> { id: 1 };
    let board = GameState::new(2, 3, None);
    assert_eq!(
        player.get_point_placement("1,2", &board),
        Some(PointPlacement { row: 1, column: 2 })
    );
    assert_eq!(player.get_point_placement("2,2", &board), None);
    assert_eq!(player.get_point_placement("1,3", &board), None);
    assert_eq!(player.get_point_placement("nonsense", &board), None);
    let weights = player.do_move("0,1", &board).unwrap();
    let cells: Vec<u32> = weights.into_iter_2d().into_iter().map(|(_, w)| w).collect();
    assert_eq!(cells, vec![0, 1, 0, 0, 0, 0]);
    assert_eq!(player.do_move("5,5", &board), None);
    assert_eq!(player.id, 1);
}
