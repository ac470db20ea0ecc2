use tic_tac_toe_mcts::interfaces::{
    GameResult, GameState, PlayerID, PointPlacement, TicTacToeReferee, WinLengthT,
};
use tic_tac_toe_mcts::referee::{FasterRefereeV1, NaiveReferee};

fn board_of(rows: Vec<Vec<Option<u16>>>) -> GameState {
    GameState::new_with_values(&rows).unwrap()
}

fn horizontal() -> GameState {
    board_of(vec![
        vec![None, Some(0), Some(0), None],
        vec![None, Some(1), Some(1), None],
        vec![None, None, None, None],
    ])
}

fn vertical() -> GameState {
    board_of(vec![
        vec![None, Some(0), Some(1)],
        vec![None, Some(0), Some(1)],
        vec![None, None, None],
    ])
}

fn slash_diagonal() -> GameState {
    board_of(vec![
        vec![None, None, Some(1), Some(0)],
        vec![None, None, Some(0), Some(1)],
        vec![None, Some(0), Some(1), None],
        vec![None, None, None, None],
    ])
}

fn backslash_diagonal() -> GameState {
    board_of(vec![
        vec![None, None, None, None, None, None],
        vec![None, None, None, None, None, None],
        vec![Some(0), None, None, None, None, None],
        vec![Some(1), Some(0), None, None, None, None],
        vec![None, Some(1), Some(0), None, None, None],
        vec![None, None, Some(1), Some(0), None, None],
        vec![None, None, None, Some(1), Some(0), None],
        vec![None, None, None, None, Some(1), None],
    ])
}

fn judge_with_both(
    board: GameState,
    next_move: PointPlacement,
    winning_length: WinLengthT,
    player: PlayerID,
    expected: GameResult,
) {
    let mut naive_board = board.clone();
    let result = NaiveReferee::new(winning_length).receive_move(&mut naive_board, next_move, player);
    assert_eq!(result, expected);
    let mut faster_board = board.clone();
    let result =
        FasterRefereeV1::new(winning_length).receive_move(&mut faster_board, next_move, player);
    assert_eq!(result, expected);
    assert_eq!(naive_board, faster_board);
    if expected == GameResult::IllegalMove {
        assert_eq!(naive_board, board);
    } else {
        assert_eq!(naive_board.get(next_move), Some(player).into());
    }
}

#[test]
fn referee_judges_horizontal_win() {
    judge_with_both(horizontal(), PointPlacement { row: 0, column: 0 }, 3, 0, GameResult::Victory);
}

#[test]
fn referee_judges_vertical_win() {
    judge_with_both(vertical(), PointPlacement { row: 2, column: 2 }, 3, 1, GameResult::Victory);
}

#[test]
fn referee_judges_slash_diagonal_win() {
    judge_with_both(
        slash_diagonal(),
        PointPlacement { row: 3, column: 0 },
        4,
        0,
        GameResult::Victory,
    );
}

#[test]
fn referee_judges_backslash_diagonal_win() {
    judge_with_both(
        backslash_diagonal(),
        PointPlacement { row: 7, column: 5 },
        6,
        0,
        GameResult::Victory,
    );
}

#[test]
fn referee_rejects_taken_cell() {
    judge_with_both(
        board_of(vec![vec![Some(0), None], vec![None, None]]),
        PointPlacement { row: 0, column: 0 },
        2,
        1,
        GameResult::IllegalMove,
    );
}

#[test]
fn referee_rejects_placement_out_of_bounds() {
    let board = board_of(vec![vec![Some(0), Some(1)], vec![None, None]]);
    judge_with_both(board.clone(), PointPlacement { row: 2, column: 0 }, 2, 0, GameResult::IllegalMove);
    judge_with_both(board.clone(), PointPlacement { row: 0, column: 2 }, 2, 0, GameResult::IllegalMove);
    judge_with_both(
        board,
        PointPlacement { row: 65535, column: 65535 },
        2,
        0,
        GameResult::IllegalMove,
    );
}

#[test]
fn referee_judges_undecided() {
    judge_with_both(
        slash_diagonal(),
        PointPlacement { row: 2, column: 0 },
        4,
        1,
        GameResult::Undecided,
    );
}

#[test]
fn referee_judges_draw_on_last_cell_without_line() {
    let board = board_of(vec![
        vec![Some(0), Some(1), Some(0)],
        vec![Some(0), Some(1), Some(1)],
        vec![Some(1), Some(0), None],
    ]);
    judge_with_both(board, PointPlacement { row: 2, column: 2 }, 3, 0, GameResult::Draw);
}

#[test]
fn referee_judges_win_on_last_cell() {
    let board = board_of(vec![
        vec![Some(0), Some(1), Some(0)],
        vec![Some(1), Some(0), Some(1)],
        vec![Some(1), Some(0), None],
    ]);
    judge_with_both(board, PointPlacement { row: 2, column: 2 }, 3, 0, GameResult::Victory);
}

#[test]
fn referee_judges_win_completed_in_the_middle_of_a_line() {
    let board = board_of(vec![
        vec![Some(0), None, Some(0), None],
        vec![Some(1), Some(1), None, None],
    ]);
    judge_with_both(board.clone(), PointPlacement { row: 0, column: 1 }, 3, 0, GameResult::Victory);
    judge_with_both(board.clone(), PointPlacement { row: 0, column: 3 }, 3, 0, GameResult::Undecided);
    judge_with_both(board, PointPlacement { row: 0, column: 1 }, 4, 0, GameResult::Undecided);
}

#[test]
fn referee_with_win_length_one_lets_every_move_win() {
    let board = GameState::new(2, 2, None);
    judge_with_both(board, PointPlacement { row: 1, column: 0 }, 1, 5, GameResult::Victory);
}

#[test]
fn referee_with_win_length_zero_lets_every_move_win() {
    let board = GameState::new(2, 2, None);
    judge_with_both(board, PointPlacement { row: 1, column: 1 }, 0, 5, GameResult::Victory);
}

#[test]
fn referee_with_win_length_beyond_the_board_never_sees_a_win() {
    let board = board_of(vec![vec![Some(0), Some(0), None]]);
    judge_with_both(board.clone(), PointPlacement { row: 0, column: 2 }, 4, 0, GameResult::Draw);
    judge_with_both(board, PointPlacement { row: 0, column: 2 }, 65535, 0, GameResult::Draw);
}

#[test]
fn referee_ignores_lines_of_the_other_player() {
    let board = board_of(vec![vec![Some(1), Some(1), None], vec![None, None, None]]);
    judge_with_both(board, PointPlacement { row: 0, column: 2 }, 3, 0, GameResult::Undecided);
}

struct Lcg(u64);

impl Lcg {
    fn next(&mut self, bound: u64) -> u64 {
        self.0 = self.0.wrapping_mul(6364136223846793005).wrapping_add(1442695040888963407);
        (self.0 >> 33) % bound
    }
}

fn has_line(board: &GameState, length: u16, player: u16) -> bool {
    let rows = i32::from(board.get_number_of_rows());
    let columns = i32::from(board.get_number_of_columns());
    for r in 0..rows {
        for c in 0..columns {
            for (dr, dc) in [(0, 1), (1, 0), (1, 1), (1, -1)] {
                let mut all = true;
                for i in 0..i32::from(length.max(1)) {
                    let (rr, cc) = (r + i * dr, c + i * dc);
                    if rr < 0 || cc < 0 || rr >= rows || cc >= columns {
                        all = false;
                        break;
                    }
                    let pp = PointPlacement { row: rr as u16, column: cc as u16 };
                    if board.get(pp) != Some(player).into() {
                        all = false;
                        break;
                    }
                }
                if all {
                    return true;
                }
            }
        }
    }
    false
}

#[test]
fn referees_agree_on_random_boards_without_earlier_win() {
    let mut rng = Lcg(42);
    let mut compared = 0;
    for _ in 0..400 {
        let rows = 1 + rng.next(5) as u16;
        let columns = 1 + rng.next(5) as u16;
        let length = 1 + rng.next(4) as u16;
        let mut board = GameState::new(rows, columns, None);
        for r in 0..rows {
            for c in 0..columns {
                let cell = match rng.next(3) {
                    0 => None,
                    1 => Some(0),
                    _ => Some(1),
                };
                board.set(PointPlacement { row: r, column: c }, cell.into());
            }
        }
        for mover in 0..2u16 {
            if has_line(&board, length, mover) {
                continue;
            }
            for r in 0..rows {
                for c in 0..columns {
                    let pp = PointPlacement { row: r, column: c };
                    let mut naive_board = board.clone();
                    let mut faster_board = board.clone();
                    let naive = NaiveReferee::new(length).receive_move(&mut naive_board, pp, mover);
                    let faster =
                        FasterRefereeV1::new(length).receive_move(&mut faster_board, pp, mover);
                    assert_eq!(naive, faster);
                    assert_eq!(naive_board, faster_board);
                    compared += 1;
                }
            }
        }
    }
    assert!(compared > 1000);
}

#[test]
fn referees_differ_only_where_a_win_stood_before_the_move() {
    // Player 0 already owns a line that the move does not touch.
    let board = board_of(vec![vec![Some(0), Some(0)], vec![None, None]]);
    let pp = PointPlacement { row: 1, column: 1 };
    let mut naive_board = board.clone();
    let mut faster_board = board.clone();
    assert_eq!(NaiveReferee::new(2).receive_move(&mut naive_board, pp, 0), GameResult::Victory);
    assert_eq!(FasterRefereeV1::new(2).receive_move(&mut faster_board, pp, 0), GameResult::Victory);
    let board = board_of(vec![vec![Some(0), Some(0), None], vec![None, None, None], vec![None, None, None]]);
    let pp = PointPlacement { row: 2, column: 2 };
    let mut naive_board = board.clone();
    let mut faster_board = board.clone();
    assert_eq!(NaiveReferee::new(2).receive_move(&mut naive_board, pp, 0), GameResult::Victory);
    assert_eq!(
        FasterRefereeV1::new(2).receive_move(&mut faster_board, pp, 0),
        GameResult::Undecided
    );
}
