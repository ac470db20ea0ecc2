use tic_tac_toe_mcts::board::{Board, BoardError};
use tic_tac_toe_mcts::interfaces::{BoardStateEntry, GameState, Placement, PointPlacement};

fn basic_board_workflow(nrows: u16, ncolumns: u16) {
    let mut board = GameState::new(nrows, ncolumns, None);
    let pp_min = PointPlacement { row: 0, column: 0 };
    let pp_max = PointPlacement { row: nrows - 1, column: ncolumns - 1 };
    assert!(board[pp_min].is_free());
    assert!(board[pp_max].is_free());
    assert!(!board.has_placement_at(pp_min));
    board.set(pp_min, Some(0).into());
    board.set(pp_max, Some(1).into());
    assert!(board[pp_min].is_taken());
    assert!(board[pp_max].is_taken());
    assert_eq!(board.get(pp_max), board[pp_max]);
    assert!(board.has_placement_at(pp_max));
    assert!(board.get(pp_min).is_owned_by(0));
    assert!(!board.get(pp_min).is_owned_by(1));
}

#[test]
fn test_basic_board_workflow() {
    basic_board_workflow(5, 5);
    basic_board_workflow(3, 3);
    basic_board_workflow(5, 10);
    basic_board_workflow(31, 11);
}

#[test]
fn test_new_with_values_rejects_rows_of_different_length() {
    let values = vec![
        vec![Some(0), Some(0), Some(0)],
        vec![Some(1), Some(1), Some(1), Some(1)],
    ];
    assert_eq!(GameState::new_with_values(&values).unwrap_err(), BoardError::RaggedRows);
}

#[test]
fn test_new_with_values_rejects_no_rows() {
    let values: Vec<Vec<Option<u16>>> = vec![];
    assert_eq!(GameState::new_with_values(&values).unwrap_err(), BoardError::NoRows);
}

#[test]
fn test_new_with_values_rejects_empty_rows() {
    let values: Vec<Vec<Option<u16>>> = vec![vec![], vec![]];
    assert_eq!(GameState::new_with_values(&values).unwrap_err(), BoardError::EmptyRow);
    let values: Vec<Vec<Option<u16>>> = vec![vec![None], vec![]];
    assert_eq!(GameState::new_with_values(&values).unwrap_err(), BoardError::EmptyRow);
}

#[test]
fn test_new_with_values_rejects_too_many_columns() {
    let values: Vec<Vec<u32>> = vec![vec![0; 65536]];
    assert_eq!(Placement::new_with_values(&values).unwrap_err(), BoardError::TooManyColumns);
    let values: Vec<Vec<u32>> = vec![vec![0; 65535]];
    assert!(Placement::new_with_values(&values).is_ok());
}

#[test]
fn test_new_with_values_rejects_too_many_rows() {
    let values: Vec<Vec<u32>> = vec![vec![0]; 65536];
    assert_eq!(Placement::new_with_values(&values).unwrap_err(), BoardError::TooManyRows);
}

#[test]
fn test_new_with_values_keeps_rows_and_columns() {
    let values = vec![vec![1u32, 2, 3], vec![4, 5, 6]];
    let board = Placement::new_with_values(&values).unwrap();
    assert_eq!(board.get_number_of_rows(), 2);
    assert_eq!(board.get_number_of_columns(), 3);
    assert_eq!(board.get(PointPlacement { row: 0, column: 2 }), 3);
    assert_eq!(board.get(PointPlacement { row: 1, column: 0 }), 4);
    assert_eq!(board.rows(), 2);
    assert_eq!(board.columns(), 3);
}

#[test]
fn test_new_with_board_checks_the_size() {
    assert_eq!(
        Board::<u8>::new_with_board(2, 3, vec![0; 5]).unwrap_err(),
        BoardError::SizeMismatch
    );
    assert_eq!(
        Board::<u8>::new_with_board(0, 3, vec![]).unwrap_err(),
        BoardError::ZeroDimension
    );
    assert_eq!(
        Board::<u8>::new_with_board(0, 3, vec![1]).unwrap_err(),
        BoardError::SizeMismatch
    );
    let board = Board::<u8>::new_with_board(2, 3, vec![1, 2, 3, 4, 5, 6]).unwrap();
    assert_eq!(board.get(PointPlacement { row: 1, column: 1 }), 5);
}

fn numbered(nrows: u16, ncolumns: u16) -> GameState {
    let mut board = GameState::new(nrows, ncolumns, None);
    for row in 0..nrows {
        for column in 0..ncolumns {
            let val = row * ncolumns + column;
            board.set(PointPlacement { row, column }, Some(val).into());
        }
    }
    board
}

fn iter_2d_walks_row_major(nrows: u16, ncolumns: u16) {
    let board = numbered(nrows, ncolumns);
    let mut result_iter = board.iter_2d().into_iter();
    for row in 0..nrows {
        for column in 0..ncolumns {
            let pp = PointPlacement { row, column };
            let expected_val: BoardStateEntry = Some(row * ncolumns + column).into();
            let result = result_iter.next().unwrap();
            assert_eq!(result, (pp, &expected_val));
        }
    }
    assert_eq!(result_iter.next(), None);
}

#[test]
fn test_iter_2d() {
    iter_2d_walks_row_major(5, 5);
    iter_2d_walks_row_major(3, 3);
    iter_2d_walks_row_major(5, 10);
    iter_2d_walks_row_major(31, 11);
}

fn into_iter_2d_walks_row_major(nrows: u16, ncolumns: u16) {
    let board = numbered(nrows, ncolumns);
    let mut result_iter = board.into_iter_2d().into_iter();
    for row in 0..nrows {
        for column in 0..ncolumns {
            let pp = PointPlacement { row, column };
            let expected_val: BoardStateEntry = Some(row * ncolumns + column).into();
            let result = result_iter.next().unwrap();
            assert_eq!(result, (pp, expected_val));
        }
    }
    assert_eq!(result_iter.next(), None);
}

#[test]
fn test_into_iter_2d() {
    into_iter_2d_walks_row_major(5, 5);
    into_iter_2d_walks_row_major(3, 3);
    into_iter_2d_walks_row_major(5, 10);
    into_iter_2d_walks_row_major(31, 11);
}

fn joint_walk(nrows: u16, ncolumns: u16) {
    let board = numbered(nrows, ncolumns);
    let mut board2 = GameState::new(nrows, ncolumns, None);
    for row in 0..nrows {
        for column in 0..ncolumns {
            let val = row * ncolumns + column;
            let val2 = nrows * ncolumns - 1 - val;
            board2.set(PointPlacement { row, column }, Some(val2).into());
        }
    }
    {
        let mut by_ref = board.joint_iter_2d(&board2).into_iter();
        let first = by_ref.next().unwrap();
        let expected: BoardStateEntry = Some(0).into();
        let expected2: BoardStateEntry = Some(nrows * ncolumns - 1).into();
        assert_eq!(first, (PointPlacement { row: 0, column: 0 }, &expected, &expected2));
    }
    let mut result = board.joint_into_iter_2d(board2).into_iter();
    for row in 0..nrows {
        for column in 0..ncolumns {
            let pp = PointPlacement { row, column };
            let expected_val = row * ncolumns + column;
            let expected_val2 = nrows * ncolumns - 1 - expected_val;
            assert_eq!(
                result.next().unwrap(),
                (pp, Some(expected_val).into(), Some(expected_val2).into())
            );
        }
    }
    assert_eq!(result.next(), None);
}

#[test]
fn test_joint_iter_2d_arrays() {
    joint_walk(5, 5);
    joint_walk(3, 3);
    joint_walk(5, 10);
    joint_walk(31, 11);
}

#[test]
fn test_new_from_existing_takes_the_shape() {
    let board = GameState::new(4, 7, None);
    let fresh = Board::<u16>::new_from_existing(&board, 9u16);
    assert_eq!(fresh.get_number_of_rows(), 4);
    assert_eq!(fresh.get_number_of_columns(), 7);
    assert!(fresh.into_iter_2d().into_iter().all(|(_, value)| value == 9));
    let filled = Board::<u8>::filled(2, 2, 3);
    assert_eq!(filled, Board::<u8>::new_with_board(2, 2, vec![3, 3, 3, 3]).unwrap());
}

#[test]
fn test_clone_is_equal_and_independent() {
    let board = numbered(3, 4);
    let mut copy = board.clone();
    assert_eq!(copy, board);
    assert!(copy.same_cells(&board));
    copy.set(PointPlacement { row: 2, column: 3 }, None.into());
    assert_ne!(copy, board);
    assert!(!copy.same_cells(&board));
    assert!(copy.has_free_cell());
    assert!(!board.has_free_cell());
    assert!(!GameState::new(2, 3, None).same_cells(&GameState::new(3, 2, None)));
}
