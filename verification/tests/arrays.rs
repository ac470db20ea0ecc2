use tic_tac_toe_mcts::utils::joint_iter_2d_arrays;
use tic_tac_toe_mcts::{into_iter_2d_array, iter_2d_array, iter_mut_2d_array};

#[test]
fn test_iter_2d_array() {
    const N: usize = 3;
    let array = [[0, 1, 2], [3, 4, 5], [6, 7, 8]];
    let mut result = iter_2d_array(&array).into_iter();
    for row in 0..3 {
        for column in 0..3 {
            let expected_val = row * N + column;

            assert_eq!(result.next().unwrap(), (row, column, &expected_val));
        }
    }
    assert_eq!(result.next(), None);
}

#[test]
fn test_into_iter_2d_array() {
    const N: usize = 3;
    let array = [[0, 1, 2], [3, 4, 5], [6, 7, 8]];
    let mut result = into_iter_2d_array(&array).into_iter();
    for row in 0..3 {
        for column in 0..3 {
            let expected_val = row * N + column;

            assert_eq!(result.next().unwrap(), (row, column, expected_val));
        }
    }
    assert_eq!(result.next(), None);
}

#[test]
fn test_iter_mut_2d_array_replaces_every_cell() {
    let mut array = [[1u32, 2], [3, 4]];
    iter_mut_2d_array(&mut array, |r: usize, c: usize, v: &u32| *v * 100 + (r as u32) * 10 + c as u32);
    assert_eq!(array, [[100, 201], [310, 411]]);
}

#[test]
fn test_iter_2d_array_of_one_cell() {
    let array = [["x"]];
    assert_eq!(iter_2d_array(&array), vec![(0, 0, &"x")]);
}

#[test]
fn test_joint_iter_2d_arrays_pairs_the_values() {
    let first = vec![(0u16, 0u16, 'a'), (0, 1, 'b'), (1, 0, 'c')];
    let second = vec![(0u16, 0u16, 1u8), (0, 1, 2), (1, 0, 3)];
    assert_eq!(
        joint_iter_2d_arrays(first, second),
        vec![(0, 0, 'a', 1), (0, 1, 'b', 2), (1, 0, 'c', 3)]
    );
}

#[test]
fn test_joint_iter_2d_arrays_stops_with_the_shorter_walk() {
    let first = vec![(0u16, 0u16, 'a'), (0, 1, 'b'), (1, 0, 'c')];
    let second = vec![(5u16, 5u16, 1u8)];
    assert_eq!(joint_iter_2d_arrays(first.clone(), second.clone()), vec![(0, 0, 'a', 1)]);
    assert_eq!(joint_iter_2d_arrays(second, first), vec![(5, 5, 1, 'a')]);
    let empty: Vec<(u16, u16, u8)> = Vec::new();
    assert_eq!(joint_iter_2d_arrays(empty, vec![(0u16, 0u16, 1u8)]), vec![]);
}
