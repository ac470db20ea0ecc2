//! Generalized tic-tac-toe on an N×M grid with a K-in-a-row win rule:
//! the grid, the referees that adjudicate moves, a transposition cache,
//! an exhaustive negamax player and the turn protocol that samples one
//! move out of a player's weight grid.

pub mod arena;
pub mod board;
pub mod game_state_storage;
pub mod interfaces;
pub mod player;
pub mod referee;
pub mod text;
pub mod utils;

use vstd::prelude::*;

verus! {

/// Every cell of a square array with its row and column, row by row: item
/// number `k` is the cell in row `k / N` and column `k % N`.
pub fn iter_2d_array<T, const N: usize>(array: &[[T; N]; N]) -> (items: Vec<(usize, usize, &T)>)
    requires
        N * N <= usize::MAX,
    ensures
        items.len() == N * N,
        forall|k: int|
            0 <= k < items.len() ==> (#[trigger] items[k]).0 == k / (N as int) && items[k].1 == k
                % (N as int) && *items[k].2 == array[k / (N as int)][k % (N as int)],
{
    let mut items: Vec<(usize, usize, &T)> = Vec::new();
    let mut r: usize = 0;
    assert(0 * N == 0);
    while r < N
        invariant
            r <= N,
            N * N <= usize::MAX,
            items.len() == r * N,
            forall|k: int|
                0 <= k < items.len() ==> (#[trigger] items[k]).0 == k / (N as int) && items[k].1
                    == k % (N as int) && *items[k].2 == array[k / (N as int)][k % (N as int)],
        decreases N - r,
    {
        let mut c: usize = 0;
        while c < N
            invariant
                r < N,
                c <= N,
                N * N <= usize::MAX,
                items.len() == r * N + c,
                forall|k: int|
                    0 <= k < items.len() ==> (#[trigger] items[k]).0 == k / (N as int)
                        && items[k].1 == k % (N as int) && *items[k].2 == array[k / (
                    N as int)][k % (N as int)],
            decreases N - c,
        {
            proof {
                vstd::arithmetic::div_mod::lemma_fundamental_div_mod_converse(
                    r * N + c,
                    N as int,
                    r as int,
                    c as int,
                );
                assert(r * N + c < N * N) by (nonlinear_arith)
                    requires
                        r < N,
                        c < N,
                ;
            }
            items.push((r, c, &array[r][c]));
            c += 1;
        }
        assert((r + 1) * N == r * N + N) by (nonlinear_arith);
        r += 1;
    }
    items
}

/// Every cell of a square array with its row and column, row by row, the
/// cells cloned.
pub fn into_iter_2d_array<T: Clone, const N: usize>(array: &[[T; N]; N]) -> (items: Vec<
    (usize, usize, T),
>)
    requires
        N * N <= usize::MAX,
    ensures
        items.len() == N * N,
        forall|k: int|
            0 <= k < items.len() ==> (#[trigger] items[k]).0 == k / (N as int) && items[k].1 == k
                % (N as int) && cloned(array[k / (N as int)][k % (N as int)], items[k].2),
{
    let cells = iter_2d_array(array);
    let mut items: Vec<(usize, usize, T)> = Vec::new();
    let mut i: usize = 0;
    while i < cells.len()
        invariant
            i <= cells.len(),
            items.len() == i,
            cells.len() == N * N,
            forall|k: int|
                0 <= k < cells.len() ==> (#[trigger] cells[k]).0 == k / (N as int) && cells[k].1
                    == k % (N as int) && *cells[k].2 == array[k / (N as int)][k % (N as int)],
            forall|k: int|
                0 <= k < items.len() ==> (#[trigger] items[k]).0 == k / (N as int) && items[k].1
                    == k % (N as int) && cloned(array[k / (N as int)][k % (N as int)], items[k].2),
        decreases cells.len() - i,
    {
        let (r, c, v) = cells[i];
        items.push((r, c, v.clone()));
        i += 1;
    }
    items
}

/// Visits every cell of a square array row by row and replaces it by what
/// `update` makes of its row, its column and its value.
pub fn iter_mut_2d_array<T, const N: usize, F: Fn(usize, usize, &T) -> T>(
    array: &mut [[T; N]; N],
    update: F,
)
    requires
        forall|r: usize, c: usize, v: &T| r < N && c < N ==> call_requires(update, (r, c, v)),
    ensures
        forall|r: int, c: int|
            0 <= r < N && 0 <= c < N ==> call_ensures(
                update,
                (r as usize, c as usize, &old(array)[r][c]),
                #[trigger] final(array)[r][c],
            ),
{
    let mut r: usize = 0;
    while r < N
        invariant
            r <= N,
            forall|r: usize, c: usize, v: &T| r < N && c < N ==> call_requires(update, (r, c, v)),
            forall|a: int, b: int|
                0 <= a < r && 0 <= b < N ==> call_ensures(
                    update,
                    (a as usize, b as usize, &old(array)[a][b]),
                    #[trigger] array[a][b],
                ),
            forall|a: int, b: int|
                r <= a < N && 0 <= b < N ==> #[trigger] array[a][b] == old(array)[a][b],
        decreases N - r,
    {
        let mut c: usize = 0;
        while c < N
            invariant
                r < N,
                c <= N,
                forall|r: usize, c: usize, v: &T|
                    r < N && c < N ==> call_requires(update, (r, c, v)),
                forall|a: int, b: int|
                    (0 <= a < r && 0 <= b < N) || (a == r && 0 <= b < c) ==> call_ensures(
                        update,
                        (a as usize, b as usize, &old(array)[a][b]),
                        #[trigger] array[a][b],
                    ),
                forall|a: int, b: int|
                    (r < a < N && 0 <= b < N) || (a == r && c <= b < N) ==> #[trigger] array[a][b]
                        == old(array)[a][b],
            decreases N - c,
        {
            let value = update(r, c, &array[r][c]);
            array[r][c] = value;
            c += 1;
        }
        r += 1;
    }
}

} // verus!
