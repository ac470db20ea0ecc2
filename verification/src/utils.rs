//! Walks over square arrays and over two grids at once.

pub use crate::{into_iter_2d_array, iter_2d_array, iter_mut_2d_array};
use vstd::prelude::*;

verus! {

/// Two row-major walks side by side: each item has the coordinates of the
/// first walk's item and the values of both. The result is as long as the
/// shorter walk.
pub fn joint_iter_2d_arrays<ValueT1, ValueT2>(
    array_iter1: Vec<(u16, u16, ValueT1)>,
    array_iter2: Vec<(u16, u16, ValueT2)>,
) -> (items: Vec<(u16, u16, ValueT1, ValueT2)>)
    ensures
        items.len() == if array_iter1.len() <= array_iter2.len() {
            array_iter1.len()
        } else {
            array_iter2.len()
        },
        forall|k: int|
            0 <= k < items.len() ==> #[trigger] items[k] == (
                array_iter1[k].0,
                array_iter1[k].1,
                array_iter1[k].2,
                array_iter2[k].2,
            ),
{
    let ghost first = array_iter1@;
    let ghost second = array_iter2@;
    let mut lhs = array_iter1;
    let mut rhs = array_iter2;
    let mut backwards: Vec<(u16, u16, ValueT1, ValueT2)> = Vec::new();
    while lhs.len() > rhs.len()
        invariant
            lhs.len() <= first.len(),
            lhs.len() == first.len() || lhs.len() >= second.len(),
            lhs@ == first.subrange(0, lhs.len() as int),
            rhs@ == second,
        decreases lhs.len(),
    {
        let _ = lhs.pop();
    }
    while rhs.len() > lhs.len()
        invariant
            rhs.len() <= second.len(),
            lhs.len() <= first.len(),
            lhs@ == first.subrange(0, lhs.len() as int),
            rhs@ == second.subrange(0, rhs.len() as int),
            lhs.len() <= rhs.len(),
            lhs.len() == first.len() || lhs.len() == second.len(),
        decreases rhs.len(),
    {
        let _ = rhs.pop();
    }
    let ghost n = lhs.len() as int;
    while lhs.len() > 0
        invariant
            lhs.len() == rhs.len(),
            0 <= lhs.len() <= n,
            n <= first.len(),
            n <= second.len(),
            n == first.len() || n == second.len(),
            lhs@ == first.subrange(0, lhs.len() as int),
            rhs@ == second.subrange(0, rhs.len() as int),
            backwards.len() == n - lhs.len(),
            forall|k: int|
                0 <= k < backwards.len() ==> #[trigger] backwards[k] == (
                    first[n - 1 - k].0,
                    first[n - 1 - k].1,
                    first[n - 1 - k].2,
                    second[n - 1 - k].2,
                ),
        decreases lhs.len(),
    {
        let left = lhs.pop().unwrap();
        let right = rhs.pop().unwrap();
        backwards.push((left.0, left.1, left.2, right.2));
    }
    let mut items: Vec<(u16, u16, ValueT1, ValueT2)> = Vec::new();
    while backwards.len() > 0
        invariant
            backwards.len() + items.len() == n,
            n <= first.len(),
            n <= second.len(),
            n == first.len() || n == second.len(),
            forall|k: int|
                0 <= k < backwards.len() ==> #[trigger] backwards[k] == (
                    first[n - 1 - k].0,
                    first[n - 1 - k].1,
                    first[n - 1 - k].2,
                    second[n - 1 - k].2,
                ),
            forall|k: int|
                0 <= k < items.len() ==> #[trigger] items[k] == (
                    first[k].0,
                    first[k].1,
                    first[k].2,
                    second[k].2,
                ),
        decreases backwards.len(),
    {
        let item = backwards.pop().unwrap();
        items.push(item);
    }
    items
}

} // verus!
