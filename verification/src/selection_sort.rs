//! Selection sort: repeatedly swap the smallest remaining element into the
//! front of the unsorted suffix.

use crate::index_ops::{Length, Swap};
use crate::is_sorted::sorted;
use vstd::prelude::*;

verus! {

/// Sort the vector in place. The result is nondecreasing and holds exactly
/// the elements the vector held before.
pub fn selection_sort(vec: &mut Vec<i64>)
    ensures
        sorted(final(vec)@),
        final(vec)@.to_multiset() == old(vec)@.to_multiset(),
        final(vec)@.len() == old(vec)@.len(),
{
    let size = vec.length();
    if size > 1 {
        let mut i: usize = 0;
        while i < size - 1
            invariant
                size == vec@.len(),
                size > 1,
                i <= size - 1,
                vec@.to_multiset() == old(vec)@.to_multiset(),
                forall|a: int, b: int| 0 <= a <= b < i ==> vec@[a] <= vec@[b],
                forall|a: int, b: int| 0 <= a < i && i <= b < size ==> vec@[a] <= vec@[b],
            decreases size - i,
        {
            let mut min: usize = i;
            let mut j: usize = i;
            while j < size
                invariant
                    size == vec@.len(),
                    i <= min < size,
                    i <= j <= size,
                    forall|c: int| i <= c < j ==> vec@[min as int] <= vec@[c],
                decreases size - j,
            {
                if vec[j] < vec[min] {
                    min = j;
                }
                j = j + 1;
            }
            Swap::swap(vec, i, min);
            i = i + 1;
        }
    }
}

} // verus!
