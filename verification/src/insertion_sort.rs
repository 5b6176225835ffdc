//! Insertion sort: walk the vector left to right and sink each new element
//! into its place among the already-sorted prefix by adjacent swaps.

use crate::index_ops::{Length, Swap};
use crate::is_sorted::sorted;
use crate::step::Step;
use vstd::prelude::*;

verus! {

/// Sort the subsequence seen through the strided `view` in place: the view's
/// elements end up nondecreasing, the vector keeps exactly its elements, and
/// nothing before the view's offset moves.
pub fn insertion_sort_step(vec: &mut Vec<i64>, view: &Step)
    requires
        view.wf(),
        view.offset_spec() <= old(vec)@.len(),
        old(vec)@.len() - view.offset_spec() + view.step_spec() - 1 <= usize::MAX,
    ensures
        final(vec)@.len() == old(vec)@.len(),
        final(vec)@.to_multiset() == old(vec)@.to_multiset(),
        sorted(view.sub(final(vec)@)),
        forall|p: int| 0 <= p < view.offset_spec() ==> final(vec)@[p] == old(vec)@[p],
{
    let size = view.length(vec);
    if size > 1 {
        let mut i: usize = 1;
        while i < size
            invariant
                view.wf(),
                view.offset_spec() <= vec@.len(),
                vec@.len() == old(vec)@.len(),
                size == view.sub(vec@).len(),
                size > 1,
                1 <= i <= size,
                vec@.to_multiset() == old(vec)@.to_multiset(),
                forall|p: int| 0 <= p < view.offset_spec() ==> vec@[p] == old(vec)@[p],
                forall|a: int, b: int|
                    0 <= a <= b < i ==> view.sub(vec@)[a] <= view.sub(vec@)[b],
            decreases size - i,
        {
            let mut j: usize = i;
            while j > 0 && view.index(vec, j) < view.index(vec, j - 1)
                invariant
                    view.wf(),
                    view.offset_spec() <= vec@.len(),
                    vec@.len() == old(vec)@.len(),
                    size == view.sub(vec@).len(),
                    j <= i < size,
                    vec@.to_multiset() == old(vec)@.to_multiset(),
                    forall|p: int| 0 <= p < view.offset_spec() ==> vec@[p] == old(vec)@[p],
                    forall|a: int, b: int|
                        0 <= a < b <= i && a != j && b != j ==> view.sub(vec@)[a] <= view.sub(
                            vec@,
                        )[b],
                    forall|b: int| j < b <= i ==> view.sub(vec@)[j as int] <= view.sub(vec@)[b],
                decreases j,
            {
                view.swap(vec, j, j - 1);
                j = j - 1;
            }
            proof {
                let s = view.sub(vec@);
                assert forall|a: int, b: int| 0 <= a <= b <= i implies s[a] <= s[b] by {
                    if a < b {
                        if a == j {
                            assert(s[a] <= s[b]);
                        } else if b == j {
                            assert(a <= j - 1);
                            if a < j - 1 {
                                assert(s[a] <= s[j - 1]);
                            }
                            assert(s[j - 1] <= s[j as int]);
                        } else {
                            assert(s[a] <= s[b]);
                        }
                    }
                }
            }
            i = i + 1;
        }
    }
}

/// Sort the vector in place. The result is nondecreasing and holds exactly
/// the elements the vector held before.
pub fn insertion_sort(vec: &mut Vec<i64>)
    ensures
        sorted(final(vec)@),
        final(vec)@.to_multiset() == old(vec)@.to_multiset(),
        final(vec)@.len() == old(vec)@.len(),
{
    let size = vec.length();
    if size > 1 {
        let mut i: usize = 1;
        while i < size
            invariant
                size == vec@.len(),
                size > 1,
                1 <= i <= size,
                vec@.to_multiset() == old(vec)@.to_multiset(),
                forall|a: int, b: int| 0 <= a <= b < i ==> vec@[a] <= vec@[b],
            decreases size - i,
        {
            let mut j: usize = i;
            while j > 0 && vec[j] < vec[j - 1]
                invariant
                    size == vec@.len(),
                    j <= i < size,
                    vec@.to_multiset() == old(vec)@.to_multiset(),
                    forall|a: int, b: int|
                        0 <= a < b <= i && a != j && b != j ==> vec@[a] <= vec@[b],
                    forall|b: int| j < b <= i ==> vec@[j as int] <= vec@[b],
                decreases j,
            {
                Swap::swap(vec, j, j - 1);
                j = j - 1;
            }
            proof {
                assert forall|a: int, b: int| 0 <= a <= b <= i implies vec@[a] <= vec@[b] by {
                    if a < b {
                        if a == j {
                            assert(vec@[a] <= vec@[b]);
                        } else if b == j {
                            assert(a <= j - 1);
                            if a < j - 1 {
                                assert(vec@[a] <= vec@[j - 1]);
                            }
                            assert(vec@[j - 1] <= vec@[j as int]);
                        } else {
                            assert(vec@[a] <= vec@[b]);
                        }
                    }
                }
            }
            i = i + 1;
        }
    }
}

} // verus!
