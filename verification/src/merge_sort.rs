//! Merge sort: recursively sort the two halves of a range, then merge them
//! through an auxiliary vector.

use crate::is_sorted::{lemma_frame_multiset_whole, sorted};
use vstd::prelude::*;
use vstd::seq_lib::group_to_multiset_ensures;
use vstd::seq_lib::lemma_multiset_commutative;

verus! {

/// Sort the vector in place. The result is nondecreasing and holds exactly
/// the elements the vector held before.
pub fn merge_sort(vec: &mut Vec<i64>)
    requires
        old(vec)@.len() <= usize::MAX / 2,
    ensures
        sorted(final(vec)@),
        final(vec)@.to_multiset() == old(vec)@.to_multiset(),
        final(vec)@.len() == old(vec)@.len(),
{
    let mut aux_vec = make_aux(vec);
    let size = vec.len();
    do_merge_sort(vec, &mut aux_vec, 0, size);
    proof {
        assert(vec@.subrange(0, vec@.len() as int) =~= vec@);
    }
}

/// Merge the two already-sorted ranges `0 .. mid` and `mid .. len` of the
/// vector into one sorted whole; the elements are only rearranged.
pub fn merge(vec: &mut Vec<i64>, mid: usize)
    requires
        mid <= old(vec)@.len(),
        sorted(old(vec)@.subrange(0, mid as int)),
        sorted(old(vec)@.subrange(mid as int, old(vec)@.len() as int)),
    ensures
        sorted(final(vec)@),
        final(vec)@.to_multiset() == old(vec)@.to_multiset(),
        final(vec)@.len() == old(vec)@.len(),
{
    let mut aux_vec = make_aux(vec);
    let size = vec.len();
    do_merge(vec, &mut aux_vec, 0, size, mid);
    proof {
        assert(vec@.subrange(0, vec@.len() as int) =~= vec@);
    }
}

/// A scratch vector of the same length as `vec`.
fn make_aux(vec: &Vec<i64>) -> (r: Vec<i64>)
    ensures
        r@.len() == vec@.len(),
{
    let mut aux: Vec<i64> = Vec::with_capacity(vec.len());
    let mut i: usize = 0;
    while i < vec.len()
        invariant
            aux@.len() == i,
            i <= vec@.len(),
        decreases vec@.len() - i,
    {
        aux.push(0);
        i = i + 1;
    }
    aux
}

/// Recursively merge-sort the range `lo .. hi` of the vector, using an
/// auxiliary vector of the same length as scratch space.
fn do_merge_sort(vec: &mut Vec<i64>, aux_vec: &mut Vec<i64>, lo: usize, hi: usize)
    requires
        lo <= hi <= old(vec)@.len(),
        old(aux_vec)@.len() == old(vec)@.len(),
        old(vec)@.len() <= usize::MAX / 2,
    ensures
        final(vec)@.len() == old(vec)@.len(),
        final(aux_vec)@.len() == old(aux_vec)@.len(),
        final(vec)@.to_multiset() == old(vec)@.to_multiset(),
        forall|p: int| 0 <= p < old(vec)@.len() && !(lo <= p < hi) ==> final(vec)@[p] == old(
            vec,
        )@[p],
        sorted(final(vec)@.subrange(lo as int, hi as int)),
    decreases hi - lo,
{
    let mid = (lo + hi) / 2;
    let ghost start = vec@;
    if mid - lo > 1 {
        do_merge_sort(vec, aux_vec, lo, mid);
    }
    let ghost after_left = vec@;
    proof {
        assert(sorted(after_left.subrange(lo as int, mid as int)));
    }
    if hi - mid > 1 {
        do_merge_sort(vec, aux_vec, mid, hi);
    }
    proof {
        assert(vec@.subrange(lo as int, mid as int) =~= after_left.subrange(lo as int, mid as int));
        assert(sorted(vec@.subrange(mid as int, hi as int)));
    }
    do_merge(vec, aux_vec, lo, hi, mid);
}

/// Merge the two sorted ranges `lo .. mid` and `mid .. hi` of the vector,
/// through the auxiliary vector; nothing outside `lo .. hi` moves, and the
/// elements are only rearranged.
fn do_merge(vec: &mut Vec<i64>, aux_vec: &mut Vec<i64>, lo: usize, hi: usize, mid: usize)
    requires
        lo <= mid <= hi <= old(vec)@.len(),
        old(aux_vec)@.len() == old(vec)@.len(),
        sorted(old(vec)@.subrange(lo as int, mid as int)),
        sorted(old(vec)@.subrange(mid as int, hi as int)),
    ensures
        final(vec)@.len() == old(vec)@.len(),
        final(aux_vec)@.len() == old(aux_vec)@.len(),
        final(vec)@.to_multiset() == old(vec)@.to_multiset(),
        forall|p: int| 0 <= p < old(vec)@.len() && !(lo <= p < hi) ==> final(vec)@[p] == old(
            vec,
        )@[p],
        sorted(final(vec)@.subrange(lo as int, hi as int)),
{
    broadcast use group_to_multiset_ensures;
    broadcast use vstd::multiset::group_multiset_axioms;

    let mut k: usize = lo;
    while k < hi
        invariant
            lo <= k <= hi <= vec@.len(),
            aux_vec@.len() == vec@.len(),
            vec@ == old(vec)@,
            forall|p: int| lo <= p < k ==> aux_vec@[p] == vec@[p],
        decreases hi - k,
    {
        aux_vec[k] = vec[k];
        k = k + 1;
    }
    let ghost aux = aux_vec@;
    proof {
        assert(aux.subrange(lo as int, mid as int) =~= old(vec)@.subrange(lo as int, mid as int));
        assert(aux.subrange(mid as int, hi as int) =~= old(vec)@.subrange(mid as int, hi as int));
    }
    let mut i: usize = lo;
    let mut j: usize = mid;
    let mut k: usize = lo;
    while k < hi
        invariant
            lo <= mid <= hi <= vec@.len(),
            lo <= i <= mid,
            mid <= j <= hi,
            lo <= k <= hi,
            k - lo == (i - lo) + (j - mid),
            aux_vec@ == aux,
            aux.len() == vec@.len(),
            vec@.len() == old(vec)@.len(),
            sorted(aux.subrange(lo as int, mid as int)),
            sorted(aux.subrange(mid as int, hi as int)),
            forall|p: int| 0 <= p < vec@.len() && !(lo <= p < k) ==> vec@[p] == old(vec)@[p],
            sorted(vec@.subrange(lo as int, k as int)),
            k > lo && i < mid ==> vec@[k - 1] <= aux[i as int],
            k > lo && j < hi ==> vec@[k - 1] <= aux[j as int],
            vec@.subrange(lo as int, k as int).to_multiset() == aux.subrange(
                lo as int,
                i as int,
            ).to_multiset().add(aux.subrange(mid as int, j as int).to_multiset()),
        decreases hi - k,
    {
        let ghost prev = vec@;
        let ghost i0 = i as int;
        let ghost j0 = j as int;
        let take_left = if i >= mid {
            false
        } else if j >= hi {
            true
        } else {
            aux_vec[i] <= aux_vec[j]
        };
        if take_left {
            vec[k] = aux_vec[i];
            proof {
                assert(aux.subrange(lo as int, i + 1) =~= aux.subrange(lo as int, i as int).push(
                    aux[i as int],
                ));
                if i + 1 < mid {
                    let left = aux.subrange(lo as int, mid as int);
                    assert(left[i0 - lo] == aux[i0] && left[i0 + 1 - lo] == aux[i0 + 1]);
                    assert(aux[i0] <= aux[i0 + 1]);
                }
            }
            i = i + 1;
        } else {
            vec[k] = aux_vec[j];
            proof {
                assert(aux.subrange(mid as int, j + 1) =~= aux.subrange(mid as int, j as int).push(
                    aux[j as int],
                ));
                if j + 1 < hi {
                    let right = aux.subrange(mid as int, hi as int);
                    assert(right[j0 - mid] == aux[j0] && right[j0 + 1 - mid] == aux[j0 + 1]);
                    assert(aux[j0] <= aux[j0 + 1]);
                }
            }
            j = j + 1;
        }
        proof {
            let chosen = vec@[k as int];
            assert(vec@.subrange(lo as int, k + 1) =~= prev.subrange(lo as int, k as int).push(
                chosen,
            ));
            assert(prev.subrange(lo as int, k as int) =~= vec@.subrange(lo as int, k as int));
            let prefix = vec@.subrange(lo as int, k as int);
            let merged = vec@.subrange(lo as int, k + 1);
            assert(prefix.push(chosen).to_multiset() =~= prefix.to_multiset().insert(chosen)) by {
                vstd::seq_lib::to_multiset_build(prefix, chosen);
            }
            if take_left {
                assert(aux.subrange(lo as int, i0).push(aux[i0]).to_multiset() =~= aux.subrange(
                    lo as int,
                    i0,
                ).to_multiset().insert(aux[i0])) by {
                    vstd::seq_lib::to_multiset_build(aux.subrange(lo as int, i0), aux[i0]);
                }
            } else {
                assert(aux.subrange(mid as int, j0).push(aux[j0]).to_multiset() =~= aux.subrange(
                    mid as int,
                    j0,
                ).to_multiset().insert(aux[j0])) by {
                    vstd::seq_lib::to_multiset_build(aux.subrange(mid as int, j0), aux[j0]);
                }
            }
            assert(vec@.subrange(lo as int, k + 1).to_multiset() =~= aux.subrange(
                lo as int,
                i as int,
            ).to_multiset().add(aux.subrange(mid as int, j as int).to_multiset()));
            if k > lo {
                assert(prefix[k - lo - 1] == vec@[k - 1]);
                assert(vec@[k - 1] <= chosen);
            }
            assert forall|a: int, b: int| 0 <= a <= b < merged.len() implies merged[a]
                <= merged[b] by {
                if b == merged.len() - 1 {
                    if a < b {
                        assert(merged[a] == prefix[a]);
                        assert(prefix[a] <= prefix[k - lo - 1]);
                        assert(merged[b] == chosen);
                    }
                } else {
                    assert(merged[a] == prefix[a] && merged[b] == prefix[b]);
                }
            }
        }
        k = k + 1;
    }
    proof {
        assert(aux.subrange(lo as int, mid as int) =~= aux.subrange(lo as int, i as int));
        assert(aux.subrange(mid as int, hi as int) =~= aux.subrange(mid as int, j as int));
        lemma_multiset_commutative(
            old(vec)@.subrange(lo as int, mid as int),
            old(vec)@.subrange(mid as int, hi as int),
        );
        assert(old(vec)@.subrange(lo as int, mid as int) + old(vec)@.subrange(mid as int, hi as int)
            =~= old(vec)@.subrange(lo as int, hi as int));
        assert(vec@.subrange(lo as int, hi as int).to_multiset() == old(vec)@.subrange(
            lo as int,
            hi as int,
        ).to_multiset());
        lemma_frame_multiset_whole(vec@, old(vec)@, lo as int, hi as int);
    }
}

} // verus!
