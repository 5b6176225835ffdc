//! Quicksort and its relatives: partitioning a range around its first
//! element, three-way partitioning for duplicate keys, sorting, and
//! selection of the k-th smallest element. The vector is shuffled first so
//! the expected depth is logarithmic; whatever the shuffle did, every
//! function rearranges the elements and nothing else.

use crate::is_sorted::{
    lemma_all_ge_after_permutation, lemma_all_le_after_permutation, lemma_frame_multiset, sorted,
};
use crate::index_ops::Swap;
use crate::knuth_shuffle::knuth_shuffle;
use vstd::prelude::*;

verus! {

/// Sort the vector in place. The result is nondecreasing and holds exactly
/// the elements the vector held before.
pub fn quick_sort(vec: &mut Vec<i64>, rng: &mut rand::rngs::ThreadRng)
    ensures
        sorted(final(vec)@),
        final(vec)@.to_multiset() == old(vec)@.to_multiset(),
        final(vec)@.len() == old(vec)@.len(),
{
    knuth_shuffle(vec, rng);
    let size = vec.len();
    sort(vec, 0, size);
    proof {
        assert(vec@ =~= vec@.subrange(0, vec@.len() as int));
    }
}

/// Recursively quicksort the range `lo .. hi`; nothing outside it moves.
fn sort(vec: &mut Vec<i64>, lo: usize, hi: usize)
    requires
        lo <= hi <= old(vec)@.len(),
    ensures
        final(vec)@.len() == old(vec)@.len(),
        final(vec)@.to_multiset() == old(vec)@.to_multiset(),
        forall|p: int| 0 <= p < old(vec)@.len() && !(lo <= p < hi) ==> final(vec)@[p] == old(
            vec,
        )@[p],
        sorted(final(vec)@.subrange(lo as int, hi as int)),
    decreases hi - lo,
{
    if hi - lo <= 1 {
        return ;
    }
    let k = partition(vec, lo, hi);
    let ghost v1 = vec@;
    sort(vec, lo, k);
    let ghost v2 = vec@;
    proof {
        lemma_frame_multiset(v1, v2, lo as int, k as int);
        lemma_all_le_after_permutation(
            v1.subrange(lo as int, k as int),
            v2.subrange(lo as int, k as int),
            v1[k as int],
        );
        assert(forall|a: int| lo <= a < k ==> v2[a] == v2.subrange(lo as int, k as int)[a - lo]);
        assert(forall|a: int| lo <= a < k ==> v2[a] <= v2[k as int]);
    }
    sort(vec, k + 1, hi);
    let ghost v3 = vec@;
    proof {
        lemma_frame_multiset(v2, v3, k + 1, hi as int);
        lemma_all_ge_after_permutation(
            v2.subrange(k + 1, hi as int),
            v3.subrange(k + 1, hi as int),
            v2[k as int],
        );
        assert(forall|b: int| k + 1 <= b < hi ==> v3[b] == v3.subrange(k + 1, hi as int)[b - k - 1]);
        assert(forall|b: int| k + 1 <= b < hi ==> v3[b] >= v3[k as int]);
        assert(forall|a: int| lo <= a < k ==> v3[a] == v2[a]);
        let s = v3.subrange(lo as int, hi as int);
        assert forall|a: int, b: int| 0 <= a <= b < s.len() implies s[a] <= s[b] by {
            let pa = a + lo;
            let pb = b + lo;
            assert(s[a] == v3[pa] && s[b] == v3[pb]);
            if pb < k {
                assert(v2.subrange(lo as int, k as int)[pa - lo] <= v2.subrange(
                    lo as int,
                    k as int,
                )[pb - lo]);
            } else if pa > k {
                assert(v3.subrange(k + 1, hi as int)[pa - k - 1] <= v3.subrange(
                    k + 1,
                    hi as int,
                )[pb - k - 1]);
            } else {
                if pa < k {
                    assert(v3[pa] <= v3[k as int]);
                }
                if pb > k {
                    assert(v3[k as int] <= v3[pb]);
                }
            }
        }
    }
}

/// Rearrange the range `lo .. hi` around its first element: afterwards that
/// element sits at the returned position, nothing smaller lies right of it
/// within the range, nothing greater lies left of it, and nothing outside
/// the range moves. An empty range is handed back untouched.
pub fn partition(vec: &mut Vec<i64>, lo: usize, hi: usize) -> (k: usize)
    requires
        lo <= hi <= old(vec)@.len(),
    ensures
        final(vec)@.len() == old(vec)@.len(),
        final(vec)@.to_multiset() == old(vec)@.to_multiset(),
        forall|p: int| 0 <= p < old(vec)@.len() && !(lo <= p < hi) ==> final(vec)@[p] == old(
            vec,
        )@[p],
        hi <= lo + 1 ==> k == lo && final(vec)@ == old(vec)@,
        lo < hi ==> lo <= k < hi && final(vec)@[k as int] == old(vec)@[lo as int] && (forall|a: int|
            lo <= a < k ==> final(vec)@[a] <= final(vec)@[k as int]) && (forall|b: int|
            k < b < hi ==> final(vec)@[b] >= final(vec)@[k as int]),
{
    if hi - lo <= 1 {
        return lo;
    }
    let ghost pivot = vec@[lo as int];
    let mut i: usize = lo + 1;
    let mut j: usize = hi - 1;
    while i <= j
        invariant
            lo < hi <= vec@.len(),
            vec@.len() == old(vec)@.len(),
            vec@.to_multiset() == old(vec)@.to_multiset(),
            forall|p: int| 0 <= p < vec@.len() && !(lo <= p < hi) ==> vec@[p] == old(vec)@[p],
            vec@[lo as int] == pivot,
            lo + 1 <= i <= hi,
            lo <= j <= hi - 1,
            forall|a: int| lo + 1 <= a < i ==> vec@[a] <= pivot,
            forall|b: int| j < b < hi ==> vec@[b] >= pivot,
        decreases (if i <= j {
            2 * (j + 1 - i) + (if i < vec@.len() && vec@[i as int] > pivot {
                1int
            } else {
                0int
            })
        } else {
            0int
        }),
    {
        while i < hi && vec[i] <= vec[lo]
            invariant
                lo < hi <= vec@.len(),
                vec@[lo as int] == pivot,
                lo + 1 <= i <= hi,
                forall|a: int| lo + 1 <= a < i ==> vec@[a] <= pivot,
            decreases hi - i,
        {
            i = i + 1;
        }
        while j > lo && vec[j] >= vec[lo]
            invariant
                lo < hi <= vec@.len(),
                vec@[lo as int] == pivot,
                lo <= j <= hi - 1,
                forall|b: int| j < b < hi ==> vec@[b] >= pivot,
            decreases j,
        {
            j = j - 1;
        }
        if i < j {
            Swap::swap(vec, i, j);
        }
    }
    Swap::swap(vec, lo, j);
    proof {
        assert(vec@[j as int] == pivot);
        assert forall|a: int| lo <= a < j implies vec@[a] <= vec@[j as int] by {
            if a > lo {
                assert(vec@[a] <= pivot);
            }
        }
    }
    j
}

/// Rearrange the range `lo .. hi` around its first element into three parts:
/// strictly smaller keys, keys equal to it, and strictly greater keys. The
/// returned pair bounds the equal part, and nothing outside the range moves.
/// A range of at most one element is handed back untouched.
pub fn three_way_partition(vec: &mut Vec<i64>, lo: usize, hi: usize) -> (r: (usize, usize))
    requires
        lo <= hi <= old(vec)@.len(),
    ensures
        final(vec)@.len() == old(vec)@.len(),
        final(vec)@.to_multiset() == old(vec)@.to_multiset(),
        forall|p: int| 0 <= p < old(vec)@.len() && !(lo <= p < hi) ==> final(vec)@[p] == old(
            vec,
        )@[p],
        hi <= lo + 1 ==> r == (lo, hi) && final(vec)@ == old(vec)@,
        lo + 1 < hi ==> ({
            let (lt, gt) = r;
            &&& lo <= lt < gt <= hi
            &&& final(vec)@[lt as int] == old(vec)@[lo as int]
            &&& forall|a: int| lo <= a < lt ==> final(vec)@[a] < final(vec)@[lt as int]
            &&& forall|m: int| lt <= m < gt ==> final(vec)@[m] == final(vec)@[lt as int]
            &&& forall|b: int| gt <= b < hi ==> final(vec)@[b] > final(vec)@[lt as int]
        }),
{
    if hi - lo <= 1 {
        return (lo, hi);
    }
    let ghost pivot = vec@[lo as int];
    let mut lt: usize = lo;
    let mut i: usize = lo + 1;
    let mut gt: usize = hi;
    while gt > i
        invariant
            lo < hi <= vec@.len(),
            vec@.len() == old(vec)@.len(),
            vec@.to_multiset() == old(vec)@.to_multiset(),
            forall|p: int| 0 <= p < vec@.len() && !(lo <= p < hi) ==> vec@[p] == old(vec)@[p],
            lo <= lt < i <= gt <= hi,
            forall|a: int| lo <= a < lt ==> vec@[a] < pivot,
            forall|m: int| lt <= m < i ==> vec@[m] == pivot,
            forall|b: int| gt <= b < hi ==> vec@[b] > pivot,
        decreases gt - i,
    {
        if vec[i] < vec[lt] {
            Swap::swap(vec, lt, i);
            lt = lt + 1;
            i = i + 1;
        } else if vec[i] > vec[lt] {
            Swap::swap(vec, i, gt - 1);
            gt = gt - 1;
        } else {
            i = i + 1;
        }
    }
    (lt, gt)
}

/// Select the `k`-th smallest element: afterwards it sits at position `k`,
/// everything before is no greater and everything after no smaller, the
/// vector keeps exactly its elements, and that element is returned.
pub fn quick_select(vec: &mut Vec<i64>, k: usize, rng: &mut rand::rngs::ThreadRng) -> (result: i64)
    requires
        k < old(vec)@.len(),
    ensures
        final(vec)@.len() == old(vec)@.len(),
        final(vec)@.to_multiset() == old(vec)@.to_multiset(),
        result == final(vec)@[k as int],
        forall|a: int| 0 <= a < k ==> final(vec)@[a] <= result,
        forall|b: int| k < b < final(vec)@.len() ==> final(vec)@[b] >= result,
{
    knuth_shuffle(vec, rng);
    let mut lo: usize = 0;
    let mut hi: usize = vec.len();
    loop
        invariant_except_break
            lo <= k < hi <= vec@.len(),
            vec@.len() == old(vec)@.len(),
            vec@.to_multiset() == old(vec)@.to_multiset(),
            forall|a: int, b: int| 0 <= a < lo <= b < vec@.len() ==> vec@[a] <= vec@[b],
            forall|a: int, b: int| 0 <= a < hi <= b < vec@.len() ==> vec@[a] <= vec@[b],
        ensures
            vec@.len() == old(vec)@.len(),
            vec@.to_multiset() == old(vec)@.to_multiset(),
            forall|a: int| 0 <= a < k ==> vec@[a] <= vec@[k as int],
            forall|b: int| k < b < vec@.len() ==> vec@[b] >= vec@[k as int],
        decreases hi - lo,
    {
        let ghost before = vec@;
        let l = partition(vec, lo, hi);
        proof {
            lemma_frame_multiset(before, vec@, lo as int, hi as int);
            let w_old = before.subrange(lo as int, hi as int);
            let w_new = vec@.subrange(lo as int, hi as int);
            crate::is_sorted::lemma_same_multiset_same_members(w_new, w_old);
            assert forall|a: int, b: int|
                0 <= a < lo <= b < vec@.len() implies vec@[a] <= vec@[b] by {
                if b < hi {
                    assert(w_new[b - lo] == vec@[b]);
                    assert(w_new.contains(vec@[b]));
                    assert(w_old.contains(vec@[b]));
                    let q = choose|q: int| 0 <= q < w_old.len() && w_old[q] == vec@[b];
                    assert(before[lo + q] == vec@[b]);
                    assert(before[a] <= before[lo + q]);
                } else {
                    assert(vec@[a] == before[a] && vec@[b] == before[b]);
                }
            }
            assert forall|a: int, b: int|
                0 <= a < hi <= b < vec@.len() implies vec@[a] <= vec@[b] by {
                if lo <= a {
                    assert(w_new[a - lo] == vec@[a]);
                    assert(w_new.contains(vec@[a]));
                    assert(w_old.contains(vec@[a]));
                    let q = choose|q: int| 0 <= q < w_old.len() && w_old[q] == vec@[a];
                    assert(before[lo + q] == vec@[a]);
                    assert(before[lo + q] <= before[b]);
                } else {
                    assert(vec@[a] == before[a] && vec@[b] == before[b]);
                }
            }
        }
        if l == k {
            proof {
                assert forall|a: int| 0 <= a < k implies vec@[a] <= vec@[k as int] by {
                    if a >= lo {
                        assert(vec@[a] <= vec@[k as int]);
                    }
                }
                assert forall|b: int| k < b < vec@.len() implies vec@[b] >= vec@[k as int] by {
                    if b < hi {
                        assert(vec@[b] >= vec@[k as int]);
                    }
                }
            }
            break ;
        }
        if l > k {
            proof {
                assert forall|a: int, b: int|
                    0 <= a < l <= b < vec@.len() implies vec@[a] <= vec@[b] by {
                    if a >= lo {
                        assert(vec@[a] <= vec@[l as int]);
                        if b < hi && b > l {
                            assert(vec@[l as int] <= vec@[b]);
                        }
                    }
                }
            }
            hi = l;
        } else {
            proof {
                assert forall|a: int, b: int|
                    0 <= a < l + 1 <= b < vec@.len() implies vec@[a] <= vec@[b] by {
                    if a >= lo {
                        assert(vec@[a] <= vec@[l as int]);
                        if b < hi && b > l {
                            assert(vec@[l as int] <= vec@[b]);
                        }
                    }
                }
            }
            lo = l + 1;
        }
    }
    vec[k]
}

} // verus!
