//! Shell sort: insertion-sort the strided subsequences of the vector for a
//! shrinking series of gaps from the sequence 1, 4, 13, 40, …, finishing
//! with gap one, which leaves the whole vector sorted.

use crate::index_ops::Length;
use crate::insertion_sort::insertion_sort_step;
use crate::is_sorted::{lemma_frame_multiset, lemma_sorted_same_multiset_equal, sorted};
use crate::step::Step;
use vstd::prelude::*;

verus! {

/// Sort the vector in place. The result is nondecreasing and holds exactly
/// the elements the vector held before.
pub fn shell_sort(vec: &mut Vec<i64>)
    requires
        old(vec)@.len() <= (usize::MAX - 1) / 3,
    ensures
        sorted(final(vec)@),
        final(vec)@.to_multiset() == old(vec)@.to_multiset(),
        final(vec)@.len() == old(vec)@.len(),
{
    let size = vec.length();
    let hs = generate_hs(size);
    let mut k = hs.len();
    while k > 0
        invariant
            vec@.len() == old(vec)@.len(),
            vec@.len() <= (usize::MAX - 1) / 3,
            vec@.to_multiset() == old(vec)@.to_multiset(),
            k <= hs@.len(),
            hs@.len() >= 1,
            hs@[0] == 1,
            forall|m: int| 0 <= m < hs@.len() ==> 1 <= hs@[m] <= vec@.len() || hs@[m] == 1,
            k == 0 ==> sorted(vec@),
        decreases k,
    {
        k = k - 1;
        h_sort(vec, hs[k]);
    }
}

/// The gap sequence 1, 4, 13, 40, …: each gap is three times the previous
/// one plus one, stopping before a gap would exceed `size`.
pub fn generate_hs(size: usize) -> (r: Vec<usize>)
    requires
        size <= (usize::MAX - 1) / 3,
    ensures
        r@.len() >= 1,
        r@[0] == 1,
        forall|m: int| 0 <= m < r@.len() ==> 1 <= r@[m] <= size || r@[m] == 1,
    {
    let mut vec: Vec<usize> = Vec::new();
    vec.push(1);
    loop
        invariant_except_break
            size <= (usize::MAX - 1) / 3,
            vec@.len() >= 1,
            vec@[0] == 1,
            forall|m: int| 0 <= m < vec@.len() ==> 1 <= vec@[m] <= size || vec@[m] == 1,
            vec@.last() <= size || vec@.last() == 1,
        ensures
            vec@.len() >= 1,
            vec@[0] == 1,
            forall|m: int| 0 <= m < vec@.len() ==> 1 <= vec@[m] <= size || vec@[m] == 1,
        decreases size - vec@.last(),
    {
        let h_size = vec.len();
        let new_h = vec[h_size - 1] * 3 + 1;
        if new_h > size {
            break ;
        }
        vec.push(new_h);
    }
    vec
}

/// Insertion-sort every stride-`h` subsequence of the vector, for every
/// starting offset. The vector keeps exactly its elements, and a gap of one
/// sorts it outright.
pub fn h_sort(vec: &mut Vec<i64>, h: usize)
    requires
        h >= 1,
        old(vec)@.len() + h - 1 <= usize::MAX,
    ensures
        final(vec)@.len() == old(vec)@.len(),
        final(vec)@.to_multiset() == old(vec)@.to_multiset(),
        h == 1 ==> sorted(final(vec)@),
{
    let size = vec.length();
    let mut offset: usize = 0;
    while offset + h < size
        invariant
            h >= 1,
            vec@.len() == old(vec)@.len(),
            vec@.len() + h - 1 <= usize::MAX,
            size == vec@.len(),
            vec@.to_multiset() == old(vec)@.to_multiset(),
            offset == 0 || offset + h <= size,
            h == 1 && offset >= 1 ==> sorted(vec@),
        decreases size - offset,
    {
        let ghost before = vec@;
        let view = Step::new(h, offset);
        insertion_sort_step(vec, &view);
        proof {
            if h == 1 {
                let l = vec@.len() as int;
                assert(view.sub(vec@) =~= vec@.subrange(offset as int, l));
                if offset == 0 {
                    assert(vec@.subrange(0, l) =~= vec@);
                    assert(sorted(vec@));
                } else {
                    assert(view.sub(before) =~= before.subrange(offset as int, l));
                    assert(sorted(before));
                    assert(sorted(before.subrange(offset as int, l)));
                    lemma_frame_multiset(before, vec@, offset as int, l);
                    lemma_sorted_same_multiset_equal(
                        before.subrange(offset as int, l),
                        vec@.subrange(offset as int, l),
                    );
                    assert forall|p: int| 0 <= p < l implies vec@[p] == before[p] by {
                        if p >= offset {
                            assert(vec@.subrange(offset as int, l)[p - offset] == before.subrange(
                                offset as int,
                                l,
                            )[p - offset]);
                        }
                    }
                    assert(vec@ =~= before);
                }
            }
        }
        offset = offset + 1;
    }
}

} // verus!
