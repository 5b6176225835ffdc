//! A maximum priority queue as a binary heap laid out in a vector: the
//! children of position `k` sit at `2k+1` and `2k+2`, and every parent is at
//! least as large as its children. Insertion swims the new element up,
//! deletion swaps the root out and sinks the replacement down, and repeated
//! root removal in place sorts the vector.

use crate::index_ops::Swap;
use crate::is_sorted::{lemma_all_le_after_permutation, lemma_frame_multiset, sorted};
use vstd::prelude::*;
use vstd::seq_lib::group_to_multiset_ensures;

verus! {

/// The parent position of `k`, for `k >= 1`.
pub open spec fn parent_idx(k: int) -> int {
    (k + 1) / 2 - 1
}

/// Heap order among the first `size` positions, for the edges whose parent
/// lies at or after `lo`.
pub open spec fn heap_from(s: Seq<i64>, lo: int, size: int) -> bool {
    forall|j: int| 1 <= j < size && parent_idx(j) >= lo ==> s[parent_idx(j)] >= #[trigger] s[j]
}

/// Heap order among the first `size` positions.
pub open spec fn is_heap_upto(s: Seq<i64>, size: int) -> bool {
    heap_from(s, 0, size)
}

/// The whole sequence is a heap.
pub open spec fn is_heap(s: Seq<i64>) -> bool {
    is_heap_upto(s, s.len() as int)
}

/// In a heap the root is the largest of the first `size` elements.
pub proof fn lemma_heap_root_max(s: Seq<i64>, size: int, j: int)
    requires
        is_heap_upto(s, size),
        0 <= j < size <= s.len(),
    ensures
        s[0] >= s[j],
    decreases j,
{
    if j > 0 {
        assert(0 <= parent_idx(j) < j);
        assert(s[parent_idx(j)] >= s[j]);
        lemma_heap_root_max(s, size, parent_idx(j));
    }
}

/// The parent position of `k`: in a heap laid out from position zero, the
/// children of `p` sit at `2p+1` and `2p+2`.
fn parent(k: usize) -> (r: usize)
    requires
        1 <= k < usize::MAX,
    ensures
        r == parent_idx(k as int),
        r < k,
{
    ((k + 1) / 2) - 1
}

/// The two child positions of `k`.
fn children(k: usize) -> (r: (usize, usize))
    requires
        (k + 1) * 2 <= usize::MAX,
    ensures
        r.0 == 2 * k + 1,
        r.1 == 2 * k + 2,
        parent_idx(r.0 as int) == k,
        parent_idx(r.1 as int) == k,
{
    (((k + 1) * 2) - 1, ((k + 1) * 2) - 1 + 1)
}

/// Move the element at `k` up toward the root until its parent is at least
/// as large. On a vector that is a heap everywhere except possibly on the
/// edges touching `k`, this restores the heap; the elements are only
/// rearranged.
fn swim(vec: &mut Vec<i64>, k: usize)
    requires
        k < old(vec)@.len(),
        forall|j: int|
            1 <= j < old(vec)@.len() && j != k ==> old(vec)@[parent_idx(j)] >= #[trigger] old(
                vec,
            )@[j],
        forall|j: int|
            1 <= j < old(vec)@.len() && parent_idx(j) == k && k >= 1 ==> old(vec)@[parent_idx(
                k as int,
            )] >= #[trigger] old(vec)@[j],
    ensures
        is_heap(final(vec)@),
        final(vec)@.to_multiset() == old(vec)@.to_multiset(),
        final(vec)@.len() == old(vec)@.len(),
{
    let total = vec.len();
    let mut i: usize = k;
    while i > 0 && vec[parent(i)] < vec[i]
        invariant
            total == vec@.len(),
            i < vec@.len(),
            vec@.len() == old(vec)@.len(),
            vec@.to_multiset() == old(vec)@.to_multiset(),
            forall|j: int|
                1 <= j < vec@.len() && j != i ==> vec@[parent_idx(j)] >= #[trigger] vec@[j],
            forall|j: int|
                1 <= j < vec@.len() && parent_idx(j) == i && i >= 1 ==> vec@[parent_idx(i as int)]
                    >= #[trigger] vec@[j],
        decreases i,
    {
        let p = parent(i);
        Swap::swap(vec, p, i);
        i = p;
    }
}

/// Move the element at `k` down, within the first `size` positions, swapping
/// it with its larger child until both children are no larger. On a vector
/// whose first `size` positions are in heap order on every edge below `k`,
/// this extends the heap order to the edges out of `k`; nothing outside
/// `k .. size` moves, and the elements are only rearranged.
fn sink_with_size(vec: &mut Vec<i64>, k: usize, size: usize)
    requires
        size <= old(vec)@.len(),
        heap_from(old(vec)@, k as int + 1, size as int),
        k <= size,
    ensures
        final(vec)@.len() == old(vec)@.len(),
        final(vec)@.to_multiset() == old(vec)@.to_multiset(),
        forall|p: int| 0 <= p < old(vec)@.len() && !(k <= p < size) ==> final(vec)@[p] == old(
            vec,
        )@[p],
        heap_from(final(vec)@, k as int, size as int),
{
    let mut i: usize = k;
    while i < size / 2
        invariant
            k <= i,
            i <= size,
            size <= vec@.len(),
            vec@.len() == old(vec)@.len(),
            vec@.to_multiset() == old(vec)@.to_multiset(),
            forall|p: int| 0 <= p < vec@.len() && !(k <= p < size) ==> vec@[p] == old(vec)@[p],
            forall|j: int|
                1 <= j < size && parent_idx(j) >= k && parent_idx(j) != i ==> vec@[parent_idx(j)]
                    >= #[trigger] vec@[j],
            i > k ==> vec@[parent_idx(i as int)] >= vec@[i as int],
            forall|j: int|
                1 <= j < size && parent_idx(j) == i && i > k ==> vec@[parent_idx(i as int)]
                    >= #[trigger] vec@[j],
        decreases size - i,
    {
        let (child1, child2) = children(i);
        let chosen_child = if child2 < size && vec[child1] < vec[child2] {
            child2
        } else {
            child1
        };
        if vec[i] >= vec[chosen_child] {
            return ;
        }
        Swap::swap(vec, i, chosen_child);
        i = chosen_child;
    }
}

/// Move the element at `k` down through the whole vector.
pub fn sink(vec: &mut Vec<i64>, k: usize)
    requires
        heap_from(old(vec)@, k as int + 1, old(vec)@.len() as int),
        k <= old(vec)@.len(),
    ensures
        final(vec)@.len() == old(vec)@.len(),
        final(vec)@.to_multiset() == old(vec)@.to_multiset(),
        forall|p: int| 0 <= p < old(vec)@.len() && p < k ==> final(vec)@[p] == old(vec)@[p],
        heap_from(final(vec)@, k as int, final(vec)@.len() as int),
{
    let size = vec.len();
    sink_with_size(vec, k, size);
}

/// Reorder the vector into a heap by sinking every position that has a
/// child, from the last of them up to the root; the elements are only
/// rearranged.
pub fn make_heap(vec: &mut Vec<i64>)
    ensures
        is_heap(final(vec)@),
        final(vec)@.to_multiset() == old(vec)@.to_multiset(),
        final(vec)@.len() == old(vec)@.len(),
{
    let size = vec.len();
    let mut k = size / 2 + size % 2;
    while k > 0
        invariant
            k <= size / 2 + size % 2,
            size == vec@.len(),
            vec@.len() == old(vec)@.len(),
            vec@.to_multiset() == old(vec)@.to_multiset(),
            heap_from(vec@, k as int, size as int),
        decreases k,
    {
        k = k - 1;
        sink(vec, k);
    }
}

/// Sort a heap in place: repeatedly swap the root — the largest remaining
/// element — behind the shrinking heap and sink its replacement. The result
/// is nondecreasing and holds exactly the elements the vector held before.
pub fn heap_sort(vec: &mut Vec<i64>)
    requires
        is_heap(old(vec)@),
    ensures
        sorted(final(vec)@),
        final(vec)@.to_multiset() == old(vec)@.to_multiset(),
        final(vec)@.len() == old(vec)@.len(),
{
    let size = vec.len();
    let mut k = size;
    while k > 1
        invariant
            k <= size,
            size == vec@.len(),
            vec@.len() == old(vec)@.len(),
            vec@.to_multiset() == old(vec)@.to_multiset(),
            is_heap_upto(vec@, k as int),
            forall|a: int, b: int|
                #![trigger vec@[a], vec@[b]]
                k <= a <= b < size ==> vec@[a] <= vec@[b],
            forall|a: int, b: int|
                #![trigger vec@[a], vec@[b]]
                0 <= a < k <= b < size ==> vec@[a] <= vec@[b],
        decreases k,
    {
        k = k - 1;
        let ghost s0 = vec@;
        proof {
            assert forall|j: int| 0 <= j < k + 1 implies s0[0] >= #[trigger] s0[j] by {
                lemma_heap_root_max(s0, k + 1, j);
            }
        }
        Swap::swap(vec, 0, k);
        let ghost s1 = vec@;
        sink_with_size(vec, 0, k);
        proof {
            lemma_frame_multiset(s1, vec@, 0, k as int);
            assert forall|p: int| 0 <= p < k implies s1.subrange(0, k as int)[p]
                <= s1[k as int] by {
                assert(s1.subrange(0, k as int)[p] == s1[p]);
            }
            lemma_all_le_after_permutation(
                s1.subrange(0, k as int),
                vec@.subrange(0, k as int),
                s1[k as int],
            );
            assert forall|a: int| 0 <= a < k implies vec@[a] <= s1[k as int] by {
                assert(vec@.subrange(0, k as int)[a] == vec@[a]);
                assert(vec@.subrange(0, k as int)[a] <= s1[k as int]);
            }
            assert forall|a: int, b: int|
                #![trigger vec@[a], vec@[b]]
                0 <= a < k <= b < size implies vec@[a] <= vec@[b] by {
                assert(vec@[b] == s1[b]);
                assert(s1[k as int] <= s1[b]);
            }
        }
    }
}

/// A maximum priority queue.
pub trait MaxPQ {
    type Item;

    /// The representation invariant.
    spec fn pq_wf(&self) -> bool;

    /// The stored items, in storage order.
    spec fn items(&self) -> Seq<Self::Item>;

    /// The order the queue ranks items by.
    spec fn le_spec(a: Self::Item, b: Self::Item) -> bool;

    /// Add an item.
    fn heap_insert(&mut self, item: Self::Item)
        requires
            old(self).pq_wf(),
        ensures
            final(self).pq_wf(),
            final(self).items().to_multiset() == old(self).items().to_multiset().insert(item),
    ;

    /// Remove and return a largest item, or `None` when the queue is empty.
    fn del_max(&mut self) -> (r: Option<Self::Item>)
        requires
            old(self).pq_wf(),
        ensures
            final(self).pq_wf(),
            old(self).items().len() == 0 ==> r is None && final(self).items() == old(self).items(),
            old(self).items().len() > 0 ==> (r matches Some(x) && old(self).items().contains(x) && (
            forall|i: int|
                0 <= i < old(self).items().len() ==> Self::le_spec(
                    #[trigger] old(self).items()[i],
                    x,
                )) && final(self).items().to_multiset() == old(self).items().to_multiset().remove(
                x,
            )),
    ;

    /// Whether the queue holds nothing.
    fn is_empty(&self) -> (r: bool)
        ensures
            r == (self.items().len() == 0),
    ;

    /// How many items the queue holds.
    fn size(&self) -> (r: usize)
        ensures
            r == self.items().len(),
    ;
}

impl MaxPQ for Vec<i64> {
    type Item = i64;

    open spec fn pq_wf(&self) -> bool {
        is_heap(self@)
    }

    open spec fn items(&self) -> Seq<i64> {
        self@
    }

    open spec fn le_spec(a: i64, b: i64) -> bool {
        a <= b
    }

    fn heap_insert(&mut self, item: i64) {
        broadcast use group_to_multiset_ensures;

        self.push(item);
        let size = self.len();
        swim(self, size - 1);
    }

    fn del_max(&mut self) -> (r: Option<i64>) {
        broadcast use group_to_multiset_ensures;

        let size = self.len();
        if size <= 1 {
            let r = self.pop();
            proof {
                if old(self)@.len() > 0 {
                    assert(old(self)@.subrange(0, 0) =~= final(self)@);
                    assert(old(self)@.remove(0) =~= old(self)@.subrange(0, 0));
                    assert(final(self)@.to_multiset() == old(self)@.to_multiset().remove(
                        old(self)@[0],
                    ));
                    lemma_heap_root_max(old(self)@, old(self)@.len() as int, 0);
                }
            }
            r
        } else {
            proof {
                assert forall|j: int| 0 <= j < old(self)@.len() implies old(self)@[0]
                    >= #[trigger] old(self)@[j] by {
                    lemma_heap_root_max(old(self)@, old(self)@.len() as int, j);
                }
            }
            Swap::swap(self, 0, size - 1);
            let ghost s1 = self@;
            let rslt = self.pop();
            proof {
                assert(self@ =~= s1.remove(s1.len() - 1));
                assert(self@.to_multiset() == s1.to_multiset().remove(s1[s1.len() - 1]));
            }
            sink(self, 0);
            rslt
        }
    }

    fn is_empty(&self) -> (r: bool) {
        self.len() == 0
    }

    fn size(&self) -> (r: usize) {
        self.len()
    }
}

} // verus!
