//! What it means for a sequence of keys to be sorted, an executable check
//! for it, and the small multiset facts the sorting algorithms share.

use vstd::prelude::*;
use vstd::seq_lib::group_to_multiset_ensures;
use vstd::seq_lib::lemma_multiset_commutative;

verus! {

/// Nondecreasing from left to right.
pub open spec fn sorted(s: Seq<i64>) -> bool {
    forall|a: int, b: int| 0 <= a <= b < s.len() ==> s[a] <= s[b]
}

/// Whether the vector's contents are nondecreasing.
pub fn is_sorted(vec: &Vec<i64>) -> (r: bool)
    ensures
        r == sorted(vec@),
{
    let len = vec.len();
    if len > 1 {
        let mut i: usize = 0;
        while i < len - 1
            invariant
                len == vec@.len(),
                len > 1,
                i <= len - 1,
                forall|a: int, b: int| 0 <= a <= b <= i ==> vec@[a] <= vec@[b],
            decreases len - i,
        {
            if vec[i] > vec[i + 1] {
                return false;
            }
            i = i + 1;
        }
    }
    true
}

/// Swapping two positions of a sequence leaves its multiset of elements
/// unchanged.
pub proof fn lemma_swap_multiset(s: Seq<i64>, a: int, b: int)
    ensures
        0 <= a < s.len() && 0 <= b < s.len() ==> s.update(a, s[b]).update(
            b,
            s[a],
        ).to_multiset() == s.to_multiset(),
{
    broadcast use group_to_multiset_ensures;

    if 0 <= a < s.len() && 0 <= b < s.len() {
        let s1 = s.update(a, s[b]);
        let s2 = s1.update(b, s[a]);
        assert(s1.to_multiset() == s.to_multiset().insert(s[b]).remove(s[a]));
        assert(s2.to_multiset() == s1.to_multiset().insert(s[a]).remove(s1[b]));
        if a == b {
            assert(s2.to_multiset() =~= s.to_multiset());
        } else {
            assert(s1[b] == s[b]);
            assert(s2.to_multiset() =~= s.to_multiset());
        }
    }
}

/// Two sequences with the same multiset of elements have the same members.
pub proof fn lemma_same_multiset_same_members(s1: Seq<i64>, s2: Seq<i64>)
    requires
        s1.to_multiset() == s2.to_multiset(),
    ensures
        forall|x: i64| s1.contains(x) <==> s2.contains(x),
{
    broadcast use group_to_multiset_ensures;

    assert forall|x: i64| s1.contains(x) <==> s2.contains(x) by {
        assert(s1.contains(x) <==> s1.to_multiset().count(x) > 0);
        assert(s2.contains(x) <==> s2.to_multiset().count(x) > 0);
    }
}

/// When two sequences of one length agree outside a window and hold the same
/// elements overall, the windows hold the same elements as well.
pub proof fn lemma_frame_multiset(s1: Seq<i64>, s2: Seq<i64>, lo: int, hi: int)
    requires
        s1.len() == s2.len(),
        0 <= lo <= hi <= s1.len(),
        forall|i: int| 0 <= i < s1.len() && !(lo <= i < hi) ==> s1[i] == s2[i],
        s1.to_multiset() == s2.to_multiset(),
    ensures
        s1.subrange(lo, hi).to_multiset() == s2.subrange(lo, hi).to_multiset(),
{
    broadcast use vstd::multiset::group_multiset_axioms;

    let len = s1.len() as int;
    let a1 = s1.subrange(0, lo);
    let m1 = s1.subrange(lo, hi);
    let z1 = s1.subrange(hi, len);
    let a2 = s2.subrange(0, lo);
    let m2 = s2.subrange(lo, hi);
    let z2 = s2.subrange(hi, len);
    assert(a1 =~= a2);
    assert(z1 =~= z2);
    assert(s1 =~= a1 + m1 + z1);
    assert(s2 =~= a2 + m2 + z2);
    lemma_multiset_commutative(a1 + m1, z1);
    lemma_multiset_commutative(a1, m1);
    lemma_multiset_commutative(a2 + m2, z2);
    lemma_multiset_commutative(a2, m2);
    assert(a1.to_multiset().add(m1.to_multiset()).add(z1.to_multiset()) == a2.to_multiset().add(
        m2.to_multiset(),
    ).add(z2.to_multiset()));
    assert forall|x: i64| m1.to_multiset().count(x) == m2.to_multiset().count(x) by {
        assert(a1.to_multiset().add(m1.to_multiset()).add(z1.to_multiset()).count(x)
            == a1.to_multiset().count(x) + m1.to_multiset().count(x) + z1.to_multiset().count(x));
        assert(a2.to_multiset().add(m2.to_multiset()).add(z2.to_multiset()).count(x)
            == a2.to_multiset().count(x) + m2.to_multiset().count(x) + z2.to_multiset().count(x));
    }
    assert(m1.to_multiset() =~= m2.to_multiset());
}

/// When two sequences of one length agree outside a window and their windows
/// hold the same elements, the sequences hold the same elements overall.
pub proof fn lemma_frame_multiset_whole(s1: Seq<i64>, s2: Seq<i64>, lo: int, hi: int)
    requires
        s1.len() == s2.len(),
        0 <= lo <= hi <= s1.len(),
        forall|i: int| 0 <= i < s1.len() && !(lo <= i < hi) ==> s1[i] == s2[i],
        s1.subrange(lo, hi).to_multiset() == s2.subrange(lo, hi).to_multiset(),
    ensures
        s1.to_multiset() == s2.to_multiset(),
{
    broadcast use vstd::multiset::group_multiset_axioms;

    let len = s1.len() as int;
    let a1 = s1.subrange(0, lo);
    let m1 = s1.subrange(lo, hi);
    let z1 = s1.subrange(hi, len);
    let a2 = s2.subrange(0, lo);
    let m2 = s2.subrange(lo, hi);
    let z2 = s2.subrange(hi, len);
    assert(a1 =~= a2);
    assert(z1 =~= z2);
    assert(s1 =~= a1 + m1 + z1);
    assert(s2 =~= a2 + m2 + z2);
    lemma_multiset_commutative(a1 + m1, z1);
    lemma_multiset_commutative(a1, m1);
    lemma_multiset_commutative(a2 + m2, z2);
    lemma_multiset_commutative(a2, m2);
    assert(s1.to_multiset() =~= s2.to_multiset());
}

/// An upper bound on every element survives any rearrangement.
pub proof fn lemma_all_le_after_permutation(s1: Seq<i64>, s2: Seq<i64>, x: i64)
    requires
        s1.to_multiset() == s2.to_multiset(),
        forall|p: int| 0 <= p < s1.len() ==> s1[p] <= x,
    ensures
        forall|p: int| 0 <= p < s2.len() ==> s2[p] <= x,
{
    lemma_same_multiset_same_members(s1, s2);
    assert forall|p: int| 0 <= p < s2.len() implies s2[p] <= x by {
        assert(s2.contains(s2[p]));
        assert(s1.contains(s2[p]));
        let q = choose|q: int| 0 <= q < s1.len() && s1[q] == s2[p];
        assert(s1[q] <= x);
    }
}

/// A lower bound on every element survives any rearrangement.
pub proof fn lemma_all_ge_after_permutation(s1: Seq<i64>, s2: Seq<i64>, x: i64)
    requires
        s1.to_multiset() == s2.to_multiset(),
        forall|p: int| 0 <= p < s1.len() ==> s1[p] >= x,
    ensures
        forall|p: int| 0 <= p < s2.len() ==> s2[p] >= x,
{
    lemma_same_multiset_same_members(s1, s2);
    assert forall|p: int| 0 <= p < s2.len() implies s2[p] >= x by {
        assert(s2.contains(s2[p]));
        assert(s1.contains(s2[p]));
        let q = choose|q: int| 0 <= q < s1.len() && s1[q] == s2[p];
        assert(s1[q] >= x);
    }
}

/// A sorted sequence is determined by its multiset of elements; two sorted
/// arrangements of the same elements are the same sequence.
pub proof fn lemma_sorted_same_multiset_equal(s1: Seq<i64>, s2: Seq<i64>)
    requires
        sorted(s1),
        sorted(s2),
        s1.to_multiset() == s2.to_multiset(),
    ensures
        s1 == s2,
    decreases s1.len(),
{
    broadcast use group_to_multiset_ensures;

    if s1.len() == 0 {
        assert(s2.to_multiset().len() == 0);
        assert(s1 =~= s2);
    } else {
        assert(s1.to_multiset().len() == s1.len());
        assert(s2.to_multiset().len() == s2.len());
        assert(s2.len() == s1.len());
        assert(s1.contains(s1[0]));
        assert(s1.to_multiset().count(s1[0]) > 0);
        assert(s2.to_multiset().count(s1[0]) > 0);
        assert(s2.contains(s1[0]));
        let j = choose|j: int| 0 <= j < s2.len() && s2[j] == s1[0];
        assert(s2[0] <= s2[j]);
        assert(s2.contains(s2[0]));
        assert(s2.to_multiset().count(s2[0]) > 0);
        assert(s1.to_multiset().count(s2[0]) > 0);
        assert(s1.contains(s2[0]));
        let i = choose|i: int| 0 <= i < s1.len() && s1[i] == s2[0];
        assert(s1[0] <= s1[i]);
        assert(s1[0] == s2[0]);
        let t1 = s1.drop_first();
        let t2 = s2.drop_first();
        assert(s1 =~= seq![s1[0]] + t1);
        assert(s2 =~= seq![s2[0]] + t2);
        lemma_multiset_commutative(seq![s1[0]], t1);
        lemma_multiset_commutative(seq![s2[0]], t2);
        assert forall|x: i64| t1.to_multiset().count(x) == t2.to_multiset().count(x) by {
            assert(s1.to_multiset().count(x) == seq![s1[0]].to_multiset().count(x)
                + t1.to_multiset().count(x));
            assert(s2.to_multiset().count(x) == seq![s2[0]].to_multiset().count(x)
                + t2.to_multiset().count(x));
        }
        assert(t1.to_multiset() =~= t2.to_multiset());
        lemma_sorted_same_multiset_equal(t1, t2);
        assert forall|k: int| 0 <= k < s1.len() implies s1[k] == s2[k] by {
            if k > 0 {
                assert(t1[k - 1] == t2[k - 1]);
            }
        }
        assert(s1 =~= s2);
    }
}

} // verus!
