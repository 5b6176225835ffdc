//! Traits of indexed collections — a length and an element swap — with their
//! implementation for `Vec<i64>`, the collection the sorts in this crate
//! work on.

use vstd::prelude::*;

verus! {

/// Types that have a length.
pub trait Length {
    /// The abstract number of elements.
    spec fn len_spec(&self) -> nat;

    /// Returns the number of elements.
    fn length(&self) -> (r: usize)
        ensures
            r == self.len_spec(),
    ;
}

impl Length for Vec<i64> {
    open spec fn len_spec(&self) -> nat {
        self@.len()
    }

    fn length(&self) -> (r: usize)
        ensures
            r == self.len_spec(),
    {
        self.len()
    }
}

/// Types that can swap two of their elements.
pub trait Swap {
    /// The abstract contents.
    spec fn contents(&self) -> Seq<i64>;

    /// Swaps the elements at positions `a` and `b`.
    fn swap(&mut self, a: usize, b: usize)
        requires
            a < old(self).contents().len(),
            b < old(self).contents().len(),
        ensures
            final(self).contents() == old(self).contents().update(
                a as int,
                old(self).contents()[b as int],
            ).update(b as int, old(self).contents()[a as int]),
            final(self).contents().to_multiset() == old(self).contents().to_multiset(),
            final(self).contents().len() == old(self).contents().len(),
    ;
}

impl Swap for Vec<i64> {
    open spec fn contents(&self) -> Seq<i64> {
        self@
    }

    fn swap(&mut self, a: usize, b: usize)
        ensures
            final(self).contents() == old(self).contents().update(
                a as int,
                old(self).contents()[b as int],
            ).update(b as int, old(self).contents()[a as int]),
            final(self).contents().to_multiset() == old(self).contents().to_multiset(),
            final(self).contents().len() == old(self).contents().len(),
    {
        let va = self[a];
        let vb = self[b];
        self[a] = vb;
        self[b] = va;
        proof {
            crate::is_sorted::lemma_swap_multiset(old(self)@, a as int, b as int);
        }
    }
}

} // verus!
