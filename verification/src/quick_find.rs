//! The quick-find algorithm: every element stores the identifier of its
//! component, so a connectivity query is two reads, and a union rewrites the
//! identifier of one whole component.

use vstd::prelude::*;

verus! {

/// The operations of the quick-find algorithm.
pub trait QuickFind: Sized {
    /// The type of the identifier of elements.
    type Name;

    /// The representation invariant.
    spec fn wf(&self) -> bool;

    /// How many elements the structure tracks.
    spec fn size_spec(&self) -> nat;

    /// Whether `n` names an element.
    spec fn valid(&self, n: Self::Name) -> bool;

    /// Whether two elements are in one component.
    spec fn connected(&self, a: Self::Name, b: Self::Name) -> bool;

    /// What a size must satisfy before construction.
    spec fn new_requires(size: usize) -> bool;

    /// Create a new data structure without any connections.
    fn new(size: usize) -> (r: Self)
        requires
            Self::new_requires(size),
        ensures
            r.wf(),
            r.size_spec() == size,
            forall|a: Self::Name, b: Self::Name|
                r.valid(a) && r.valid(b) ==> (r.connected(a, b) <==> a == b),
    ;

    /// Test if two elements are connected.
    fn is_connected(&self, first: Self::Name, second: Self::Name) -> (r: bool)
        requires
            self.wf(),
            self.valid(first),
            self.valid(second),
        ensures
            r == self.connected(first, second),
    ;

    /// Connect two elements: afterwards two elements are in one component
    /// exactly when they already were, or when one lay with `first` and the
    /// other with `second`.
    fn connect(&mut self, first: Self::Name, second: Self::Name)
        requires
            old(self).wf(),
            old(self).valid(first),
            old(self).valid(second),
        ensures
            final(self).wf(),
            final(self).size_spec() == old(self).size_spec(),
            forall|n: Self::Name| final(self).valid(n) <==> old(self).valid(n),
            forall|a: Self::Name, b: Self::Name|
                old(self).valid(a) && old(self).valid(b) ==> (final(self).connected(a, b) <==> (old(
                    self,
                ).connected(a, b) || (old(self).connected(a, first) && old(self).connected(
                    b,
                    second,
                )) || (old(self).connected(a, second) && old(self).connected(b, first)))),
    ;
}

impl QuickFind for Vec<u32> {
    type Name = usize;

    open spec fn wf(&self) -> bool {
        true
    }

    open spec fn size_spec(&self) -> nat {
        self@.len()
    }

    open spec fn valid(&self, n: usize) -> bool {
        n < self@.len()
    }

    open spec fn connected(&self, a: usize, b: usize) -> bool {
        self@[a as int] == self@[b as int]
    }

    open spec fn new_requires(size: usize) -> bool {
        size <= u32::MAX
    }

    fn new(size: usize) -> (r: Self) {
        let mut vec: Vec<u32> = Vec::with_capacity(size);
        let mut i: usize = 0;
        while i < size
            invariant
                i <= size,
                size <= u32::MAX,
                vec@.len() == i,
                forall|k: int| 0 <= k < i ==> vec@[k] == k as u32,
            decreases size - i,
        {
            vec.push(i as u32);
            i = i + 1;
        }
        vec
    }

    fn is_connected(&self, first: usize, second: usize) -> (r: bool) {
        self[first] == self[second]
    }

    fn connect(&mut self, first: usize, second: usize) {
        let compound = self[first];
        let other_compound = self[second];
        let len = self.len();
        let mut i: usize = 0;
        while i < len
            invariant
                i <= len,
                len == self@.len(),
                self@.len() == old(self)@.len(),
                first < len,
                second < len,
                compound == old(self)@[first as int],
                other_compound == old(self)@[second as int],
                forall|k: int|
                    0 <= k < i ==> self@[k] == (if old(self)@[k] == other_compound {
                        compound
                    } else {
                        old(self)@[k]
                    }),
                forall|k: int| i <= k < len ==> self@[k] == old(self)@[k],
            decreases len - i,
        {
            if self[i] == other_compound {
                self[i] = compound;
            }
            i = i + 1;
        }
    }
}

} // verus!
