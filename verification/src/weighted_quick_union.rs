//! Weighted quick-union: like quick-union, but each root remembers how many
//! elements hang under it, and a union always hangs the lighter tree under
//! the heavier root. The weights of the roots always add up to the number of
//! elements, which keeps the weight arithmetic in bounds.

use crate::quick_union::{
    can_reach_root, find_root, forest, lemma_link, root_of, rooted,
};
use vstd::prelude::*;

verus! {

/// The total weight of the roots among the first `k` elements.
pub open spec fn root_weight_sum(v: Seq<usize>, w: Seq<usize>, k: int) -> nat
    decreases k,
{
    if k <= 0 {
        0
    } else {
        root_weight_sum(v, w, k - 1) + if v[k - 1] == k - 1 {
            w[k - 1] as nat
        } else {
            0nat
        }
    }
}

/// When every element is its own root with weight one, the root weights add
/// up to the number of elements.
proof fn lemma_root_weight_sum_init(v: Seq<usize>, w: Seq<usize>, k: int)
    requires
        0 <= k <= v.len(),
        w.len() == v.len(),
        forall|i: int| 0 <= i < v.len() ==> v[i] == i,
        forall|i: int| 0 <= i < w.len() ==> w[i] == 1,
    ensures
        root_weight_sum(v, w, k) == k,
    decreases k,
{
    if k > 0 {
        lemma_root_weight_sum_init(v, w, k - 1);
    }
}

/// A single root's weight never exceeds the total weight of the roots.
proof fn lemma_root_weight_bound(v: Seq<usize>, w: Seq<usize>, r: int, k: int)
    requires
        0 <= r < k,
        v[r] == r,
    ensures
        w[r] <= root_weight_sum(v, w, k),
    decreases k,
{
    if r < k - 1 {
        lemma_root_weight_bound(v, w, r, k - 1);
    }
}

/// Two distinct roots' weights together never exceed the total weight of the
/// roots.
proof fn lemma_two_root_weights_bound(v: Seq<usize>, w: Seq<usize>, r1: int, r2: int, k: int)
    requires
        0 <= r1 < k,
        0 <= r2 < k,
        r1 != r2,
        v[r1] == r1,
        v[r2] == r2,
    ensures
        w[r1] + w[r2] <= root_weight_sum(v, w, k),
    decreases k,
{
    if r1 == k - 1 {
        lemma_root_weight_bound(v, w, r2, k - 1);
    } else if r2 == k - 1 {
        lemma_root_weight_bound(v, w, r1, k - 1);
    } else {
        lemma_two_root_weights_bound(v, w, r1, r2, k - 1);
    }
}

/// Turning the root `r2` into a child changes the total root weight by
/// exactly the loss of `r2`'s weight.
proof fn lemma_root_weight_sum_link(v: Seq<usize>, w: Seq<usize>, r1: int, r2: int, k: int)
    requires
        0 <= r2 < v.len(),
        0 <= r1 < v.len(),
        r1 <= usize::MAX,
        r1 != r2,
        v[r2] == r2,
        0 <= k <= v.len(),
        w.len() == v.len(),
    ensures
        root_weight_sum(v.update(r2, r1 as usize), w, k) == root_weight_sum(v, w, k) - (if r2 < k {
            w[r2] as nat
        } else {
            0nat
        }),
    decreases k,
{
    let v2 = v.update(r2, r1 as usize);
    if k > 0 {
        lemma_root_weight_sum_link(v, w, r1, r2, k - 1);
        assert(root_weight_sum(v2, w, k) == root_weight_sum(v2, w, k - 1) + (if v2[k - 1] == k - 1 {
            w[k - 1] as nat
        } else {
            0nat
        }));
        assert(root_weight_sum(v, w, k) == root_weight_sum(v, w, k - 1) + (if v[k - 1] == k - 1 {
            w[k - 1] as nat
        } else {
            0nat
        }));
        if k - 1 == r2 {
            assert(v2[k - 1] == r1 as usize);
        } else {
            assert(v2[k - 1] == v[k - 1]);
        }
    }
}

/// Changing one root's recorded weight changes the total root weight by the
/// difference.
proof fn lemma_root_weight_sum_reweigh(v: Seq<usize>, w: Seq<usize>, r: int, x: usize, k: int)
    requires
        0 <= r < v.len(),
        v[r] == r,
        0 <= k <= v.len(),
        w.len() == v.len(),
    ensures
        root_weight_sum(v, w.update(r, x), k) == root_weight_sum(v, w, k) - (if r < k {
            w[r] as nat
        } else {
            0nat
        }) + (if r < k {
            x as nat
        } else {
            0nat
        }),
    decreases k,
{
    let w2 = w.update(r, x);
    if k > 0 {
        lemma_root_weight_sum_reweigh(v, w, r, x, k - 1);
        assert(root_weight_sum(v, w2, k) == root_weight_sum(v, w2, k - 1) + (if v[k - 1] == k - 1 {
            w2[k - 1] as nat
        } else {
            0nat
        }));
        assert(root_weight_sum(v, w, k) == root_weight_sum(v, w, k - 1) + (if v[k - 1] == k - 1 {
            w[k - 1] as nat
        } else {
            0nat
        }));
        if k - 1 == r {
            assert(w2[k - 1] == x);
        } else {
            assert(w2[k - 1] == w[k - 1]);
        }
    }
}

/// The operations of the weighted quick-union algorithm.
pub trait WeightedQuickUnion: Sized {
    /// The type of the identifier of elements.
    type Name;

    /// The representation invariant.
    spec fn wf(&self) -> bool;

    /// How many elements the structure tracks.
    spec fn size_spec(&self) -> nat;

    /// Whether `n` names an element.
    spec fn valid(&self, n: Self::Name) -> bool;

    /// Whether two elements are in one component.
    spec fn connected(&self, a: Self::Name, b: Self::Name) -> bool;

    /// Create a new data structure without any connections.
    fn new(size: usize) -> (r: Self)
        ensures
            r.wf(),
            r.size_spec() == size,
            forall|a: Self::Name, b: Self::Name|
                r.valid(a) && r.valid(b) ==> (r.connected(a, b) <==> a == b),
    ;

    /// Test if two elements are connected.
    fn is_connected(&self, first: Self::Name, second: Self::Name) -> (r: bool)
        requires
            self.wf(),
            self.valid(first),
            self.valid(second),
        ensures
            r == self.connected(first, second),
    ;

    /// Connect two elements: afterwards two elements are in one component
    /// exactly when they already were, or when one lay with `first` and the
    /// other with `second`.
    fn connect(&mut self, first: Self::Name, second: Self::Name)
        requires
            old(self).wf(),
            old(self).valid(first),
            old(self).valid(second),
        ensures
            final(self).wf(),
            final(self).size_spec() == old(self).size_spec(),
            forall|n: Self::Name| final(self).valid(n) <==> old(self).valid(n),
            forall|a: Self::Name, b: Self::Name|
                old(self).valid(a) && old(self).valid(b) ==> (final(self).connected(a, b) <==> (old(
                    self,
                ).connected(a, b) || (old(self).connected(a, first) && old(self).connected(
                    b,
                    second,
                )) || (old(self).connected(a, second) && old(self).connected(b, first)))),
    ;
}

pub struct WQU {
    elems: Vec<usize>,
    weights: Vec<usize>,
}

/// A name is valid exactly when it lies below the structure's size.
pub proof fn lemma_wqu_valid(w: &WQU, n: usize)
    ensures
        w.valid(n) <==> n < w.size_spec(),
{
}

impl WeightedQuickUnion for WQU {
    type Name = usize;

    closed spec fn wf(&self) -> bool {
        &&& forest(self.elems@)
        &&& self.weights@.len() == self.elems@.len()
        &&& root_weight_sum(self.elems@, self.weights@, self.elems@.len() as int)
            == self.elems@.len()
    }

    closed spec fn size_spec(&self) -> nat {
        self.elems@.len()
    }

    closed spec fn valid(&self, n: usize) -> bool {
        n < self.elems@.len()
    }

    closed spec fn connected(&self, a: usize, b: usize) -> bool {
        root_of(self.elems@, a as int) == root_of(self.elems@, b as int)
    }

    fn new(size: usize) -> (r: Self) {
        let mut elems: Vec<usize> = Vec::with_capacity(size);
        let mut i: usize = 0;
        while i < size
            invariant
                i <= size,
                elems@.len() == i,
                forall|k: int| 0 <= k < i ==> elems@[k] == k as usize,
            decreases size - i,
        {
            elems.push(i);
            i = i + 1;
        }
        let weights: Vec<usize> = vec![1; size];
        let r = WQU { elems, weights };
        proof {
            lemma_root_weight_sum_init(r.elems@, r.weights@, size as int);
            assert forall|k: int| 0 <= k < r.elems@.len() implies #[trigger] can_reach_root(
                r.elems@,
                k,
            ) by {
                assert(rooted(r.elems@, k, 0nat));
            }
            assert forall|a: usize, b: usize| a < size && b < size implies (root_of(
                r.elems@,
                a as int,
            ) == root_of(r.elems@, b as int) <==> a == b) by {
                assert(rooted(r.elems@, a as int, 0nat));
                assert(rooted(r.elems@, b as int, 0nat));
                crate::quick_union::lemma_root_of_fuel_is_root_of(r.elems@, a as int, 0nat);
                crate::quick_union::lemma_root_of_fuel_is_root_of(r.elems@, b as int, 0nat);
            }
        }
        r
    }

    fn is_connected(&self, first: usize, second: usize) -> (r: bool) {
        let ghost f1: nat = choose|fuel: nat| rooted(self.elems@, first as int, fuel);
        let ghost f2: nat = choose|fuel: nat| rooted(self.elems@, second as int, fuel);
        proof {
            assert(can_reach_root(self.elems@, first as int));
            assert(can_reach_root(self.elems@, second as int));
        }
        find_root(&self.elems, first, Ghost(f1)) == find_root(&self.elems, second, Ghost(f2))
    }

    fn connect(&mut self, first: usize, second: usize) {
        let ghost v = self.elems@;
        let ghost wts = self.weights@;
        let ghost n = self.elems@.len() as int;
        let ghost f1: nat = choose|fuel: nat| rooted(v, first as int, fuel);
        let ghost f2: nat = choose|fuel: nat| rooted(v, second as int, fuel);
        proof {
            assert(can_reach_root(v, first as int));
            assert(can_reach_root(v, second as int));
        }
        let first_root = find_root(&self.elems, first, Ghost(f1));
        let second_root = find_root(&self.elems, second, Ghost(f2));
        if first_root != second_root {
            let element_count = self.elems.len();
            proof {
                lemma_two_root_weights_bound(v, wts, first_root as int, second_root as int, n);
                assert(wts[first_root as int] + wts[second_root as int] <= element_count);
            }
            let first_tree_weight = self.weights[first_root];
            let second_tree_weight = self.weights[second_root];
            let combined = first_tree_weight + second_tree_weight;
            if first_tree_weight < second_tree_weight {
                proof {
                    lemma_link(v, second_root as int, first_root as int);
                    lemma_root_weight_sum_link(v, wts, second_root as int, first_root as int, n);
                    lemma_root_weight_sum_reweigh(
                        v.update(first_root as int, second_root),
                        wts,
                        second_root as int,
                        combined,
                        n,
                    );
                }
                self.elems[first_root] = second_root;
                self.weights[second_root] = combined;
            } else {
                proof {
                    lemma_link(v, first_root as int, second_root as int);
                    lemma_root_weight_sum_link(v, wts, first_root as int, second_root as int, n);
                    lemma_root_weight_sum_reweigh(
                        v.update(second_root as int, first_root),
                        wts,
                        first_root as int,
                        combined,
                        n,
                    );
                }
                self.elems[second_root] = first_root;
                self.weights[first_root] = combined;
            }
        } else {
            proof {
                assert(self.elems@ =~= v);
            }
        }
    }
}

} // verus!
