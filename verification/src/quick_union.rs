//! The quick-union algorithm: every element stores a parent, roots store
//! themselves, and two elements are in one component exactly when following
//! parents from each reaches the same root.

use vstd::prelude::*;

verus! {

/// Following parents from `i` reaches a root within `fuel` steps.
pub open spec fn rooted(v: Seq<usize>, i: int, fuel: nat) -> bool
    decreases fuel,
{
    &&& 0 <= i < v.len()
    &&& (v[i] == i || (fuel > 0 && rooted(v, v[i] as int, (fuel - 1) as nat)))
}

/// The root that following parents from `i` reaches within `fuel` steps;
/// when the fuel runs out the current element is handed back.
pub open spec fn root_of_fuel(v: Seq<usize>, i: int, fuel: nat) -> int
    decreases fuel,
{
    if 0 <= i < v.len() {
        if v[i] == i {
            i
        } else if fuel > 0 {
            root_of_fuel(v, v[i] as int, (fuel - 1) as nat)
        } else {
            i
        }
    } else {
        i
    }
}

/// Some number of steps takes `i` to a root.
pub open spec fn can_reach_root(v: Seq<usize>, i: int) -> bool {
    exists|fuel: nat| rooted(v, i, fuel)
}

/// A parent forest: every element reaches a root in finitely many steps.
pub open spec fn forest(v: Seq<usize>) -> bool {
    forall|i: int| 0 <= i < v.len() ==> #[trigger] can_reach_root(v, i)
}

/// Some number of steps that takes `i` to its root.
pub open spec fn steps_of(v: Seq<usize>, i: int) -> nat {
    choose|fuel: nat| rooted(v, i, fuel)
}

/// The root of the component of `i`.
pub open spec fn root_of(v: Seq<usize>, i: int) -> int {
    root_of_fuel(v, i, steps_of(v, i))
}

/// Any amount of fuel that suffices to reach the root finds the same root.
pub proof fn lemma_root_fuel_irrelevant(v: Seq<usize>, i: int, f1: nat, f2: nat)
    requires
        rooted(v, i, f1),
        rooted(v, i, f2),
    ensures
        root_of_fuel(v, i, f1) == root_of_fuel(v, i, f2),
    decreases f1,
{
    if v[i] != i {
        lemma_root_fuel_irrelevant(v, (v[i]) as int, (f1 - 1) as nat, (f2 - 1) as nat);
    }
}

/// On a forest, the root found with any sufficient fuel is the root.
pub proof fn lemma_root_of_fuel_is_root_of(v: Seq<usize>, i: int, fuel: nat)
    requires
        rooted(v, i, fuel),
    ensures
        root_of(v, i) == root_of_fuel(v, i, fuel),
        rooted(v, i, steps_of(v, i)),
{
    let s = steps_of(v, i);
    assert(rooted(v, i, s)) by {
        assert(can_reach_root(v, i));
    }
    lemma_root_fuel_irrelevant(v, i, fuel, s);
}

/// The root is in range, is a fixed point, and is its own root.
pub proof fn lemma_root_properties(v: Seq<usize>, i: int, fuel: nat)
    requires
        rooted(v, i, fuel),
    ensures
        ({
            let r = root_of_fuel(v, i, fuel);
            &&& 0 <= r < v.len()
            &&& v[r] == r
        }),
    decreases fuel,
{
    if v[i] != i {
        lemma_root_properties(v, (v[i]) as int, (fuel - 1) as nat);
    }
}

/// Linking the root `r2` under the root `r1` rewrites every root that was
/// `r2` to `r1` and leaves every other root alone.
proof fn lemma_link_one(v: Seq<usize>, r1: int, r2: int, i: int, fuel: nat)
    requires
        rooted(v, i, fuel),
        0 <= r1 < v.len(),
        0 <= r2 < v.len(),
        v[r1] == r1,
        v[r2] == r2,
        r1 != r2,
    ensures
        ({
            let w = v.update(r2, r1 as usize);
            &&& rooted(w, i, fuel + 1)
            &&& root_of_fuel(w, i, (fuel + 1) as nat) == (if root_of_fuel(v, i, fuel) == r2 {
                r1
            } else {
                root_of_fuel(v, i, fuel)
            })
        }),
    decreases fuel,
{
    let w = v.update(r2, r1 as usize);
    if v[i] == i {
        assert(root_of_fuel(v, i, fuel) == i);
        if i == r2 {
            assert(w[r2] == r1);
            assert(w[r1] == r1);
            assert(rooted(w, r1, fuel));
            assert(rooted(w, i, fuel + 1));
            assert(root_of_fuel(w, r1 as int, fuel) == r1);
            assert(root_of_fuel(w, i, (fuel + 1) as nat) == root_of_fuel(w, r1 as int, fuel));
        } else {
            assert(w[i] == i);
            assert(rooted(w, i, fuel + 1));
            assert(root_of_fuel(w, i, (fuel + 1) as nat) == i);
        }
    } else {
        assert(i != r2);
        assert(w[i] == v[i]);
        assert(fuel > 0);
        lemma_link_one(v, r1, r2, (v[i]) as int, (fuel - 1) as nat);
        assert(rooted(w, (v[i]) as int, ((fuel - 1) as nat) + 1));
        assert(rooted(w, i, fuel + 1));
        assert(root_of_fuel(w, i, (fuel + 1) as nat) == root_of_fuel(w, (w[i]) as int, fuel));
        assert(root_of_fuel(v, i, fuel) == root_of_fuel(v, (v[i]) as int, (fuel - 1) as nat));
    }
}

/// Linking one root under another keeps the structure a forest and merges
/// exactly the two components.
pub proof fn lemma_link(v: Seq<usize>, r1: int, r2: int)
    requires
        forest(v),
        0 <= r1 < v.len(),
        0 <= r2 < v.len(),
        v[r1] == r1,
        v[r2] == r2,
        r1 != r2,
    ensures
        ({
            let w = v.update(r2, r1 as usize);
            &&& forest(w)
            &&& forall|i: int|
                0 <= i < v.len() ==> #[trigger] root_of(w, i) == (if root_of(v, i) == r2 {
                    r1
                } else {
                    root_of(v, i)
                })
        }),
{
    let w = v.update(r2, r1 as usize);
    assert forall|i: int| 0 <= i < w.len() implies #[trigger] can_reach_root(w, i) by {
        assert(can_reach_root(v, i));
        let f = choose|fuel: nat| rooted(v, i, fuel);
        lemma_link_one(v, r1, r2, i, f);
        assert(rooted(w, i, f + 1));
    }
    assert forall|i: int| 0 <= i < v.len() implies #[trigger] root_of(w, i) == (if root_of(v, i)
        == r2 {
        r1
    } else {
        root_of(v, i)
    }) by {
        assert(can_reach_root(v, i));
        let f = choose|fuel: nat| rooted(v, i, fuel);
        lemma_link_one(v, r1, r2, i, f);
        lemma_root_of_fuel_is_root_of(v, i, f);
        lemma_root_of_fuel_is_root_of(w, i, (f + 1) as nat);
    }
}

/// Follow parents until reaching an element that is its own parent.
/// Relied on by both union-find variants that store parent vectors.
pub(crate) fn find_root(vec: &Vec<usize>, elem: usize, Ghost(fuel): Ghost<nat>) -> (r: usize)
    requires
        rooted(vec@, elem as int, fuel),
    ensures
        r == root_of(vec@, elem as int),
        vec@[r as int] == r,
        r < vec@.len(),
    decreases fuel,
{
    proof {
        lemma_root_of_fuel_is_root_of(vec@, elem as int, fuel);
        lemma_root_properties(vec@, elem as int, fuel);
    }
    if vec[elem] == elem {
        elem
    } else {
        let next = vec[elem];
        proof {
            assert(rooted(vec@, next as int, (fuel - 1) as nat));
            lemma_root_of_fuel_is_root_of(vec@, next as int, (fuel - 1) as nat);
            assert(root_of_fuel(vec@, elem as int, fuel) == root_of_fuel(
                vec@,
                next as int,
                (fuel - 1) as nat,
            ));
        }
        find_root(vec, next, Ghost((fuel - 1) as nat))
    }
}

/// The operations of the quick-union algorithm.
pub trait QuickUnion: Sized {
    /// The type of the identifier of elements.
    type Name;

    /// The representation invariant.
    spec fn wf(&self) -> bool;

    /// How many elements the structure tracks.
    spec fn size_spec(&self) -> nat;

    /// Whether `n` names an element.
    spec fn valid(&self, n: Self::Name) -> bool;

    /// Whether two elements are in one component.
    spec fn connected(&self, a: Self::Name, b: Self::Name) -> bool;

    /// Create a new data structure without any connections.
    fn new(size: usize) -> (r: Self)
        ensures
            r.wf(),
            r.size_spec() == size,
            forall|a: Self::Name, b: Self::Name|
                r.valid(a) && r.valid(b) ==> (r.connected(a, b) <==> a == b),
    ;

    /// Test if two elements are connected.
    fn is_connected(&self, first: Self::Name, second: Self::Name) -> (r: bool)
        requires
            self.wf(),
            self.valid(first),
            self.valid(second),
        ensures
            r == self.connected(first, second),
    ;

    /// Connect two elements: afterwards two elements are in one component
    /// exactly when they already were, or when one lay with `first` and the
    /// other with `second`.
    fn connect(&mut self, first: Self::Name, second: Self::Name)
        requires
            old(self).wf(),
            old(self).valid(first),
            old(self).valid(second),
        ensures
            final(self).wf(),
            final(self).size_spec() == old(self).size_spec(),
            forall|n: Self::Name| final(self).valid(n) <==> old(self).valid(n),
            forall|a: Self::Name, b: Self::Name|
                old(self).valid(a) && old(self).valid(b) ==> (final(self).connected(a, b) <==> (old(
                    self,
                ).connected(a, b) || (old(self).connected(a, first) && old(self).connected(
                    b,
                    second,
                )) || (old(self).connected(a, second) && old(self).connected(b, first)))),
    ;
}

impl QuickUnion for Vec<usize> {
    type Name = usize;

    open spec fn wf(&self) -> bool {
        forest(self@)
    }

    open spec fn size_spec(&self) -> nat {
        self@.len()
    }

    open spec fn valid(&self, n: usize) -> bool {
        n < self@.len()
    }

    open spec fn connected(&self, a: usize, b: usize) -> bool {
        root_of(self@, a as int) == root_of(self@, b as int)
    }

    fn new(size: usize) -> (r: Self) {
        let mut vec: Vec<usize> = Vec::with_capacity(size);
        let mut i: usize = 0;
        while i < size
            invariant
                i <= size,
                vec@.len() == i,
                forall|k: int| 0 <= k < i ==> vec@[k] == k as usize,
            decreases size - i,
        {
            vec.push(i);
            i = i + 1;
        }
        proof {
            assert forall|k: int| 0 <= k < vec@.len() implies #[trigger] can_reach_root(
                vec@,
                k,
            ) by {
                assert(rooted(vec@, k, 0nat));
            }
            assert forall|a: usize, b: usize| a < size && b < size implies (root_of(vec@, a as int)
                == root_of(vec@, b as int) <==> a == b) by {
                assert(rooted(vec@, a as int, 0nat));
                assert(rooted(vec@, b as int, 0nat));
                lemma_root_of_fuel_is_root_of(vec@, a as int, 0nat);
                lemma_root_of_fuel_is_root_of(vec@, b as int, 0nat);
            }
        }
        vec
    }

    fn is_connected(&self, first: usize, second: usize) -> (r: bool) {
        let ghost f1: nat = choose|fuel: nat| rooted(self@, first as int, fuel);
        let ghost f2: nat = choose|fuel: nat| rooted(self@, second as int, fuel);
        proof {
            assert(can_reach_root(self@, first as int));
            assert(can_reach_root(self@, second as int));
        }
        find_root(self, first, Ghost(f1)) == find_root(self, second, Ghost(f2))
    }

    fn connect(&mut self, first: usize, second: usize) {
        let ghost v = self@;
        let ghost f1: nat = choose|fuel: nat| rooted(v, first as int, fuel);
        let ghost f2: nat = choose|fuel: nat| rooted(v, second as int, fuel);
        proof {
            assert(can_reach_root(v, first as int));
            assert(can_reach_root(v, second as int));
        }
        let first_root = find_root(self, first, Ghost(f1));
        let second_root = find_root(self, second, Ghost(f2));
        if first_root != second_root {
            proof {
                lemma_link(v, first_root as int, second_root as int);
            }
            self[second_root] = first_root;
        } else {
            proof {
                assert(self@ =~= v);
            }
        }
    }
}

} // verus!
