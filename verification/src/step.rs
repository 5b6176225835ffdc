//! A strided view into a vector: the positions `offset`, `offset + step`,
//! `offset + 2*step`, … form a subsequence that can be read, written and
//! swapped through the view while every other position stays untouched.

use vstd::prelude::*;

verus! {

pub struct Step {
    step: usize,
    offset: usize,
}

impl Step {
    pub closed spec fn step_spec(&self) -> nat {
        self.step as nat
    }

    pub closed spec fn offset_spec(&self) -> nat {
        self.offset as nat
    }

    /// The stride is positive.
    pub closed spec fn wf(&self) -> bool {
        self.step >= 1
    }

    /// How many strided positions fall inside a vector of length `len`.
    pub open spec fn len_in(&self, len: nat) -> nat
        recommends
            self.wf(),
            self.offset_spec() <= len,
    {
        ((len - self.offset_spec() + self.step_spec() - 1) / (self.step_spec() as int)) as nat
    }

    /// The subsequence seen through the view.
    pub open spec fn sub(&self, v: Seq<i64>) -> Seq<i64>
        recommends
            self.wf(),
            self.offset_spec() <= v.len(),
    {
        Seq::new(self.len_in(v.len()), |i: int| v[self.offset_spec() + i * self.step_spec()])
    }

    /// Every strided position lies inside the vector.
    pub proof fn lemma_position(&self, len: nat, i: int)
        requires
            self.wf(),
            self.offset_spec() <= len,
            0 <= i < self.len_in(len),
        ensures
            self.offset_spec() + i * self.step_spec() < len,
    {
        let o = self.offset_spec() as int;
        let st = self.step_spec() as int;
        let l = len as int;
        assert(0 <= i < (l - o + st - 1) / st ==> o + i * st < l) by (nonlinear_arith)
            requires
                st >= 1,
                0 <= o <= l,
        ;
    }

    /// Distinct view indices address distinct positions.
    pub proof fn lemma_injective(&self, a: int, b: int)
        requires
            self.wf(),
            a != b,
        ensures
            self.offset_spec() + a * self.step_spec() != self.offset_spec() + b * self.step_spec(),
    {
        let st = self.step_spec() as int;
        assert(a != b ==> a * st != b * st) by (nonlinear_arith)
            requires
                st >= 1,
        ;
    }

    /// A view with the given stride and starting offset.
    pub fn new(step: usize, offset: usize) -> (r: Step)
        requires
            step >= 1,
        ensures
            r.wf(),
            r.step_spec() == step,
            r.offset_spec() == offset,
    {
        Step { step, offset }
    }

    /// How many elements the view sees in `v`.
    pub fn length(&self, v: &Vec<i64>) -> (r: usize)
        requires
            self.wf(),
            self.offset_spec() <= v@.len(),
            v@.len() - self.offset_spec() + self.step_spec() - 1 <= usize::MAX,
        ensures
            r == self.sub(v@).len(),
    {
        (v.len() - self.offset + (self.step - 1)) / self.step
    }

    /// The `i`-th element the view sees in `v`.
    pub fn index(&self, v: &Vec<i64>, i: usize) -> (r: i64)
        requires
            self.wf(),
            self.offset_spec() <= v@.len(),
            i < self.sub(v@).len(),
        ensures
            r == self.sub(v@)[i as int],
    {
        let total = v.len();
        proof {
            self.lemma_position(v@.len(), i as int);
        }
        v[self.offset + i * self.step]
    }

    /// Overwrite the `i`-th element the view sees in `v`.
    pub fn set(&self, v: &mut Vec<i64>, i: usize, value: i64)
        requires
            self.wf(),
            self.offset_spec() <= old(v)@.len(),
            i < self.sub(old(v)@).len(),
        ensures
            final(v)@ == old(v)@.update(
                self.offset_spec() + (i as int) * self.step_spec(),
                value,
            ),
            final(v)@.len() == old(v)@.len(),
            self.sub(final(v)@) == self.sub(old(v)@).update(i as int, value),
            forall|p: int| 0 <= p < self.offset_spec() ==> final(v)@[p] == old(v)@[p],
    {
        let total = v.len();
        proof {
            self.lemma_position(old(v)@.len(), i as int);
        }
        v[self.offset + i * self.step] = value;
        proof {
            assert forall|j: int| 0 <= j < self.sub(v@).len() implies self.sub(v@)[j] == self.sub(
                old(v)@,
            ).update(i as int, value)[j] by {
                if j != i {
                    self.lemma_injective(i as int, j);
                    self.lemma_position(old(v)@.len(), j);
                }
            }
            assert(self.sub(v@) =~= self.sub(old(v)@).update(i as int, value));
        }
    }

    /// Swap the `a`-th and `b`-th elements the view sees in `v`. The elements
    /// of `v` are only rearranged, and nothing before the view's offset moves.
    pub fn swap(&self, v: &mut Vec<i64>, a: usize, b: usize)
        requires
            self.wf(),
            self.offset_spec() <= old(v)@.len(),
            a < self.sub(old(v)@).len(),
            b < self.sub(old(v)@).len(),
        ensures
            final(v)@.len() == old(v)@.len(),
            final(v)@.to_multiset() == old(v)@.to_multiset(),
            self.sub(final(v)@) == self.sub(old(v)@).update(a as int, self.sub(old(v)@)[b as int])
                .update(b as int, self.sub(old(v)@)[a as int]),
            forall|p: int| 0 <= p < self.offset_spec() ==> final(v)@[p] == old(v)@[p],
    {
        let total = v.len();
        proof {
            self.lemma_position(old(v)@.len(), a as int);
            self.lemma_position(old(v)@.len(), b as int);
        }
        let pa = self.offset + a * self.step;
        let pb = self.offset + b * self.step;
        let va = v[pa];
        let vb = v[pb];
        v[pa] = vb;
        v[pb] = va;
        proof {
            crate::is_sorted::lemma_swap_multiset(old(v)@, pa as int, pb as int);
            let olds = self.sub(old(v)@);
            assert forall|j: int| 0 <= j < self.sub(v@).len() implies self.sub(v@)[j]
                == olds.update(a as int, olds[b as int]).update(b as int, olds[a as int])[j] by {
                self.lemma_position(old(v)@.len(), j);
                if j != a {
                    self.lemma_injective(a as int, j);
                }
                if j != b {
                    self.lemma_injective(b as int, j);
                }
            }
            assert(self.sub(v@) =~= olds.update(a as int, olds[b as int]).update(
                b as int,
                olds[a as int],
            ));
        }
    }
}

} // verus!
