//! An undirected graph as adjacency lists: vertex `v`'s list holds the
//! neighbors of `v`, and an edge appears in the lists of both endpoints.

use vstd::pervasive::VecAdditionalExecFns;
use vstd::prelude::*;

verus! {

/// The sum of the list lengths over the first `k` rows.
pub open spec fn degree_sum_upto(a: Seq<Seq<usize>>, k: int) -> nat
    decreases k,
{
    if k <= 0 {
        0
    } else {
        degree_sum_upto(a, k - 1) + a[k - 1].len()
    }
}

/// The partial degree sums grow with the number of rows counted.
pub proof fn lemma_degree_sum_mono(a: Seq<Seq<usize>>, k: int, m: int)
    requires
        0 <= k <= m,
    ensures
        degree_sum_upto(a, k) <= degree_sum_upto(a, m),
    decreases m - k,
{
    if k < m {
        lemma_degree_sum_mono(a, k, m - 1);
    }
}

/// The operations of an undirected graph over vertices `0 .. n`.
pub trait Graph: Sized {
    /// Every listed neighbor is a vertex of the graph.
    spec fn wf(&self) -> bool;

    /// The adjacency lists, one per vertex.
    spec fn adjacency(&self) -> Seq<Seq<usize>>;

    /// A graph with the given number of vertices and no edges.
    fn new(number_of_vertices: usize) -> (g: Self)
        ensures
            g.wf(),
            g.adjacency().len() == number_of_vertices,
            forall|v: int| 0 <= v < number_of_vertices ==> g.adjacency()[v] == Seq::<usize>::empty(),
    ;

    /// Record an edge between `v` and `w` by listing each as the other's
    /// neighbor (twice for a self-loop).
    fn add_edge(&mut self, v: usize, w: usize)
        requires
            old(self).wf(),
            v < old(self).adjacency().len(),
            w < old(self).adjacency().len(),
        ensures
            final(self).wf(),
            ({
                let once = old(self).adjacency().update(
                    v as int,
                    old(self).adjacency()[v as int].push(w),
                );
                final(self).adjacency() == once.update(w as int, once[w as int].push(v))
            }),
    ;

    /// The neighbors of `v`.
    fn adj(&self, v: usize) -> (r: &Vec<usize>)
        requires
            v < self.adjacency().len(),
        ensures
            r@ == self.adjacency()[v as int],
    ;

    /// How many vertices the graph has.
    fn number_of_vertices(&self) -> (r: usize)
        ensures
            r == self.adjacency().len(),
    ;

    /// How many edges were added: every edge was listed twice, so half the
    /// sum of the list lengths.
    fn number_of_edges(&self) -> (r: usize)
        requires
            degree_sum_upto(self.adjacency(), self.adjacency().len() as int) <= usize::MAX,
        ensures
            r == degree_sum_upto(self.adjacency(), self.adjacency().len() as int) / 2,
    ;
}

impl Graph for Vec<Vec<usize>> {
    open spec fn wf(&self) -> bool {
        forall|v: int, j: int|
            0 <= v < self@.len() && 0 <= j < self@[v]@.len() ==> self@[v]@[j] < self@.len()
    }

    open spec fn adjacency(&self) -> Seq<Seq<usize>> {
        Seq::new(self@.len(), |v: int| self@[v]@)
    }

    fn new(number_of_vertices: usize) -> (g: Self) {
        let mut vec: Vec<Vec<usize>> = Vec::with_capacity(number_of_vertices);
        let mut i: usize = 0;
        while i < number_of_vertices
            invariant
                i <= number_of_vertices,
                vec@.len() == i,
                forall|v: int| 0 <= v < i ==> vec@[v]@ == Seq::<usize>::empty(),
            decreases number_of_vertices - i,
        {
            let row: Vec<usize> = Vec::with_capacity(0);
            vec.push(row);
            i = i + 1;
        }
        vec
    }

    fn add_edge(&mut self, v: usize, w: usize)
        ensures
            final(self).wf(),
            ({
                let once = old(self).adjacency().update(
                    v as int,
                    old(self).adjacency()[v as int].push(w),
                );
                final(self).adjacency() == once.update(w as int, once[w as int].push(v))
            }),
    {
        let mut row_v: Vec<usize> = Vec::new();
        self.set_and_swap(v, &mut row_v);
        row_v.push(w);
        self.set_and_swap(v, &mut row_v);
        let mut row_w: Vec<usize> = Vec::new();
        self.set_and_swap(w, &mut row_w);
        row_w.push(v);
        self.set_and_swap(w, &mut row_w);
        proof {
            let once = old(self).adjacency().update(
                v as int,
                old(self).adjacency()[v as int].push(w),
            );
            assert(self.adjacency() =~~= once.update(w as int, once[w as int].push(v)));
        }
    }

    fn adj(&self, v: usize) -> (r: &Vec<usize>)
        ensures
            r@ == self.adjacency()[v as int],
    {
        &self[v]
    }

    fn number_of_vertices(&self) -> (r: usize)
        ensures
            r == self.adjacency().len(),
    {
        self.len()
    }

    fn number_of_edges(&self) -> (r: usize)
        ensures
            r == degree_sum_upto(self.adjacency(), self.adjacency().len() as int) / 2,
    {
        let n = self.len();
        let mut total: usize = 0;
        let mut i: usize = 0;
        while i < n
            invariant
                n == self.adjacency().len(),
                i <= n,
                total == degree_sum_upto(self.adjacency(), i as int),
                degree_sum_upto(self.adjacency(), n as int) <= usize::MAX,
            decreases n - i,
        {
            proof {
                lemma_degree_sum_mono(self.adjacency(), i + 1, n as int);
            }
            total = total + self[i].len();
            i = i + 1;
        }
        total / 2
    }
}

} // verus!
