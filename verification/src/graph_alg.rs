//! Paths through a graph from a fixed start vertex, found depth-first or
//! breadth-first. Both searches record, for every reached vertex, the vertex
//! it was discovered from; a path is read back by following those records to
//! the start. A ghost depth on every reached vertex shows the records form a
//! forest rooted at the start, so reading a path back terminates.

use crate::graph::Graph;
use std::collections::VecDeque;
use vstd::prelude::*;

verus! {

/// How many entries of the sequence are false.
spec fn count_unvisited(s: Seq<bool>) -> nat
    decreases s.len(),
{
    if s.len() == 0 {
        0
    } else {
        count_unvisited(s.drop_last()) + if s.last() {
            0nat
        } else {
            1nat
        }
    }
}

/// Marking one unvisited entry lowers the count of unvisited entries by one.
proof fn lemma_count_unvisited_update(s: Seq<bool>, i: int)
    requires
        0 <= i < s.len(),
        !s[i],
    ensures
        count_unvisited(s.update(i, true)) == count_unvisited(s) - 1,
    decreases s.len(),
{
    let s2 = s.update(i, true);
    if i == s.len() - 1 {
        assert(s2.drop_last() =~= s.drop_last());
    } else {
        lemma_count_unvisited_update(s.drop_last(), i);
        assert(s2.drop_last() =~= s.drop_last().update(i, true));
    }
}

/// More visits never raise the count of unvisited entries.
proof fn lemma_count_unvisited_mono(s1: Seq<bool>, s2: Seq<bool>)
    requires
        s1.len() == s2.len(),
        forall|i: int| 0 <= i < s1.len() && s1[i] ==> s2[i],
    ensures
        count_unvisited(s2) <= count_unvisited(s1),
    decreases s1.len(),
{
    if s1.len() > 0 {
        assert(forall|i: int|
            0 <= i < s1.len() - 1 && s1.drop_last()[i] ==> s2.drop_last()[i]);
        lemma_count_unvisited_mono(s1.drop_last(), s2.drop_last());
    }
}

/// How many entries of the sequence are `None`.
spec fn count_unreached(s: Seq<Option<usize>>) -> nat
    decreases s.len(),
{
    if s.len() == 0 {
        0
    } else {
        count_unreached(s.drop_last()) + if s.last() is Some {
            0nat
        } else {
            1nat
        }
    }
}

/// No more entries are `Some` than there are entries.
proof fn lemma_count_reached_bound(s: Seq<Option<usize>>)
    ensures
        count_unreached(s) <= s.len(),
        s.len() - count_unreached(s) >= 0,
    decreases s.len(),
{
    if s.len() > 0 {
        lemma_count_reached_bound(s.drop_last());
    }
}

/// A sequence of nothing but `None` entries has as many of them as it has
/// entries.
proof fn lemma_count_unreached_full(s: Seq<Option<usize>>)
    requires
        forall|i: int| 0 <= i < s.len() ==> (#[trigger] s[i]) is None,
    ensures
        count_unreached(s) == s.len(),
    decreases s.len(),
{
    if s.len() > 0 {
        assert(forall|i: int| 0 <= i < s.len() - 1 ==> (#[trigger] s.drop_last()[i]) is None);
        lemma_count_unreached_full(s.drop_last());
    }
}

/// Filling one `None` entry lowers the count of `None` entries by one.
proof fn lemma_count_unreached_update(s: Seq<Option<usize>>, i: int, x: usize)
    requires
        0 <= i < s.len(),
        s[i] is None,
    ensures
        count_unreached(s.update(i, Some(x))) == count_unreached(s) - 1,
    decreases s.len(),
{
    let s2 = s.update(i, Some(x));
    if i == s.len() - 1 {
        assert(s2.drop_last() =~= s.drop_last());
    } else {
        lemma_count_unreached_update(s.drop_last(), i, x);
        assert(s2.drop_last() =~= s.drop_last().update(i, Some(x)));
    }
}

/// Reaching vertices from a fixed start, with a path back to it.
pub trait Paths {
    /// The representation invariant.
    spec fn wf(&self) -> bool;

    /// How many vertices the searched graph had.
    spec fn vertex_count(&self) -> nat;

    /// The start vertex of the search.
    spec fn start_of(&self) -> int;

    /// Whether the search reached `v`.
    spec fn visited_spec(&self, v: int) -> bool;

    /// The vertex `v` was discovered from, if any.
    spec fn parent_of(&self, v: int) -> Option<usize>;

    /// Whether the search reached `u`.
    fn is_visited(&self, u: usize) -> (r: bool)
        requires
            self.wf(),
            u < self.vertex_count(),
        ensures
            r == self.visited_spec(u as int),
    ;

    /// A path from the start to `v` along the discovery records, exactly
    /// when the search reached `v`.
    fn path_to(&self, v: usize) -> (r: Option<Vec<usize>>)
        requires
            self.wf(),
            v < self.vertex_count(),
        ensures
            r is Some <==> self.visited_spec(v as int),
            r matches Some(p) ==> p@.len() >= 1 && p@[0] == self.start_of() && p@.last() == v && (
            forall|i: int|
                0 <= i < p@.len() - 1 ==> self.parent_of(#[trigger] p@[i + 1] as int) == Some(
                    p@[i],
                )),
    ;
}

pub struct DepthFirstPaths {
    start: usize,
    visited: Vec<bool>,
    visited_from: Vec<Option<usize>>,
    depth: Ghost<Seq<nat>>,
}

impl DepthFirstPaths {
    /// The discovery records form a forest rooted at the start: each one
    /// points at a visited vertex one ghost-depth step closer to the start.
    spec fn inv(&self, pending: Option<usize>) -> bool {
        &&& self.visited_from@.len() == self.visited@.len()
        &&& self.depth@.len() == self.visited@.len()
        &&& (self.start as int) < self.visited@.len()
        &&& self.visited_from@[self.start as int] is None
        &&& forall|u: int|
            0 <= u < self.visited@.len() ==> (#[trigger] self.visited_from@[u] matches Some(p)
                ==> p < self.visited@.len() && self.visited@[p as int] && self.depth@[u]
                == self.depth@[p as int] + 1)
        &&& forall|u: int|
            0 <= u < self.visited@.len() && #[trigger] self.visited@[u] ==> (u == self.start
                || self.visited_from@[u] is Some)
        &&& forall|u: int|
            0 <= u < self.visited@.len() && (pending matches Some(w) ==> u != w) ==> (
            #[trigger] self.visited_from@[u] is Some ==> self.visited@[u])
    }

    /// The ghost depth of `v` in the discovery forest, as a measure for
    /// walking back to the start.
    pub closed spec fn rank(&self, v: int) -> nat {
        self.depth@[v]
    }

    /// Search the graph depth-first from `start` and record, for every
    /// reached vertex, the vertex it was discovered from.
    pub fn new(graph: &Vec<Vec<usize>>, start: usize) -> (r: DepthFirstPaths)
        requires
            graph.wf(),
            start < graph.adjacency().len(),
        ensures
            r.wf(),
            r.vertex_count() == graph.adjacency().len(),
            r.start_of() == start,
            r.visited_spec(start as int),
    {
        let n = graph.number_of_vertices();
        let mut visited: Vec<bool> = Vec::with_capacity(n);
        let mut visited_from: Vec<Option<usize>> = Vec::with_capacity(n);
        let mut i: usize = 0;
        while i < n
            invariant
                i <= n,
                visited@.len() == i,
                visited_from@.len() == i,
                forall|u: int| 0 <= u < i ==> !(#[trigger] visited@[u]),
                forall|u: int| 0 <= u < i ==> (#[trigger] visited_from@[u]) is None,
            decreases n - i,
        {
            visited.push(false);
            visited_from.push(Option::None);
            i = i + 1;
        }
        let mut dfp = DepthFirstPaths {
            start,
            visited,
            visited_from,
            depth: Ghost(Seq::new(n as nat, |u: int| 0nat)),
        };
        dfp.mark_vertices_recursively(graph, start);
        dfp
    }

    /// Visit `v`, then each of its unvisited neighbors, recursively,
    /// recording each new vertex's discoverer.
    fn mark_vertices_recursively(&mut self, graph: &Vec<Vec<usize>>, v: usize)
        requires
            graph.wf(),
            old(self).visited@.len() == graph.adjacency().len(),
            v < old(self).visited@.len(),
            !old(self).visited@[v as int],
            old(self).inv(Some(v)),
            v == old(self).start || old(self).visited_from@[v as int] is Some,
            v == old(self).start || old(self).visited@[old(self).start as int],
        ensures
            final(self).visited@.len() == old(self).visited@.len(),
            final(self).start == old(self).start,
            final(self).inv(None),
            final(self).visited@[v as int],
            forall|u: int|
                0 <= u < old(self).visited@.len() && old(self).visited@[u]
                    ==> final(self).visited@[u],
        decreases count_unvisited(old(self).visited@),
    {
        let ghost n = self.visited@.len() as int;
        let ghost at_entry = self.visited@;
        proof {
            lemma_count_unvisited_update(at_entry, v as int);
        }
        self.visited[v] = true;
        let adj_list = graph.adj(v);
        let mut idx: usize = 0;
        while idx < adj_list.len()
            invariant
                graph.wf(),
                adj_list@ == graph.adjacency()[v as int],
                self.visited@.len() == n,
                n == graph.adjacency().len(),
                v < n,
                self.start == old(self).start,
                self.inv(None),
                self.visited@[v as int],
                self.visited@[self.start as int],
                idx <= adj_list@.len(),
                at_entry == old(self).visited@,
                forall|u: int| 0 <= u < n && at_entry[u] ==> self.visited@[u],
                count_unvisited(self.visited@) <= count_unvisited(at_entry) - 1,
            decreases adj_list@.len() - idx,
        {
            let w = adj_list[idx];
            proof {
                assert(graph.adjacency()[v as int][idx as int] < graph.adjacency().len());
            }
            if !self.visited[w] {
                let ghost before = *self;
                self.visited_from[w] = Option::Some(v);
                proof {
                    self.depth = Ghost(self.depth@.update(w as int, self.depth@[v as int] + 1));
                    assert(w != self.start);
                    assert(self.visited_from@ == before.visited_from@.update(w as int, Some(v)));
                    assert forall|u: int|
                        0 <= u < self.visited@.len() implies (#[trigger] self.visited_from@[u]
                        matches Some(p) ==> p < self.visited@.len() && self.visited@[p as int]
                        && self.depth@[u] == self.depth@[p as int] + 1) by {
                        if u == w {
                            assert(self.visited_from@[u] == Some(v));
                        } else {
                            assert(self.visited_from@[u] == before.visited_from@[u]);
                            match before.visited_from@[u] {
                                Option::Some(p) => {
                                    assert(before.visited@[p as int]);
                                    assert(p != w);
                                    assert(self.depth@[u] == before.depth@[u]);
                                    assert(self.depth@[p as int] == before.depth@[p as int]);
                                },
                                Option::None => {},
                            }
                        }
                    }
                    assert(self.inv(Some(w)));
                }
                let ghost before_child = self.visited@;
                self.mark_vertices_recursively(graph, w);
                proof {
                    lemma_count_unvisited_mono(before_child, self.visited@);
                }
            }
            idx = idx + 1;
        }
    }
}

impl Paths for DepthFirstPaths {
    closed spec fn wf(&self) -> bool {
        self.inv(None) && self.visited@[self.start as int]
    }

    closed spec fn vertex_count(&self) -> nat {
        self.visited@.len()
    }

    closed spec fn start_of(&self) -> int {
        self.start as int
    }

    closed spec fn visited_spec(&self, v: int) -> bool {
        self.visited@[v]
    }

    closed spec fn parent_of(&self, v: int) -> Option<usize> {
        self.visited_from@[v]
    }

    fn is_visited(&self, u: usize) -> (r: bool) {
        self.visited[u]
    }

    fn path_to(&self, v: usize) -> (r: Option<Vec<usize>>)
        decreases self.rank(v as int),
    {
        if v == self.start {
            let p = vec![v];
            return Option::Some(p);
        }
        match self.visited_from[v] {
            Option::None => Option::None,
            Option::Some(prev) => {
                match self.path_to(prev) {
                    Option::None => {
                        proof {
                            assert(self.visited@[prev as int]);
                            assert(false);
                        }
                        Option::None
                    },
                    Option::Some(mut prev_vec) => {
                        prev_vec.push(v);
                        Option::Some(prev_vec)
                    },
                }
            },
        }
    }
}

pub struct BreadthFirstPaths {
    start: usize,
    visited_from: Vec<Option<usize>>,
    path_length_from_start: Vec<Option<usize>>,
}

impl BreadthFirstPaths {
    /// The discovery records form a forest rooted at the start: each one
    /// points at a reached vertex whose recorded path length is one smaller,
    /// and every recorded path length stays below the number of reached
    /// vertices.
    spec fn inv(&self) -> bool {
        &&& self.path_length_from_start@.len() == self.visited_from@.len()
        &&& (self.start as int) < self.visited_from@.len()
        &&& self.visited_from@[self.start as int] is None
        &&& self.path_length_from_start@[self.start as int] == Some(0usize)
        &&& forall|u: int|
            0 <= u < self.visited_from@.len() ==> (#[trigger] self.visited_from@[u] matches Some(p)
                ==> p < self.visited_from@.len() && (self.path_length_from_start@[u] matches Some(d)
                && self.path_length_from_start@[p as int] matches Some(dp) && d == dp + 1))
        &&& forall|u: int|
            0 <= u < self.visited_from@.len() && #[trigger] self.path_length_from_start@[u] is Some
                ==> (u == self.start || self.visited_from@[u] is Some)
        &&& forall|u: int|
            0 <= u < self.visited_from@.len() ==> (#[trigger] self.visited_from@[u] is Some
                ==> self.path_length_from_start@[u] is Some)
        &&& forall|u: int|
            0 <= u < self.path_length_from_start@.len() ==> (
            #[trigger] self.path_length_from_start@[u] matches Some(d) ==> (d as int)
                < self.path_length_from_start@.len() - count_unreached(
                self.path_length_from_start@,
            ))
    }

    /// The recorded path length of `v`, as a measure for walking back.
    pub closed spec fn rank(&self, v: int) -> nat {
        match self.path_length_from_start@[v] {
            Option::Some(d) => d as nat,
            Option::None => 0,
        }
    }

    /// Search the graph breadth-first from `start`, visiting vertices in
    /// order of their distance and recording each one's discoverer.
    pub fn new(graph: &Vec<Vec<usize>>, start: usize) -> (r: BreadthFirstPaths)
        requires
            graph.wf(),
            start < graph.adjacency().len(),
        ensures
            r.wf(),
            r.vertex_count() == graph.adjacency().len(),
            r.start_of() == start,
            r.visited_spec(start as int),
    {
        let n = graph.number_of_vertices();
        let mut visited_from: Vec<Option<usize>> = Vec::with_capacity(n);
        let mut path_length_from_start: Vec<Option<usize>> = Vec::with_capacity(n);
        let mut i: usize = 0;
        while i < n
            invariant
                i <= n,
                visited_from@.len() == i,
                path_length_from_start@.len() == i,
                forall|u: int| 0 <= u < i ==> (#[trigger] visited_from@[u]) is None,
                forall|u: int| 0 <= u < i ==> (#[trigger] path_length_from_start@[u]) is None,
            decreases n - i,
        {
            visited_from.push(Option::None);
            path_length_from_start.push(Option::None);
            i = i + 1;
        }
        let mut bfp = BreadthFirstPaths { start, visited_from, path_length_from_start };
        let mut deque: VecDeque<usize> = VecDeque::new();
        deque.push_back(start);
        proof {
            lemma_count_unreached_full(bfp.path_length_from_start@);
            lemma_count_unreached_update(bfp.path_length_from_start@, start as int, 0);
        }
        bfp.path_length_from_start[start] = Option::Some(0);
        while deque.len() > 0
            invariant
                graph.wf(),
                n == graph.adjacency().len(),
                bfp.inv(),
                bfp.visited_from@.len() == n,
                bfp.start == start,
                bfp.path_length_from_start@[start as int] is Some,
                forall|q: int|
                    0 <= q < deque@.len() ==> #[trigger] deque@[q] < n
                        && bfp.path_length_from_start@[deque@[q] as int] is Some,
            decreases count_unreached(bfp.path_length_from_start@), deque@.len(),
        {
            let ghost cn0 = count_unreached(bfp.path_length_from_start@);
            let ghost len0 = deque@.len();
            let v = match deque.pop_front() {
                Option::Some(x) => x,
                Option::None => {
                    proof {
                        assert(false);
                    }
                    0
                },
            };
            proof {
                lemma_count_reached_bound(bfp.path_length_from_start@);
            }
            let next_length = match bfp.path_length_from_start[v] {
                Option::Some(l) => l + 1,
                Option::None => {
                    proof {
                        assert(false);
                    }
                    0
                },
            };
            let adj_list = graph.adj(v);
            let mut idx: usize = 0;
            while idx < adj_list.len()
                invariant
                    graph.wf(),
                    n == graph.adjacency().len(),
                    adj_list@ == graph.adjacency()[v as int],
                    v < n,
                    bfp.inv(),
                    bfp.visited_from@.len() == n,
                    bfp.start == start,
                    idx <= adj_list@.len(),
                    bfp.path_length_from_start@[v as int] matches Some(l) && next_length == l + 1,
                    next_length <= n,
                    forall|q: int|
                        0 <= q < deque@.len() ==> #[trigger] deque@[q] < n
                            && bfp.path_length_from_start@[deque@[q] as int] is Some,
                    count_unreached(bfp.path_length_from_start@) + deque@.len() == cn0 + len0 - 1,
                    count_unreached(bfp.path_length_from_start@) <= cn0,
                decreases adj_list@.len() - idx,
            {
                let w = adj_list[idx];
                proof {
                    assert(graph.adjacency()[v as int][idx as int] < graph.adjacency().len());
                }
                if bfp.path_length_from_start[w].is_none() {
                    proof {
                        lemma_count_unreached_update(
                            bfp.path_length_from_start@,
                            w as int,
                            next_length,
                        );
                        lemma_count_reached_bound(bfp.path_length_from_start@);
                    }
                    deque.push_back(w);
                    bfp.visited_from[w] = Option::Some(v);
                    bfp.path_length_from_start[w] = Option::Some(next_length);
                }
                idx = idx + 1;
            }
        }
        bfp
    }
}

impl Paths for BreadthFirstPaths {
    closed spec fn wf(&self) -> bool {
        self.inv()
    }

    closed spec fn vertex_count(&self) -> nat {
        self.visited_from@.len()
    }

    closed spec fn start_of(&self) -> int {
        self.start as int
    }

    closed spec fn visited_spec(&self, v: int) -> bool {
        self.path_length_from_start@[v] is Some
    }

    closed spec fn parent_of(&self, v: int) -> Option<usize> {
        self.visited_from@[v]
    }

    fn is_visited(&self, u: usize) -> (r: bool) {
        self.path_length_from_start[u].is_some()
    }

    fn path_to(&self, v: usize) -> (r: Option<Vec<usize>>)
        decreases self.rank(v as int),
    {
        if v == self.start {
            let p = vec![v];
            return Option::Some(p);
        }
        match self.visited_from[v] {
            Option::None => Option::None,
            Option::Some(prev) => {
                match self.path_to(prev) {
                    Option::None => {
                        proof {
                            assert(false);
                        }
                        Option::None
                    },
                    Option::Some(mut prev_vec) => {
                        prev_vec.push(v);
                        Option::Some(prev_vec)
                    },
                }
            },
        }
    }
}

} // verus!
