//! The capability an algorithm needs so its running time can be observed as
//! its input doubles in size: preparing a data structure of a given size and
//! running the algorithm against it. The observation loop itself — timing,
//! doubling and reporting — lives with the program around this library.

use crate::knuth_shuffle::rand_below;
use vstd::prelude::*;

verus! {

/// An algorithm that can be observed in terms of execution time.
pub trait PerformanceObservable {
    /// What a prepared data structure of the given size looks like.
    spec fn prepared(&self, size: usize) -> bool;

    /// Prepare a data structure (with randomized content) of the given size.
    fn prepare(size: usize, rng: &mut rand::rngs::ThreadRng) -> (r: Self) where Self: Sized
        ensures
            r.prepared(size),
    ;

    /// Run an algorithm against the prepared data structure.
    fn run(&mut self, size: usize, rng: &mut rand::rngs::ThreadRng)
        requires
            old(self).prepared(size),
    ;
}

impl PerformanceObservable for Vec<i64> {
    open spec fn prepared(&self, size: usize) -> bool {
        self@.len() == size
    }

    fn prepare(size: usize, _rng: &mut rand::rngs::ThreadRng) -> (r: Self) {
        let mut vec: Vec<i64> = Vec::with_capacity(size);
        let mut i: usize = 0;
        while i < size
            invariant
                vec@.len() == i,
                i <= size,
            decreases size - i,
        {
            vec.push(0);
            i = i + 1;
        }
        vec
    }

    fn run(&mut self, size: usize, rng: &mut rand::rngs::ThreadRng) {
        let mut i: usize = 0;
        while i < size
            invariant
                self@.len() == size,
            decreases size - i,
        {
            let mut j: usize = i;
            while j < size
                invariant
                    self@.len() == size,
                    j <= size,
                decreases size - j,
            {
                let value = rand_below(rng, 10000);
                self[j] = value as i64;
                j = j + 1;
            }
            i = i + 1;
        }
    }
}

} // verus!
