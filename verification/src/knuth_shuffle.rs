//! The Knuth shuffle: walk the vector once, swapping each position with a
//! uniformly drawn earlier (or the same) position. Whatever the random
//! source returns, the vector afterwards holds exactly the elements it held
//! before.

use crate::index_ops::Swap;
use vstd::prelude::*;

verus! {

#[verifier::external_type_specification]
#[verifier::external_body]
pub struct ExThreadRng(rand::rngs::ThreadRng);

/// Relies on rand's `RngExt::random_range`: a draw from `0 .. bound`, which
/// panics only when the range is empty and otherwise returns a value below
/// `bound`. Nothing more is assumed of a random draw.
#[verifier::external_body]
pub(crate) fn rand_below(rng: &mut rand::rngs::ThreadRng, bound: usize) -> (r: usize)
    requires
        bound >= 1,
    ensures
        r < bound,
{
    rand::RngExt::random_range(rng, 0..bound)
}

/// Randomly rearrange the vector in place: it keeps exactly its elements.
pub fn knuth_shuffle(vec: &mut Vec<i64>, rng: &mut rand::rngs::ThreadRng)
    ensures
        final(vec)@.to_multiset() == old(vec)@.to_multiset(),
        final(vec)@.len() == old(vec)@.len(),
{
    let size = vec.len();
    if size > 1 {
        let mut i: usize = 1;
        while i < size
            invariant
                size == vec@.len(),
                1 <= i <= size,
                vec@.to_multiset() == old(vec)@.to_multiset(),
            decreases size - i,
        {
            let random_j = rand_below(rng, i + 1);
            Swap::swap(vec, i, random_j);
            i = i + 1;
        }
    }
}

} // verus!
