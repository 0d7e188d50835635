//! The source of randomness that the engine and the rules draw from.

use vstd::prelude::*;
use crate::default_random::DefaultRandom;

verus! {

/// A source of random numbers and booleans. The engine and every rule sample
/// through this capability alone, so a fixed sequence can stand in for it.
pub trait RandomTrait {
    /// A number drawn from the inclusive range `min..=max`.
    fn get_number(&self, min: usize, max: usize) -> (r: usize)
        requires
            min <= max,
        ensures
            min <= r <= max,
    ;

    /// A boolean.
    fn get_bool(&self) -> (b: bool)
    ;
}

/// The source that is used where none is injected.
pub fn get_random_trait() -> (r: Box<dyn RandomTrait>) {
    DefaultRandom::new()
}

/// One item of `vec`, at an index drawn from `random`.
pub fn get_random_vec_item<'a, T>(vec: &'a [T], random: &dyn RandomTrait) -> (item: &'a T)
    requires
        vec@.len() > 0,
    ensures
        exists|i: int| 0 <= i < vec@.len() && *item == vec@[i],
{
    let i = random.get_number(0, vec.len() - 1);
    &vec[i]
}

/// What remains of `s` when the items at `i` and `j` change places.
pub open spec fn swapped<T>(s: Seq<T>, i: int, j: int) -> Seq<T> {
    s.update(i, s[j]).update(j, s[i])
}

/// Exchanging two items keeps what the sequence holds.
pub proof fn lemma_swapped_multiset<T>(s: Seq<T>, i: int, j: int)
    requires
        0 <= i < s.len(),
        0 <= j < s.len(),
    ensures
        swapped(s, i, j).to_multiset() == s.to_multiset(),
        swapped(s, i, j).len() == s.len(),
{
    broadcast use vstd::seq_lib::group_to_multiset_ensures;

    let a = s.update(i, s[j]);
    assert(a.to_multiset() =~= s.to_multiset().insert(s[j]).remove(s[i]));
    assert(swapped(s, i, j).to_multiset() =~= a.to_multiset().insert(s[i]).remove(a[j]));
    assert(swapped(s, i, j).to_multiset() =~= s.to_multiset());
}

/// Rearranges `vector` by exchanging each position in turn with one drawn
/// from it and the positions after it. The contents stay the same; an empty
/// vector is left as it is.
pub fn shuffle_vec<T: Copy>(vector: &mut Vec<T>, random: &dyn RandomTrait)
    ensures
        final(vector)@.len() == old(vector)@.len(),
        final(vector)@.to_multiset() == old(vector)@.to_multiset(),
{
    let n = vector.len();
    let mut i: usize = 0;
    while i < n
        invariant
            i <= n,
            vector@.len() == n,
            vector@.to_multiset() == old(vector)@.to_multiset(),
        decreases n - i,
    {
        let j = random.get_number(i, n - 1);
        let a = vector[i];
        let b = vector[j];
        proof {
            lemma_swapped_multiset(vector@, i as int, j as int);
        }
        vector.set(i, b);
        vector.set(j, a);
        i += 1;
    }
}

} // verus!
