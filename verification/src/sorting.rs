//! Ascending order on sequences of numbers.

use vstd::prelude::*;
use vstd::relations::{sorted_by, total_ordering};

verus! {

/// The order `<=` on numbers, as a relation.
pub open spec fn leq() -> spec_fn(usize, usize) -> bool {
    |a: usize, b: usize| a <= b
}

/// No item is greater than a later one.
pub open spec fn is_ascending(s: Seq<usize>) -> bool {
    forall|i: int, j: int| 0 <= i < j < s.len() ==> s[i] <= s[j]
}

/// The items of `s` in ascending order.
pub open spec fn ascending(s: Seq<usize>) -> Seq<usize> {
    s.sort_by(leq())
}

/// `ascending(s)` is in ascending order and holds what `s` holds.
pub proof fn lemma_ascending(s: Seq<usize>)
    ensures
        is_ascending(ascending(s)),
        ascending(s).to_multiset() == s.to_multiset(),
        ascending(s).len() == s.len(),
        ascending(s).to_set() == s.to_set(),
{
    broadcast use vstd::seq_lib::group_to_multiset_ensures;

    assert(total_ordering(leq()));
    s.lemma_sort_by_ensures(leq());
    let t = ascending(s);
    assert(is_ascending(t)) by {
        assert forall|i: int, j: int| 0 <= i < j < t.len() implies t[i] <= t[j] by {
            assert(leq()(t[i], t[j]));
        }
    }
    assert(t.to_multiset().len() == s.to_multiset().len());
    assert(t.to_set() =~= s.to_set()) by {
        assert forall|x: usize| t.contains(x) <==> s.contains(x) by {
            assert(t.to_multiset().count(x) == s.to_multiset().count(x));
        }
    }
}

/// Only one arrangement of what `s` holds is in ascending order.
pub proof fn lemma_ascending_unique(s: Seq<usize>, t: Seq<usize>)
    requires
        is_ascending(t),
        t.to_multiset() == s.to_multiset(),
    ensures
        t == ascending(s),
{
    assert(total_ordering(leq()));
    s.lemma_sort_by_ensures(leq());
    assert(sorted_by(t, leq()));
    vstd::seq_lib::lemma_sorted_unique(t, ascending(s), leq());
}

/// A sequence in ascending order is its own ascending arrangement.
pub proof fn lemma_ascending_fixed(s: Seq<usize>)
    requires
        is_ascending(s),
    ensures
        ascending(s) == s,
{
    lemma_ascending_unique(s, s);
}

/// Calls `sort_unstable` of the standard library on the vector's slice. For
/// numbers, whose order is total, it leaves the same items in ascending
/// order.
#[verifier::external_body]
fn sort_unstable(v: &mut Vec<usize>)
    ensures
        is_ascending(final(v)@),
        final(v)@.to_multiset() == old(v)@.to_multiset(),
{
    v.sort_unstable();
}

/// Sorts `v` in place, ascending.
pub fn sort_numbers(v: &mut Vec<usize>)
    ensures
        final(v)@ == ascending(old(v)@),
{
    sort_unstable(v);
    proof {
        lemma_ascending_unique(old(v)@, v@);
    }
}

/// A copy of `v` in ascending order.
pub fn sorted_copy(v: &[usize]) -> (r: Vec<usize>)
    ensures
        r@ == ascending(v@),
{
    let mut r = crate::sets::copy_numbers(v);
    sort_numbers(&mut r);
    r
}

} // verus!
