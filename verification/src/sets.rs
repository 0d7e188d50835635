//! Sets of numbers held in hash sets, and counting in them.

use vstd::prelude::*;
use vstd::std_specs::iter::IteratorSpec;
use std::collections::{HashMap, HashSet};
use crate::sorting::{is_ascending, lemma_ascending, sort_numbers};

verus! {

/// The numbers from `lo` to `hi`, both included.
pub open spec fn span(lo: usize, hi: usize) -> Set<usize> {
    Set::new(|n: usize| lo <= n <= hi)
}

/// The numbers from `lo` to `hi` are finitely many: `hi - lo + 1` of them,
/// or none where `lo` is above `hi`.
pub proof fn lemma_span_len(lo: usize, hi: usize)
    ensures
        span(lo, hi).finite(),
        span(lo, hi).len() == if lo <= hi {
            hi - lo + 1
        } else {
            0
        },
    decreases hi,
{
    if lo > hi {
        assert(span(lo, hi) =~= Set::<usize>::empty());
    } else if lo == hi {
        assert(span(lo, hi) =~= Set::<usize>::empty().insert(hi));
    } else {
        let below = (hi - 1) as usize;
        lemma_span_len(lo, below);
        assert(span(lo, hi) =~= span(lo, below).insert(hi));
    }
}

/// A copy of `v`.
pub fn copy_numbers(v: &[usize]) -> (r: Vec<usize>)
    ensures
        r@ == v@,
{
    let mut r: Vec<usize> = Vec::new();
    let mut i: usize = 0;
    while i < v.len()
        invariant
            i <= v@.len(),
            r@ == v@.take(i as int),
        decreases v@.len() - i,
    {
        r.push(v[i]);
        assert(r@ =~= v@.take(i + 1));
        i += 1;
    }
    assert(r@ =~= v@);
    r
}

/// Whether `a` and `b` hold the same numbers in the same order.
pub fn same_numbers(a: &[usize], b: &[usize]) -> (r: bool)
    ensures
        r == (a@ == b@),
{
    if a.len() != b.len() {
        return false;
    }
    let mut i: usize = 0;
    while i < a.len()
        invariant
            i <= a@.len(),
            a@.len() == b@.len(),
            forall|j: int| 0 <= j < i ==> a@[j] == b@[j],
        decreases a@.len() - i,
    {
        if a[i] != b[i] {
            return false;
        }
        i += 1;
    }
    assert(a@ =~= b@);
    true
}

/// Adding an item to a finite set adds it to the part the set shares with
/// another.
pub proof fn lemma_intersect_insert(a: Set<usize>, b: Set<usize>, x: usize)
    requires
        a.finite(),
        !a.contains(x),
    ensures
        a.insert(x).intersect(b).finite(),
        a.intersect(b).finite(),
        a.insert(x).intersect(b).len() == a.intersect(b).len() + if b.contains(x) {
            1nat
        } else {
            0nat
        },
{
    vstd::set_lib::lemma_len_intersect(a, b);
    assert(a.intersect(b).finite());
    if b.contains(x) {
        assert(a.insert(x).intersect(b) =~= a.intersect(b).insert(x));
    } else {
        assert(a.insert(x).intersect(b) =~= a.intersect(b));
    }
}

/// A hash set holds finitely many numbers.
pub proof fn lemma_hash_set_finite(s: &HashSet<usize>)
    ensures
        s@.finite(),
{
    broadcast use vstd::std_specs::hash::group_hash_axioms;

    let r = vstd::std_specs::hash::spec_hash_keys_iter(s).remaining();
    assert(r.unref().to_set() == s@);
    vstd::seq_lib::seq_to_set_is_finite(r.unref());
}

/// The set of the numbers in `v`.
pub fn set_of(v: &[usize]) -> (s: HashSet<usize>)
    ensures
        s@ == v@.to_set(),
{
    let mut s: HashSet<usize> = HashSet::new();
    let mut i: usize = 0;
    assert(v@.take(0).to_set() =~= Set::<usize>::empty());
    while i < v.len()
        invariant
            i <= v@.len(),
            s@ == v@.take(i as int).to_set(),
        decreases v@.len() - i,
    {
        s.insert(v[i]);
        proof {
            assert(v@.take(i + 1) =~= v@.take(i as int).push(v@[i as int]));
            v@.take(i as int).lemma_push_to_set_commute(v@[i as int]);
        }
        i += 1;
    }
    proof {
        assert(v@.take(v@.len() as int) =~= v@);
    }
    s
}

/// The members of `s`, each once, in the order in which the set hands them
/// out.
pub fn members_of(s: &HashSet<usize>) -> (v: Vec<usize>)
    ensures
        v@.to_set() == s@,
        v@.no_duplicates(),
        v@.len() == s@.len(),
{
    broadcast use vstd::std_specs::hash::group_hash_axioms;

    let mut v: Vec<usize> = Vec::new();
    for x in it: s.iter()
        invariant
            v@ == it.seq().take(it.index() as int).unref(),
            it.seq() == s.iter().remaining(),
    {
        v.push(*x);
    }
    proof {
        let r = s.iter().remaining();
        assert(v@ =~= r.unref());
        assert forall|i: int, j: int| 0 <= i < j < v@.len() implies v@[i] != v@[j] by {
            assert(r[i] != r[j]);
        }
    }
    v
}

/// Whether `keys` lists the members of `s`, each once, in ascending order.
pub open spec fn lists_ascending(keys: Seq<usize>, s: Set<usize>) -> bool {
    is_ascending(keys) && keys.no_duplicates() && keys.to_set() == s
}

/// The members of the finite set `s`, each once, in ascending order.
pub open spec fn ascending_members(s: Set<usize>) -> Seq<usize> {
    choose|keys: Seq<usize>| lists_ascending(keys, s)
}

/// Two lists without repetition that hold the same numbers hold each of them
/// equally often.
pub proof fn lemma_same_members(a: Seq<usize>, b: Seq<usize>)
    requires
        a.no_duplicates(),
        b.no_duplicates(),
        a.to_set() == b.to_set(),
    ensures
        a.to_multiset() == b.to_multiset(),
{
    broadcast use vstd::seq_lib::group_to_multiset_ensures;

    a.lemma_multiset_has_no_duplicates();
    b.lemma_multiset_has_no_duplicates();
    assert forall|x: usize| a.to_multiset().count(x) == b.to_multiset().count(x) by {
        assert(a.contains(x) <==> a.to_set().contains(x));
        assert(b.contains(x) <==> b.to_set().contains(x));
        if a.contains(x) {
            assert(a.to_multiset().contains(x));
            assert(b.to_multiset().contains(x));
        }
    }
    assert(a.to_multiset() =~= b.to_multiset());
}

/// Only one list holds the members of a set, each once, in ascending order.
pub proof fn lemma_ascending_members(keys: Seq<usize>, s: Set<usize>)
    requires
        lists_ascending(keys, s),
    ensures
        keys == ascending_members(s),
{
    let other = ascending_members(s);
    assert(lists_ascending(other, s));
    lemma_same_members(keys, other);
    crate::sorting::lemma_ascending_unique(keys, other);
    crate::sorting::lemma_ascending_fixed(keys);
}

/// The keys of `m`, ascending.
pub fn sorted_keys<V>(m: &HashMap<usize, V>) -> (keys: Vec<usize>)
    ensures
        is_ascending(keys@),
        keys@.no_duplicates(),
        keys@.to_set() == m@.dom(),
        keys@ == ascending_members(m@.dom()),
{
    broadcast use vstd::std_specs::hash::group_hash_axioms;

    let mut keys: Vec<usize> = Vec::new();
    for x in it: m.keys()
        invariant
            keys@ == it.seq().take(it.index() as int).unref(),
            it.seq() == m.keys().remaining(),
    {
        keys.push(*x);
    }
    proof {
        let r = m.keys().remaining();
        assert(keys@ =~= r.unref());
        assert forall|i: int, j: int| 0 <= i < j < keys@.len() implies keys@[i] != keys@[j] by {
            assert(r[i] != r[j]);
        }
    }
    let ghost unsorted = keys@;
    sort_numbers(&mut keys);
    proof {
        lemma_ascending(unsorted);
        unsorted.lemma_multiset_has_no_duplicates();
        keys@.lemma_multiset_has_no_duplicates_conv();
        lemma_ascending_members(keys@, m@.dom());
    }
    keys
}

/// A set with the members of `s`.
pub fn copy_set(s: &HashSet<usize>) -> (r: HashSet<usize>)
    ensures
        r@ == s@,
{
    let v = members_of(s);
    set_of(v.as_slice())
}

/// How many members of `a` are members of `b` too.
pub fn count_common(a: &HashSet<usize>, b: &HashSet<usize>) -> (n: usize)
    ensures
        n == a@.intersect(b@).len(),
{
    let v = members_of(a);
    let mut n: usize = 0;
    let mut i: usize = 0;
    proof {
        assert(v@.take(0).to_set() =~= Set::<usize>::empty());
        assert(Set::<usize>::empty().intersect(b@) =~= Set::<usize>::empty());
    }
    while i < v.len()
        invariant
            i <= v@.len(),
            v@.no_duplicates(),
            n == v@.take(i as int).to_set().intersect(b@).len(),
            n <= i,
        decreases v@.len() - i,
    {
        proof {
            let p = v@.take(i as int);
            let x = v@[i as int];
            assert(v@.take(i + 1) =~= p.push(x));
            p.lemma_push_to_set_commute(x);
            vstd::seq_lib::seq_to_set_is_finite(p);
            if p.to_set().contains(x) {
                let j = choose|j: int| 0 <= j < p.len() && p[j] == x;
                assert(v@[j] == v@[i as int]);
            }
            lemma_intersect_insert(p.to_set(), b@, x);
        }
        if b.contains(&v[i]) {
            n += 1;
        }
        i += 1;
    }
    proof {
        assert(v@.take(v@.len() as int) =~= v@);
    }
    n
}

/// How many members of `a` lie in `lo..=hi`.
pub fn count_within(a: &HashSet<usize>, lo: usize, hi: usize) -> (n: usize)
    ensures
        n == a@.intersect(span(lo, hi)).len(),
{
    let v = members_of(a);
    let mut n: usize = 0;
    let mut i: usize = 0;
    proof {
        assert(v@.take(0).to_set() =~= Set::<usize>::empty());
        assert(Set::<usize>::empty().intersect(span(lo, hi)) =~= Set::<usize>::empty());
    }
    while i < v.len()
        invariant
            i <= v@.len(),
            v@.no_duplicates(),
            n == v@.take(i as int).to_set().intersect(span(lo, hi)).len(),
            n <= i,
        decreases v@.len() - i,
    {
        proof {
            let p = v@.take(i as int);
            let x = v@[i as int];
            assert(v@.take(i + 1) =~= p.push(x));
            p.lemma_push_to_set_commute(x);
            vstd::seq_lib::seq_to_set_is_finite(p);
            if p.to_set().contains(x) {
                let j = choose|j: int| 0 <= j < p.len() && p[j] == x;
                assert(v@[j] == v@[i as int]);
            }
            lemma_intersect_insert(p.to_set(), span(lo, hi), x);
        }
        if lo <= v[i] && v[i] <= hi {
            n += 1;
        }
        i += 1;
    }
    proof {
        assert(v@.take(v@.len() as int) =~= v@);
    }
    n
}

} // verus!
