//! A map from text keys to values that keeps its entries in the order in
//! which their keys first arrived.

use vstd::prelude::*;

verus! {

/// The position of the first occurrence of `key` in `keys`; meaningful where
/// `keys` contains `key`.
pub open spec fn first_index(keys: Seq<Seq<char>>, key: Seq<char>) -> int
    decreases keys.len(),
{
    if keys.len() == 0 {
        0
    } else if keys.drop_last().contains(key) {
        first_index(keys.drop_last(), key)
    } else {
        keys.len() - 1
    }
}

/// The first occurrence is the one before which the key does not occur.
pub proof fn lemma_first_index(keys: Seq<Seq<char>>, key: Seq<char>, i: int)
    requires
        0 <= i < keys.len(),
        keys[i] == key,
        forall|j: int| 0 <= j < i ==> keys[j] != key,
    ensures
        first_index(keys, key) == i,
    decreases keys.len(),
{
    let p = keys.drop_last();
    if i == keys.len() - 1 {
        if p.contains(key) {
            let j = choose|j: int| 0 <= j < p.len() && p[j] == key;
            assert(keys[j] == key);
        }
    } else {
        assert(p[i] == key);
        assert(p.contains(key));
        lemma_first_index(p, key, i);
    }
}

/// Where `keys` contains `key`, its first index is a position that holds it.
pub proof fn lemma_first_index_holds(keys: Seq<Seq<char>>, key: Seq<char>)
    requires
        keys.contains(key),
    ensures
        0 <= first_index(keys, key) < keys.len(),
        keys[first_index(keys, key)] == key,
    decreases keys.len(),
{
    let p = keys.drop_last();
    if p.contains(key) {
        lemma_first_index_holds(p, key);
    } else {
        let j = choose|j: int| 0 <= j < keys.len() && keys[j] == key;
        if j < keys.len() - 1 {
            assert(p[j] == key);
        }
    }
}

/// A finite map keyed by strings, held as a list of entries. A lookup takes
/// the first entry with the key; an insertion replaces that entry's value or
/// adds an entry at the end, so a map built by insertions alone never holds a
/// key twice.
#[derive(Clone, Debug)]
pub struct StringMap<V> {
    entries: Vec<(String, V)>,
}

impl<V> StringMap<V> {
    /// The keys, in insertion order.
    pub closed spec fn key_seq(&self) -> Seq<Seq<char>> {
        Seq::new(self.entries@.len(), |i: int| self.entries@[i].0@)
    }

    /// The values, each at the position of its key.
    pub closed spec fn value_seq(&self) -> Seq<V> {
        Seq::new(self.entries@.len(), |i: int| self.entries@[i].1)
    }

    /// The number of entries.
    pub closed spec fn spec_len(&self) -> nat {
        self.entries@.len()
    }

    /// The map from each key to the value of its first entry.
    pub open spec fn view(&self) -> Map<Seq<char>, V> {
        Map::new(
            |k: Seq<char>| self.key_seq().contains(k),
            |k: Seq<char>| self.value_seq()[first_index(self.key_seq(), k)],
        )
    }

    /// Whether no key occurs twice. It holds of an empty map and is kept by
    /// every insertion.
    pub open spec fn distinct(&self) -> bool {
        self.key_seq().no_duplicates()
    }

    /// The keys after `key` is bound: unchanged where the key is there, else
    /// with `key` at the end.
    pub open spec fn keys_after_insert(&self, key: Seq<char>) -> Seq<Seq<char>> {
        if self.key_seq().contains(key) {
            self.key_seq()
        } else {
            self.key_seq().push(key)
        }
    }

    /// The values after `key` is bound to `value`.
    pub open spec fn values_after_insert(&self, key: Seq<char>, value: V) -> Seq<V> {
        if self.key_seq().contains(key) {
            self.value_seq().update(first_index(self.key_seq(), key), value)
        } else {
            self.value_seq().push(value)
        }
    }

    /// Keys and values come in pairs.
    pub proof fn lemma_lengths(&self)
        ensures
            self.key_seq().len() == self.spec_len(),
            self.value_seq().len() == self.spec_len(),
    {
    }

    /// An empty map.
    pub fn new() -> (m: Self)
        ensures
            m.spec_len() == 0,
            m.key_seq() == Seq::<Seq<char>>::empty(),
            m.value_seq() == Seq::<V>::empty(),
            m@ == Map::<Seq<char>, V>::empty(),
            m.distinct(),
    {
        let m = StringMap { entries: Vec::new() };
        assert(m.key_seq() =~= Seq::<Seq<char>>::empty());
        assert(m.value_seq() =~= Seq::<V>::empty());
        assert(m@ =~= Map::<Seq<char>, V>::empty());
        m
    }

    /// The number of entries.
    pub fn len(&self) -> (n: usize)
        ensures
            n == self.spec_len(),
            n == self.key_seq().len(),
            n == self.value_seq().len(),
    {
        self.entries.len()
    }

    /// Whether the map has no entry.
    pub fn is_empty(&self) -> (b: bool)
        ensures
            b == (self.spec_len() == 0),
    {
        self.entries.len() == 0
    }

    /// The key at position `i`.
    pub fn key_at(&self, i: usize) -> (k: &String)
        requires
            i < self.spec_len(),
        ensures
            k@ == self.key_seq()[i as int],
    {
        &self.entries[i].0
    }

    /// The value at position `i`.
    pub fn value_at(&self, i: usize) -> (v: &V)
        requires
            i < self.spec_len(),
        ensures
            *v == self.value_seq()[i as int],
    {
        &self.entries[i].1
    }

    /// The position of the first entry with `key`, if there is one.
    pub fn position(&self, key: &str) -> (r: Option<usize>)
        ensures
            match r {
                Some(i) => i < self.spec_len() && self.key_seq().contains(key@) && first_index(
                    self.key_seq(),
                    key@,
                ) == i,
                None => !self.key_seq().contains(key@),
            },
    {
        let wanted = key.to_owned();
        let mut i: usize = 0;
        while i < self.entries.len()
            invariant
                i <= self.entries@.len(),
                wanted@ == key@,
                forall|j: int| 0 <= j < i ==> self.key_seq()[j] != key@,
            decreases self.entries@.len() - i,
        {
            if self.entries[i].0 == wanted {
                proof {
                    let s = self.key_seq();
                    assert(s[i as int] == key@);
                    lemma_first_index(s, key@, i as int);
                }
                return Some(i);
            }
            i += 1;
        }
        None
    }

    /// Whether the map has `key`.
    pub fn contains_key(&self, key: &str) -> (b: bool)
        ensures
            b == self@.contains_key(key@),
    {
        self.position(key).is_some()
    }

    /// The value bound to `key`, if there is one.
    pub fn get(&self, key: &str) -> (r: Option<&V>)
        ensures
            match r {
                Some(v) => self@.contains_key(key@) && *v == self@[key@],
                None => !self@.contains_key(key@),
            },
    {
        match self.position(key) {
            Some(i) => Some(&self.entries[i].1),
            None => None,
        }
    }

    /// Binds `key` to `value`. A key that is already there keeps its place
    /// and takes the new value.
    pub fn insert(&mut self, key: String, value: V)
        ensures
            final(self).key_seq() == old(self).keys_after_insert(key@),
            final(self).value_seq() == old(self).values_after_insert(key@, value),
            final(self)@ == old(self)@.insert(key@, value),
            old(self).distinct() ==> final(self).distinct(),
    {
        let ghost before = *self;
        let ghost ks = before.key_seq();
        match self.position(key.as_str()) {
            Some(i) => {
                self.entries.set(i, (key, value));
                proof {
                    lemma_first_index_holds(ks, key@);
                    assert(self.key_seq() =~= ks);
                    assert(self.value_seq() =~= before.value_seq().update(i as int, value));
                    assert forall|k: Seq<char>| ks.contains(k) && k != key@ implies first_index(
                        ks,
                        k,
                    ) != i by {
                        lemma_first_index_holds(ks, k);
                    }
                    assert(self@.dom() =~= before@.insert(key@, value).dom());
                    assert forall|k: Seq<char>| self@.dom().contains(k) implies self@[k]
                        == before@.insert(key@, value)[k] by {
                        lemma_first_index_holds(ks, k);
                    }
                    assert(self@ =~= before@.insert(key@, value));
                }
            },
            None => {
                self.entries.push((key, value));
                proof {
                    let ns = self.key_seq();
                    assert(ns =~= ks.push(key@));
                    assert(ns.drop_last() =~= ks);
                    assert(self.value_seq() =~= before.value_seq().push(value));
                    assert(ns[ks.len() as int] == key@);
                    assert forall|k: Seq<char>| ks.contains(k) implies ns.contains(k) by {
                        let j = choose|j: int| 0 <= j < ks.len() && ks[j] == k;
                        assert(ns[j] == k);
                    }
                    assert forall|k: Seq<char>| ns.contains(k) implies ks.contains(k) || k
                        == key@ by {
                        let j = choose|j: int| 0 <= j < ns.len() && ns[j] == k;
                        if j < ks.len() {
                            assert(ks[j] == k);
                        }
                    }
                    assert forall|k: Seq<char>| ks.contains(k) implies first_index(ns, k)
                        == first_index(ks, k) && 0 <= first_index(ks, k) < ks.len() by {
                        lemma_first_index_holds(ks, k);
                    }
                    assert(first_index(ns, key@) == ks.len());
                    assert(self@.dom() =~= before@.insert(key@, value).dom());
                    assert forall|k: Seq<char>| self@.dom().contains(k) implies self@[k]
                        == before@.insert(key@, value)[k] by {
                        if k != key@ {
                            lemma_first_index_holds(ks, k);
                        }
                    }
                    assert(self@ =~= before@.insert(key@, value));
                }
            },
        }
    }

    /// Removes every entry.
    pub fn clear(&mut self)
        ensures
            final(self).spec_len() == 0,
            final(self).key_seq() == Seq::<Seq<char>>::empty(),
            final(self).value_seq() == Seq::<V>::empty(),
            final(self)@ == Map::<Seq<char>, V>::empty(),
    {
        self.entries.clear();
        assert(self.key_seq() =~= Seq::<Seq<char>>::empty());
        assert(self.value_seq() =~= Seq::<V>::empty());
        assert(self@ =~= Map::<Seq<char>, V>::empty());
    }
}

} // verus!
