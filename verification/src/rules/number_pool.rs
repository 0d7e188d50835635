//! Pools of admissible values, and the rule that fixes how many numbers come
//! from each pool.

use vstd::prelude::*;
use vstd::string::*;
use std::collections::HashSet;
use crate::random::CurrentData;
use crate::random_trait::RandomTrait;
use crate::rules::exclude_rule_trait::{is_excluded_helper, ExcludeRuleTrait};
use crate::rules::rule_trait::{
    count_message,
    count_text,
    skip,
    skip_text,
    FactMap,
    IsWithinErrorType,
    RuleTrait,
};
use crate::string_map::{first_index, lemma_first_index_holds, StringMap};
use crate::text::{decimal, push_number};
use crate::sets::{
    copy_set,
    count_common,
    count_within,
    lemma_hash_set_finite,
    lemma_span_len,
    members_of,
    set_of,
    span,
};
use crate::sorting::is_ascending;

verus! {

/// A pool of admissible values: a set, or an inclusive range.
#[derive(Debug)]
pub enum PoolType {
    Values(HashSet<usize>),
    MinMax(usize, usize),
}

impl Clone for PoolType {
    /// A pool with the same values.
    fn clone(&self) -> (r: PoolType)
        ensures
            r.members() == self.members(),
    {
        self.duplicate()
    }
}

/// How often an unused value of a pool is drawn before the values that are
/// left are listed.
pub const UNUSED_DRAWS: usize = 20;

/// The numbers of the characters of `chars`.
pub open spec fn code_set(chars: Seq<char>) -> Set<usize> {
    Set::new(|n: usize| exists|i: int| 0 <= i < chars.len() && #[trigger] chars[i] as usize == n)
}

impl PoolType {
    /// The values of the pool.
    pub open spec fn members(&self) -> Set<usize> {
        match self {
            PoolType::Values(set) => set@,
            PoolType::MinMax(min, max) => span(*min, *max),
        }
    }

    /// The pool's values are finitely many.
    pub proof fn lemma_finite(&self)
        ensures
            self.members().finite(),
    {
        match self {
            PoolType::Values(set) => {
                lemma_hash_set_finite(set);
            },
            PoolType::MinMax(min, max) => {
                lemma_span_len(*min, *max);
            },
        }
    }

    /// The pool of the numbers of the characters of `char_set`.
    pub fn new(char_set: &Vec<char>) -> (r: PoolType)
        ensures
            r is Values,
            r.members() == code_set(char_set@),
    {
        let mut set: HashSet<usize> = HashSet::new();
        let mut i: usize = 0;
        assert(set@ =~= code_set(char_set@.take(0)));
        while i < char_set.len()
            invariant
                i <= char_set@.len(),
                set@ == code_set(char_set@.take(i as int)),
            decreases char_set@.len() - i,
        {
            let c = char_set[i];
            set.insert(c as usize);
            proof {
                let p = char_set@.take(i as int);
                let q = char_set@.take(i + 1);
                assert forall|n: usize| #[trigger]
                    code_set(q).contains(n) <==> code_set(p).insert(c as usize).contains(n) by {
                    if code_set(q).contains(n) {
                        let k = choose|k: int| 0 <= k < q.len() && #[trigger] q[k] as usize == n;
                        if k < i {
                            assert(p[k] as usize == n);
                        }
                    }
                    if code_set(p).contains(n) {
                        let k = choose|k: int| 0 <= k < p.len() && #[trigger] p[k] as usize == n;
                        assert(q[k] as usize == n);
                    }
                    if n == c as usize {
                        assert(q[i as int] as usize == n);
                    }
                }
                assert(set@ =~= code_set(q));
            }
            i += 1;
        }
        assert(char_set@.take(char_set@.len() as int) =~= char_set@);
        PoolType::Values(set)
    }

    /// A pool with the same values.
    pub fn duplicate(&self) -> (r: PoolType)
        ensures
            r.members() == self.members(),
            r is Values == self is Values,
            self is MinMax ==> r == *self,
    {
        match self {
            PoolType::Values(set) => PoolType::Values(copy_set(set)),
            PoolType::MinMax(min, max) => PoolType::MinMax(*min, *max),
        }
    }

    /// One value of the pool, drawn from `random`.
    pub fn random_number(&self, random: &dyn RandomTrait) -> (r: usize)
        requires
            !self.members().is_empty(),
        ensures
            self.members().contains(r),
    {
        match self {
            PoolType::Values(set) => {
                let rand_pool: Vec<usize> = members_of(set);
                assert(rand_pool@.len() > 0) by {
                    if rand_pool@.len() == 0 {
                        assert(set@ =~= Set::<usize>::empty());
                    }
                }
                let i = random.get_number(0, rand_pool.len() - 1);
                assert(rand_pool@.to_set().contains(rand_pool@[i as int]));
                rand_pool[i]
            },
            PoolType::MinMax(min, max) => {
                assert(*min <= *max) by {
                    if *min > *max {
                        assert(span(*min, *max) =~= Set::<usize>::empty());
                    }
                }
                random.get_number(*min, *max)
            },
        }
    }

    /// One value of the pool that is not in `numbers_set`, drawn from
    /// `random`: the first such value among up to twenty draws from the pool,
    /// else one of the values that are left. Nothing where every value of the
    /// pool is in `numbers_set`.
    pub fn random_unused(&self, numbers_set: &HashSet<usize>, random: &dyn RandomTrait) -> (r:
        Option<usize>)
        ensures
            r matches Some(x) ==> self.members().contains(x) && !numbers_set@.contains(x),
            r is None <==> self.members().difference(numbers_set@).is_empty(),
    {
        if !self.is_empty() {
            let mut i: usize = 0;
            while i < UNUSED_DRAWS
                invariant
                    !self.members().is_empty(),
                decreases UNUSED_DRAWS - i,
            {
                let x = self.random_number(random);
                if !numbers_set.contains(&x) {
                    assert(self.members().difference(numbers_set@).contains(x));
                    return Some(x);
                }
                i += 1;
            }
        }
        let rest = self.difference(numbers_set);
        if rest.len() == 0 {
            assert(rest@.to_set() =~= Set::<usize>::empty());
            return None;
        }
        let k = random.get_number(0, rest.len() - 1);
        assert(rest@.to_set().contains(rest@[k as int]));
        Some(rest[k])
    }

    /// How many of `numbers` are values of the pool; a number that occurs
    /// twice is counted twice.
    pub fn count(&self, numbers: &[usize]) -> (r: usize)
        ensures
            r == count_in(self.members(), numbers@),
    {
        let mut r: usize = 0;
        let mut i: usize = 0;
        assert(numbers@.take(0) =~= Seq::empty());
        while i < numbers.len()
            invariant
                i <= numbers@.len(),
                r == count_in(self.members(), numbers@.take(i as int)),
                r <= i,
            decreases numbers@.len() - i,
        {
            proof {
                let t = numbers@.take(i + 1);
                assert(t.drop_last() =~= numbers@.take(i as int));
                assert(t.last() == numbers@[i as int]);
            }
            if self.contains(numbers[i]) {
                r += 1;
            }
            i += 1;
        }
        assert(numbers@.take(numbers@.len() as int) =~= numbers@);
        r
    }

    /// How many values of the pool are in `numbers_set`.
    pub fn has(&self, numbers_set: &HashSet<usize>) -> (r: usize)
        ensures
            r == self.members().intersect(numbers_set@).len(),
    {
        match self {
            PoolType::Values(set) => count_common(set, numbers_set),
            PoolType::MinMax(min, max) => {
                let r = count_within(numbers_set, *min, *max);
                assert(numbers_set@.intersect(span(*min, *max)) =~= span(*min, *max).intersect(
                    numbers_set@,
                ));
                r
            },
        }
    }

    /// The values of the pool that are not in `numbers_set`, each once; those
    /// of a range in ascending order.
    pub fn difference(&self, numbers_set: &HashSet<usize>) -> (r: Vec<usize>)
        ensures
            r@.no_duplicates(),
            r@.to_set() == self.members().difference(numbers_set@),
            self is MinMax ==> is_ascending(r@),
    {
        match self {
            PoolType::Values(set) => {
                let all = members_of(set);
                let mut differences: Vec<usize> = Vec::new();
                let mut i: usize = 0;
                assert(all@.take(0).to_set() =~= Set::<usize>::empty());
                while i < all.len()
                    invariant
                        i <= all@.len(),
                        all@.no_duplicates(),
                        differences@.no_duplicates(),
                        differences@.to_set() == all@.take(i as int).to_set().difference(
                            numbers_set@,
                        ),
                    decreases all@.len() - i,
                {
                    let number = all[i];
                    proof {
                        let p = all@.take(i as int);
                        assert(all@.take(i + 1) =~= p.push(number));
                        p.lemma_push_to_set_commute(number);
                        if p.to_set().contains(number) {
                            let j = choose|j: int| 0 <= j < p.len() && p[j] == number;
                            assert(all@[j] == all@[i as int]);
                        }
                    }
                    if !numbers_set.contains(&number) {
                        let ghost before = differences@;
                        differences.push(number);
                        proof {
                            before.lemma_push_to_set_commute(number);
                            assert(!before.to_set().contains(number));
                            assert forall|a: int, b: int|
                                0 <= a < b < differences@.len() implies differences@[a]
                                != differences@[b] by {
                                if b == before.len() {
                                    assert(before.to_set().contains(before[a]));
                                }
                            }
                            assert(differences@.to_set() =~= all@.take(i + 1).to_set().difference(
                                numbers_set@,
                            ));
                        }
                    } else {
                        assert(differences@.to_set() =~= all@.take(i + 1).to_set().difference(
                            numbers_set@,
                        ));
                    }
                    i += 1;
                }
                assert(all@.take(all@.len() as int) =~= all@);
                differences
            },
            PoolType::MinMax(min, max) => {
                let min = *min;
                let max = *max;
                let mut differences: Vec<usize> = Vec::new();
                if min > max {
                    assert(differences@.to_set() =~= span(min, max).difference(numbers_set@));
                    return differences;
                }
                let mut number: usize = min;
                assert(differences@.to_set() =~= Set::<usize>::empty());
                loop
                    invariant_except_break
                        min <= number <= max,
                        differences@.to_set() == Set::new(|n: usize| min <= n < number).difference(
                            numbers_set@,
                        ),
                    invariant
                        min <= max,
                        is_ascending(differences@),
                        differences@.no_duplicates(),
                        forall|k: int|
                            0 <= k < differences@.len() ==> #[trigger] differences@[k] <= number,
                    ensures
                        differences@.to_set() == span(min, max).difference(numbers_set@),
                    decreases max - number,
                {
                    let ghost before = differences@;
                    if !numbers_set.contains(&number) {
                        assert(forall|k: int| 0 <= k < before.len() ==> before[k] < number) by {
                            assert forall|k: int| 0 <= k < before.len() implies before[k]
                                < number by {
                                assert(before.to_set().contains(before[k]));
                            }
                        }
                        differences.push(number);
                        proof {
                            before.lemma_push_to_set_commute(number);
                        }
                    }
                    assert(differences@.to_set() =~= Set::new(
                        |n: usize| min <= n <= number,
                    ).difference(numbers_set@));
                    if number == max {
                        assert(Set::new(|n: usize| min <= n <= number) =~= span(min, max));
                        break;
                    }
                    assert(Set::new(|n: usize| min <= n <= number) =~= Set::new(
                        |n: usize| min <= n < number + 1,
                    ));
                    number += 1;
                }
                differences
            },
        }
    }

    /// Whether `number` is a value of the pool.
    pub fn contains(&self, number: usize) -> (r: bool)
        ensures
            r == self.members().contains(number),
    {
        match self {
            PoolType::Values(set) => set.contains(&number),
            PoolType::MinMax(min, max) => *min <= number && *max >= number,
        }
    }

    /// Whether the pool has no value.
    pub fn is_empty(&self) -> (r: bool)
        ensures
            r == self.members().is_empty(),
            r == (self.members().len() == 0),
    {
        proof {
            self.lemma_finite();
            if self.members().len() == 0 {
                self.members().lemma_len0_is_empty();
            }
        }
        match self {
            PoolType::Values(set) => set.is_empty(),
            PoolType::MinMax(min, max) => {
                proof {
                    lemma_span_len(*min, *max);
                }
                *min > *max
            },
        }
    }

    /// Whether the pool has exactly `n` values.
    pub fn len_is(&self, n: usize) -> (r: bool)
        ensures
            r == (self.members().len() == n),
    {
        match self {
            PoolType::Values(set) => set.len() == n,
            PoolType::MinMax(min, max) => {
                proof {
                    lemma_span_len(*min, *max);
                }
                if *min > *max {
                    n == 0
                } else {
                    n > 0 && *max - *min == n - 1
                }
            },
        }
    }

    /// The number of values of the pool, which must fit into the machine's
    /// numbers: the range of all of them has one value too many.
    pub fn len(&self) -> (r: usize)
        requires
            self.members().len() <= usize::MAX,
        ensures
            r == self.members().len(),
    {
        match self {
            PoolType::Values(set) => set.len(),
            PoolType::MinMax(min, max) => {
                proof {
                    lemma_span_len(*min, *max);
                }
                if *min > *max {
                    0
                } else {
                    *max - *min + 1
                }
            },
        }
    }
}

/// A pool, how many numbers must come from it, and the key under which a
/// rule keeps it.
#[derive(Clone, Debug)]
pub struct NumberPoolItem {
    pool: PoolType,
    needs: usize,
    key: String,
}

/// A pool with how many numbers must come from it, how many of a sequence do
/// and how many are still missing.
#[derive(Clone, Debug)]
pub struct NumberPoolItemFull {
    pool: PoolType,
    needs: usize,
    has: usize,
    missing: usize,
}

/// What a rule knows of one pool.
pub struct PoolEntry {
    pub key: Seq<char>,
    pub members: Set<usize>,
    pub needs: usize,
    pub has: usize,
    pub missing: usize,
}

/// What a rule knows of one pool, written out as
/// `key: needs N, has H, missing M`.
pub open spec fn pool_text(e: PoolEntry) -> Seq<char> {
    e.key + ": needs "@ + decimal(e.needs as nat) + ", has "@ + decimal(e.has as nat)
        + ", missing "@ + decimal(e.missing as nat)
}

/// The pools `entries` written out, one after the other, with `, ` between
/// them.
pub open spec fn pools_text(entries: Seq<PoolEntry>) -> Seq<char>
    decreases entries.len(),
{
    if entries.len() == 0 {
        Seq::empty()
    } else if entries.len() == 1 {
        pool_text(entries[0])
    } else {
        pools_text(entries.drop_last()) + ", "@ + pool_text(entries.last())
    }
}

/// How many of `numbers` are values of `members`; a number that occurs twice
/// is counted twice.
pub open spec fn count_in(members: Set<usize>, numbers: Seq<usize>) -> nat
    decreases numbers.len(),
{
    if numbers.len() == 0 {
        0
    } else {
        count_in(members, numbers.drop_last()) + if members.contains(numbers.last()) {
            1nat
        } else {
            0nat
        }
    }
}

/// No more numbers are values of a pool than there are numbers, and no fewer
/// than the pool has values among them.
pub proof fn lemma_count_in(members: Set<usize>, numbers: Seq<usize>)
    ensures
        count_in(members, numbers) <= numbers.len(),
        has_of(members, numbers.to_set()) <= count_in(members, numbers),
    decreases numbers.len(),
{
    if numbers.len() == 0 {
        assert(numbers.to_set() =~= Set::<usize>::empty());
        assert(members.intersect(numbers.to_set()) =~= Set::<usize>::empty());
    } else {
        let p = numbers.drop_last();
        let x = numbers.last();
        lemma_count_in(members, p);
        vstd::seq_lib::seq_to_set_is_finite(p);
        assert(numbers =~= p.push(x));
        p.lemma_push_to_set_commute(x);
        if p.to_set().contains(x) {
            assert(p.to_set().insert(x) =~= p.to_set());
        } else {
            crate::sets::lemma_intersect_insert(p.to_set(), members, x);
            assert(p.to_set().insert(x).intersect(members) =~= members.intersect(
                p.to_set().insert(x),
            ));
            assert(p.to_set().intersect(members) =~= members.intersect(p.to_set()));
        }
    }
}

/// The entry `e` judged by the sequence `numbers`.
pub open spec fn recount(e: PoolEntry, numbers: Seq<usize>) -> PoolEntry {
    let has = count_in(e.members, numbers);
    PoolEntry {
        key: e.key,
        members: e.members,
        needs: e.needs,
        has: has as usize,
        missing: missing_of(e.needs, has) as usize,
    }
}

/// How many values of `members` occur among `numbers`.
pub open spec fn has_of(members: Set<usize>, numbers: Set<usize>) -> nat {
    members.intersect(numbers).len()
}

/// How many numbers a pool still lacks.
pub open spec fn missing_of(needs: usize, has: nat) -> nat {
    if has > needs {
        0
    } else {
        (needs - has) as nat
    }
}

/// The entry `e` judged by the numbers `numbers`. With `set_needs_eq_match`
/// the entry asks for exactly what it has.
pub open spec fn assess(e: PoolEntry, numbers: Set<usize>, set_needs_eq_match: bool) -> PoolEntry {
    let has = has_of(e.members, numbers);
    PoolEntry {
        key: e.key,
        members: e.members,
        needs: if set_needs_eq_match {
            has as usize
        } else {
            e.needs
        },
        has: has as usize,
        missing: missing_of(e.needs, has) as usize,
    }
}

/// The keys of `entries`.
pub open spec fn keys_of(entries: Seq<PoolEntry>) -> Seq<Seq<char>> {
    entries.map_values(|e: PoolEntry| e.key)
}

/// `entries` with `e` in the place of the first entry of its key, or behind
/// the others where its key is new.
pub open spec fn put(entries: Seq<PoolEntry>, e: PoolEntry) -> Seq<PoolEntry> {
    if keys_of(entries).contains(e.key) {
        entries.update(first_index(keys_of(entries), e.key), e)
    } else {
        entries.push(e)
    }
}

/// The entries that remain when `items` are put one after the other: of two
/// with one key the later one, in the place of the earlier.
pub open spec fn put_all(items: Seq<PoolEntry>) -> Seq<PoolEntry>
    decreases items.len(),
{
    if items.len() == 0 {
        Seq::empty()
    } else {
        put(put_all(items.drop_last()), items.last())
    }
}

/// How many numbers the pools of `entries` lack together in the sequence
/// `numbers`.
pub open spec fn total_lacking(entries: Seq<PoolEntry>, numbers: Seq<usize>) -> nat
    decreases entries.len(),
{
    if entries.len() == 0 {
        0
    } else {
        total_lacking(entries.drop_last(), numbers) + missing_of(
            entries.last().needs,
            count_in(entries.last().members, numbers),
        )
    }
}

/// How many numbers the pools of `entries` ask for together.
pub open spec fn total_needs(entries: Seq<PoolEntry>) -> nat
    decreases entries.len(),
{
    if entries.len() == 0 {
        0
    } else {
        total_needs(entries.drop_last()) + entries.last().needs as nat
    }
}

/// Items with distinct keys stay as they are when they are put one after the
/// other.
pub proof fn lemma_put_all_distinct(items: Seq<PoolEntry>)
    requires
        keys_of(items).no_duplicates(),
    ensures
        put_all(items) == items,
    decreases items.len(),
{
    if items.len() > 0 {
        let p = items.drop_last();
        assert(keys_of(p) =~= keys_of(items).drop_last());
        lemma_put_all_distinct(p);
        if keys_of(p).contains(items.last().key) {
            let j = choose|j: int| 0 <= j < keys_of(p).len() && keys_of(p)[j] == items.last().key;
            assert(keys_of(items)[j] == keys_of(items)[items.len() - 1]);
        }
        assert(p.push(items.last()) =~= items);
    }
}

impl NumberPoolItem {
    /// What a rule knows of the pool before any number is selected.
    pub closed spec fn entry(&self) -> PoolEntry {
        PoolEntry {
            key: self.key@,
            members: self.pool.members(),
            needs: self.needs,
            has: 0,
            missing: self.needs,
        }
    }

    /// The pool `pool`, from which `needs` numbers must come, under `key`.
    pub fn new(key: &str, pool: &PoolType, needs: usize) -> (r: NumberPoolItem)
        ensures
            r.entry() == (PoolEntry {
                key: key@,
                members: pool.members(),
                needs,
                has: 0,
                missing: needs,
            }),
    {
        NumberPoolItem { pool: pool.duplicate(), needs, key: key.to_owned() }
    }
}

impl NumberPoolItemFull {
    /// The pool.
    pub closed spec fn spec_pool(&self) -> PoolType {
        self.pool
    }

    /// How many numbers must come from the pool.
    pub closed spec fn spec_needs(&self) -> usize {
        self.needs
    }

    /// How many numbers come from the pool.
    pub closed spec fn spec_has(&self) -> usize {
        self.has
    }

    /// How many numbers are missing.
    pub closed spec fn spec_missing(&self) -> usize {
        self.missing
    }

    /// What a rule knows of the pool, kept under `key`.
    pub open spec fn entry(&self, key: Seq<char>) -> PoolEntry {
        PoolEntry {
            key,
            members: self.spec_pool().members(),
            needs: self.spec_needs(),
            has: self.spec_has(),
            missing: self.spec_missing(),
        }
    }

    /// A pool with its counts.
    pub fn new(pool: &PoolType, needs: usize, has: usize, missing: usize) -> (r:
        NumberPoolItemFull)
        ensures
            r.spec_pool().members() == pool.members(),
            r.spec_needs() == needs,
            r.spec_has() == has,
            r.spec_missing() == missing,
    {
        NumberPoolItemFull { pool: pool.duplicate(), needs, has, missing }
    }

    /// The pool.
    pub fn pool(&self) -> (r: &PoolType)
        ensures
            *r == self.spec_pool(),
    {
        &self.pool
    }

    /// How many numbers must come from the pool.
    pub fn needs(&self) -> (r: usize)
        ensures
            r == self.spec_needs(),
    {
        self.needs
    }

    /// How many numbers come from the pool.
    pub fn has(&self) -> (r: usize)
        ensures
            r == self.spec_has(),
    {
        self.has
    }

    /// How many numbers are missing.
    pub fn missing(&self) -> (r: usize)
        ensures
            r == self.spec_missing(),
    {
        self.missing
    }

    /// A copy with the same pool values and counts.
    pub fn duplicate(&self) -> (r: NumberPoolItemFull)
        ensures
            forall|key: Seq<char>| #[trigger] r.entry(key) == self.entry(key),
    {
        NumberPoolItemFull {
            pool: self.pool.duplicate(),
            needs: self.needs,
            has: self.has,
            missing: self.missing,
        }
    }
}

/// The entries that a map of pools stands for.
pub open spec fn entries_of(map: &StringMap<NumberPoolItemFull>) -> Seq<PoolEntry> {
    Seq::new(map.spec_len(), |i: int| map.value_seq()[i].entry(map.key_seq()[i]))
}

/// Binding a key in a map of pools puts the entry among those that the map
/// stands for.
pub proof fn lemma_insert_puts(
    before: &StringMap<NumberPoolItemFull>,
    after: &StringMap<NumberPoolItemFull>,
    key: Seq<char>,
    value: NumberPoolItemFull,
)
    requires
        after.key_seq() == before.keys_after_insert(key),
        after.value_seq() == before.values_after_insert(key, value),
    ensures
        entries_of(after) == put(entries_of(before), value.entry(key)),
{
    before.lemma_lengths();
    after.lemma_lengths();
    assert(keys_of(entries_of(before)) =~= before.key_seq());
    if before.key_seq().contains(key) {
        lemma_first_index_holds(before.key_seq(), key);
    }
    assert(entries_of(after) =~= put(entries_of(before), value.entry(key)));
}

/// For each of several pools, how many numbers of a sequence must come from
/// it. The pools are kept by key, no key twice, in the order in which the
/// keys were first given.
#[derive(Debug)]
pub struct NumberPool {
    number_pool_items: StringMap<NumberPoolItemFull>,
}

impl Clone for NumberPool {
    /// A rule with the same pools and counts.
    fn clone(&self) -> (r: NumberPool)
        ensures
            r.entries() == self.entries(),
    {
        proof {
            use_type_invariant(self);
            self.number_pool_items.lemma_lengths();
        }
        let mut items: Vec<(&str, NumberPoolItemFull)> = Vec::new();
        let mut i: usize = 0;
        while i < self.number_pool_items.len()
            invariant
                i <= self.number_pool_items.spec_len(),
                items@.len() == i,
                forall|j: int|
                    0 <= j < i ==> (#[trigger] items@[j]).1.entry(items@[j].0@)
                        == self.entries()[j],
            decreases self.number_pool_items.spec_len() - i,
        {
            let key = self.number_pool_items.key_at(i);
            let value = self.number_pool_items.value_at(i).duplicate();
            items.push((key.as_str(), value));
            i += 1;
        }
        let r = NumberPool::from_number_pool_item_full(items.as_slice());
        proof {
            let e = items@.map_values(|x: (&str, NumberPoolItemFull)| x.1.entry(x.0@));
            assert(e =~= self.entries());
            assert(keys_of(self.entries()) =~= self.number_pool_items.key_seq());
            lemma_put_all_distinct(self.entries());
        }
        r
    }
}

/// The letters of the alphabet, small and capital.
pub open spec fn alphabet_text() -> Seq<char> {
    "abcdefghijklmnopqrstuvwxyzABCDEFGHIJKLMNOPQRSTUVWXYZ"@
}

/// The ten digits.
pub open spec fn numeric_text() -> Seq<char> {
    "0123456789"@
}

/// The special characters.
pub open spec fn special_char_text() -> Seq<char> {
    "!@#$%^&*()-+="@
}

/// The characters of `text`, one after the other.
pub fn chars_of(text: &str) -> (r: Vec<char>)
    ensures
        r@ == text@,
{
    let n = text.unicode_len();
    let mut r: Vec<char> = Vec::new();
    let mut i: usize = 0;
    while i < n
        invariant
            i <= n,
            n == text@.len(),
            r@ == text@.take(i as int),
        decreases n - i,
    {
        r.push(text.get_char(i));
        assert(r@ =~= text@.take(i + 1));
        i += 1;
    }
    assert(r@ =~= text@);
    r
}

/// The letters of the alphabet, small and capital.
pub fn np_alphabet_set() -> (r: Vec<char>)
    ensures
        r@ == alphabet_text(),
{
    chars_of("abcdefghijklmnopqrstuvwxyzABCDEFGHIJKLMNOPQRSTUVWXYZ")
}

/// The ten digits.
pub fn np_numeric_set() -> (r: Vec<char>)
    ensures
        r@ == numeric_text(),
{
    chars_of("0123456789")
}

/// The special characters.
pub fn np_special_char_set() -> (r: Vec<char>)
    ensures
        r@ == special_char_text(),
{
    chars_of("!@#$%^&*()-+=")
}

/// The entries of a rule for text: so many letters, digits and special
/// characters.
pub open spec fn alphanumeric_entries(
    alpha_count: usize,
    numeric_count: usize,
    special_char_count: usize,
) -> Seq<PoolEntry> {
    seq![
        PoolEntry {
            key: "alpha_set"@,
            members: code_set(alphabet_text()),
            needs: alpha_count,
            has: 0,
            missing: alpha_count,
        },
        PoolEntry {
            key: "numeric_set"@,
            members: code_set(numeric_text()),
            needs: numeric_count,
            has: 0,
            missing: numeric_count,
        },
        PoolEntry {
            key: "special_char_set"@,
            members: code_set(special_char_text()),
            needs: special_char_count,
            has: 0,
            missing: special_char_count,
        },
    ]
}

/// How many positions of a sequence of `count` are still free behind `len`
/// numbers.
pub open spec fn remaining(count: usize, len: nat) -> nat {
    if len > count {
        0
    } else {
        (count - len) as nat
    }
}

impl NumberPool {
    /// What the rule knows of its pools, in the order of the keys.
    pub closed spec fn entries(&self) -> Seq<PoolEntry> {
        entries_of(&self.number_pool_items)
    }

    #[verifier::type_invariant]
    spec fn keys_distinct(&self) -> bool {
        self.number_pool_items.distinct()
    }

    /// A rule for a text of `count` characters of letters and digits, and of
    /// special characters where `include_special_char` is set. It asks for
    /// one digit, or for one to three where `count` is ten or more; for no
    /// special character, one, or one or two where `count` is ten or more;
    /// and for letters in the rest. `count` must be two at least, three with
    /// special characters.
    pub fn alphanumeric(count: usize, include_special_char: bool, random: &dyn RandomTrait) -> (r:
        NumberPool)
        requires
            count >= 2,
            include_special_char ==> count >= 3,
        ensures
            exists|alpha: usize, numeric: usize, special: usize|
                {
                    &&& alpha + numeric + special == count
                    &&& 1 <= numeric <= 3
                    &&& count < 10 ==> numeric == 1
                    &&& special <= 2
                    &&& !include_special_char ==> special == 0
                    &&& include_special_char ==> special >= 1
                    &&& count < 10 ==> special <= 1
                    &&& r.entries() == #[trigger] alphanumeric_entries(alpha, numeric, special)
                },
    {
        let mut numeric_count: usize = 1;
        let mut special_char_count: usize = if include_special_char {
            1
        } else {
            0
        };
        if count >= 10 {
            numeric_count = random.get_number(1, 3);
        }
        if include_special_char && count >= 10 {
            special_char_count = random.get_number(1, 2);
        }
        let alpha_count = count - numeric_count - special_char_count;
        NumberPool::alphanumeric_specs(alpha_count, numeric_count, special_char_count)
    }

    /// A rule for text with `alpha_count` letters, `numeric_count` digits and
    /// `special_char_count` special characters.
    pub fn alphanumeric_specs(
        alpha_count: usize,
        numeric_count: usize,
        special_char_count: usize,
    ) -> (r: NumberPool)
        ensures
            r.entries() == alphanumeric_entries(alpha_count, numeric_count, special_char_count),
    {
        let mut items: Vec<NumberPoolItem> = Vec::new();
        items.push(NumberPoolItem::new("alpha_set", &PoolType::new(&np_alphabet_set()), alpha_count));
        items.push(
            NumberPoolItem::new("numeric_set", &PoolType::new(&np_numeric_set()), numeric_count),
        );
        items.push(
            NumberPoolItem::new(
                "special_char_set",
                &PoolType::new(&np_special_char_set()),
                special_char_count,
            ),
        );
        let r = NumberPool::new(items.as_slice());
        proof {
            reveal_strlit("alpha_set");
            reveal_strlit("numeric_set");
            reveal_strlit("special_char_set");
            let e = items@.map_values(|x: NumberPoolItem| x.entry());
            assert(e =~= alphanumeric_entries(alpha_count, numeric_count, special_char_count));
            assert(keys_of(e).no_duplicates()) by {
                assert(keys_of(e)[0].len() == 9);
                assert(keys_of(e)[1].len() == 11);
                assert(keys_of(e)[2].len() == 16);
            }
            lemma_put_all_distinct(e);
        }
        r
    }

    /// A rule over `number_pool_items`. Of two items with one key the later
    /// one counts, in the place of the earlier.
    pub fn new(number_pool_items: &[NumberPoolItem]) -> (r: NumberPool)
        ensures
            r.entries() == put_all(number_pool_items@.map_values(|x: NumberPoolItem| x.entry())),
    {
        let ghost items = number_pool_items@.map_values(|x: NumberPoolItem| x.entry());
        let mut map: StringMap<NumberPoolItemFull> = StringMap::new();
        let mut i: usize = 0;
        proof {
            map.lemma_lengths();
            assert(items.take(0) =~= Seq::empty());
            assert(entries_of(&map) =~= put_all(items.take(0)));
        }
        while i < number_pool_items.len()
            invariant
                i <= number_pool_items@.len(),
                items == number_pool_items@.map_values(|x: NumberPoolItem| x.entry()),
                map.distinct(),
                entries_of(&map) == put_all(items.take(i as int)),
            decreases number_pool_items@.len() - i,
        {
            let x = &number_pool_items[i];
            let full = NumberPoolItemFull {
                pool: x.pool.duplicate(),
                needs: x.needs,
                has: 0,
                missing: x.needs,
            };
            let ghost before = map;
            map.insert(x.key.clone(), full);
            proof {
                lemma_insert_puts(&before, &map, x.key@, full);
                assert(full.entry(x.key@) == items[i as int]);
                assert(items.take(i + 1).drop_last() =~= items.take(i as int));
            }
            i += 1;
        }
        assert(items.take(items.len() as int) =~= items);
        NumberPool { number_pool_items: map }
    }

    /// A rule over pools with given counts, each under its key. Of two with
    /// one key the later one counts, in the place of the earlier.
    pub fn from_number_pool_item_full(number_pool_items: &[(&str, NumberPoolItemFull)]) -> (r:
        NumberPool)
        ensures
            r.entries() == put_all(
                number_pool_items@.map_values(|x: (&str, NumberPoolItemFull)| x.1.entry(x.0@)),
            ),
    {
        let ghost items = number_pool_items@.map_values(
            |x: (&str, NumberPoolItemFull)| x.1.entry(x.0@),
        );
        let mut map: StringMap<NumberPoolItemFull> = StringMap::new();
        let mut i: usize = 0;
        proof {
            map.lemma_lengths();
            assert(items.take(0) =~= Seq::empty());
            assert(entries_of(&map) =~= put_all(items.take(0)));
        }
        while i < number_pool_items.len()
            invariant
                i <= number_pool_items@.len(),
                items == number_pool_items@.map_values(
                    |x: (&str, NumberPoolItemFull)| x.1.entry(x.0@),
                ),
                map.distinct(),
                entries_of(&map) == put_all(items.take(i as int)),
            decreases number_pool_items@.len() - i,
        {
            let x = &number_pool_items[i];
            let full = x.1.duplicate();
            let ghost before = map;
            map.insert(x.0.to_owned(), full);
            proof {
                lemma_insert_puts(&before, &map, x.0@, full);
                assert(full.entry(x.0@) == items[i as int]);
                assert(items.take(i + 1).drop_last() =~= items.take(i as int));
            }
            i += 1;
        }
        assert(items.take(items.len() as int) =~= items);
        NumberPool { number_pool_items: map }
    }

    /// The rule over the pools of `number_pool_items`, judged anew by the
    /// sequence `numbers`: each pool has as many numbers as are values of it.
    fn from_numbers_2(number_pool_items: &StringMap<NumberPoolItemFull>, numbers: &[usize]) -> (r:
        NumberPool)
        requires
            number_pool_items.distinct(),
        ensures
            r.entries() == entries_of(number_pool_items).map_values(
                |e: PoolEntry| recount(e, numbers@),
            ),
    {
        let ghost given = entries_of(number_pool_items);
        let mut items: Vec<(&str, NumberPoolItemFull)> = Vec::new();
        let mut i: usize = 0;
        proof {
            number_pool_items.lemma_lengths();
        }
        while i < number_pool_items.len()
            invariant
                i <= number_pool_items.spec_len(),
                items@.len() == i,
                given == entries_of(number_pool_items),
                given.len() == number_pool_items.spec_len(),
                forall|j: int|
                    0 <= j < i ==> (#[trigger] items@[j]).1.entry(items@[j].0@) == recount(
                        given[j],
                        numbers@,
                    ),
            decreases number_pool_items.spec_len() - i,
        {
            let v = number_pool_items.value_at(i);
            let match_count = v.pool.count(numbers);
            let missing = if match_count > v.needs {
                0
            } else {
                v.needs - match_count
            };
            let full = NumberPoolItemFull {
                pool: v.pool.duplicate(),
                needs: v.needs,
                has: match_count,
                missing,
            };
            items.push((number_pool_items.key_at(i).as_str(), full));
            i += 1;
        }
        let r = NumberPool::from_number_pool_item_full(items.as_slice());
        proof {
            let fresh = items@.map_values(|x: (&str, NumberPoolItemFull)| x.1.entry(x.0@));
            let wanted = given.map_values(|e: PoolEntry| recount(e, numbers@));
            assert(fresh =~= wanted);
            assert(keys_of(wanted) =~= number_pool_items.key_seq());
            lemma_put_all_distinct(wanted);
        }
        r
    }

    /// The rule over `number_pool_items` with each pool judged by
    /// `numbers_set`: how many of the set's numbers it holds and how many it
    /// still lacks. With `set_needs_eq_match` each pool asks for exactly what
    /// it holds.
    pub fn from_numbers(
        number_pool_items: &[NumberPoolItem],
        numbers_set: &HashSet<usize>,
        set_needs_eq_match: bool,
    ) -> (r: NumberPool)
        ensures
            r.entries() == put_all(
                number_pool_items@.map_values(
                    |x: NumberPoolItem| assess(x.entry(), numbers_set@, set_needs_eq_match),
                ),
            ),
    {
        let ghost items = number_pool_items@.map_values(
            |x: NumberPoolItem| assess(x.entry(), numbers_set@, set_needs_eq_match),
        );
        let mut map: StringMap<NumberPoolItemFull> = StringMap::new();
        let mut i: usize = 0;
        proof {
            map.lemma_lengths();
            assert(items.take(0) =~= Seq::empty());
            assert(entries_of(&map) =~= put_all(items.take(0)));
        }
        while i < number_pool_items.len()
            invariant
                i <= number_pool_items@.len(),
                items == number_pool_items@.map_values(
                    |x: NumberPoolItem| assess(x.entry(), numbers_set@, set_needs_eq_match),
                ),
                map.distinct(),
                entries_of(&map) == put_all(items.take(i as int)),
            decreases number_pool_items@.len() - i,
        {
            let number_pool_item = &number_pool_items[i];
            let match_count = number_pool_item.pool.has(numbers_set);
            let missing = if match_count > number_pool_item.needs {
                0
            } else {
                number_pool_item.needs - match_count
            };
            let full = NumberPoolItemFull {
                pool: number_pool_item.pool.duplicate(),
                needs: if set_needs_eq_match {
                    match_count
                } else {
                    number_pool_item.needs
                },
                has: match_count,
                missing,
            };
            let ghost before = map;
            map.insert(number_pool_item.key.clone(), full);
            proof {
                lemma_insert_puts(&before, &map, number_pool_item.key@, full);
                assert(full.entry(number_pool_item.key@) == items[i as int]);
                assert(items.take(i + 1).drop_last() =~= items.take(i as int));
            }
            i += 1;
        }
        assert(items.take(items.len() as int) =~= items);
        NumberPool { number_pool_items: map }
    }

    /// The pools with their counts, by key.
    pub fn number_pool_items(&self) -> (r: &StringMap<NumberPoolItemFull>)
        ensures
            entries_of(r) == self.entries(),
            r.distinct(),
    {
        proof {
            use_type_invariant(self);
        }
        &self.number_pool_items
    }

    /// The pool kept under `key`, with its counts.
    pub fn number_pool_item(&self, key: &str) -> (r: Option<&NumberPoolItemFull>)
        ensures
            match r {
                Some(v) => keys_of(self.entries()).contains(key@) && v.entry(key@)
                    == self.entries()[first_index(keys_of(self.entries()), key@)],
                None => !keys_of(self.entries()).contains(key@),
            },
    {
        proof {
            self.number_pool_items.lemma_lengths();
            assert(keys_of(self.entries()) =~= self.number_pool_items.key_seq());
            if self.number_pool_items.key_seq().contains(key@) {
                lemma_first_index_holds(self.number_pool_items.key_seq(), key@);
            }
        }
        match self.number_pool_items.position(key) {
            Some(i) => Some(self.number_pool_items.value_at(i)),
            None => None,
        }
    }

    /// The pool kept under `key`.
    pub fn pool(&self, key: &str) -> (r: Option<&PoolType>)
        ensures
            match r {
                Some(v) => keys_of(self.entries()).contains(key@) && v.members()
                    == self.entries()[first_index(keys_of(self.entries()), key@)].members,
                None => !keys_of(self.entries()).contains(key@),
            },
    {
        match self.number_pool_item(key) {
            Some(v) => Some(&v.pool),
            None => None,
        }
    }

    /// How many numbers come from the pool kept under `key`.
    pub fn has(&self, key: &str) -> (r: Option<usize>)
        ensures
            match r {
                Some(v) => keys_of(self.entries()).contains(key@) && v
                    == self.entries()[first_index(keys_of(self.entries()), key@)].has,
                None => !keys_of(self.entries()).contains(key@),
            },
    {
        match self.number_pool_item(key) {
            Some(v) => Some(v.has),
            None => None,
        }
    }

    /// How many numbers must come from the pool kept under `key`.
    pub fn needs(&self, key: &str) -> (r: Option<usize>)
        ensures
            match r {
                Some(v) => keys_of(self.entries()).contains(key@) && v
                    == self.entries()[first_index(keys_of(self.entries()), key@)].needs,
                None => !keys_of(self.entries()).contains(key@),
            },
    {
        match self.number_pool_item(key) {
            Some(v) => Some(v.needs),
            None => None,
        }
    }

    /// How many numbers the pool kept under `key` lacks.
    pub fn missing(&self, key: &str) -> (r: Option<usize>)
        ensures
            match r {
                Some(v) => keys_of(self.entries()).contains(key@) && v
                    == self.entries()[first_index(keys_of(self.entries()), key@)].missing,
                None => !keys_of(self.entries()).contains(key@),
            },
    {
        match self.number_pool_item(key) {
            Some(v) => Some(v.missing),
            None => None,
        }
    }

    /// The first pool, in the order of the keys, from which a number comes.
    pub fn find_first_has_value(&self) -> (r: Option<&NumberPoolItemFull>)
        ensures
            match r {
                Some(v) => exists|i: int|
                    0 <= i < self.entries().len() && (#[trigger] self.entries()[i]).has > 0
                        && v.entry(self.entries()[i].key) == self.entries()[i] && forall|j: int|
                        0 <= j < i ==> (#[trigger] self.entries()[j]).has == 0,
                None => forall|i: int|
                    0 <= i < self.entries().len() ==> (#[trigger] self.entries()[i]).has == 0,
            },
    {
        proof {
            self.number_pool_items.lemma_lengths();
        }
        let mut i: usize = 0;
        while i < self.number_pool_items.len()
            invariant
                i <= self.number_pool_items.spec_len(),
                self.entries().len() == self.number_pool_items.spec_len(),
                forall|j: int| 0 <= j < i ==> (#[trigger] self.entries()[j]).has == 0,
            decreases self.number_pool_items.spec_len() - i,
        {
            let number_pool_item = self.number_pool_items.value_at(i);
            if number_pool_item.has() > 0 {
                assert(self.entries()[i as int].has > 0);
                return Some(number_pool_item);
            }
            i += 1;
        }
        None
    }

    /// The pools written out as `{a: needs 2, has 0, missing 2, b: ...}`, in
    /// the order of the keys.
    pub open spec fn text(&self) -> Seq<char> {
        "{"@ + pools_text(self.entries()) + "}"@
    }

    /// The pools written out as `{a: needs 2, has 0, missing 2, b: ...}`, in
    /// the order of the keys.
    pub fn to_string(&self) -> (r: String)
        ensures
            r@ == self.text(),
    {
        let mut body = String::new();
        let mut i: usize = 0;
        proof {
            self.number_pool_items.lemma_lengths();
            assert(self.entries().take(0) =~= Seq::empty());
        }
        while i < self.number_pool_items.len()
            invariant
                i <= self.number_pool_items.spec_len(),
                self.entries().len() == self.number_pool_items.spec_len(),
                body@ == pools_text(self.entries().take(i as int)),
            decreases self.number_pool_items.spec_len() - i,
        {
            let ghost before = body@;
            if i > 0 {
                body.append(", ");
            }
            let ghost start = body@;
            let item = self.number_pool_items.value_at(i);
            body.append(self.number_pool_items.key_at(i).as_str());
            body.append(": needs ");
            push_number(&mut body, item.needs);
            body.append(", has ");
            push_number(&mut body, item.has);
            body.append(", missing ");
            push_number(&mut body, item.missing);
            proof {
                let part = self.entries().take(i + 1);
                assert(part.drop_last() =~= self.entries().take(i as int));
                assert(part.last() == self.entries()[i as int]);
                assert(body@ =~= start + pool_text(part.last()));
                if i == 0 {
                    assert(before =~= Seq::<char>::empty());
                    assert(body@ =~= pool_text(part[0]));
                } else {
                    assert(body@ =~= before + ", "@ + pool_text(part.last()));
                }
            }
            i += 1;
        }
        assert(self.entries().take(self.entries().len() as int) =~= self.entries());
        let mut r = String::from_str("{");
        r.append(body.as_str());
        r.append("}");
        r
    }
}

/// Where every value of a pool occurs among the numbers, at least as many
/// numbers are values of the pool as the pool has values.
pub proof fn lemma_count_covers(members: Set<usize>, numbers: Seq<usize>)
    requires
        members.difference(numbers.to_set()).is_empty(),
    ensures
        count_in(members, numbers) >= members.len(),
{
    assert(members.intersect(numbers.to_set()) =~= members) by {
        assert forall|x: usize| members.contains(x) implies numbers.to_set().contains(x) by {
            if !numbers.to_set().contains(x) {
                assert(members.difference(numbers.to_set()).contains(x));
            }
        }
    }
    lemma_count_in(members, numbers);
}

/// What the first pools of a list lack and ask for, with one pool more.
pub proof fn lemma_total_take(entries: Seq<PoolEntry>, numbers: Seq<usize>, i: int)
    requires
        0 <= i < entries.len(),
    ensures
        total_lacking(entries.take(i + 1), numbers) == total_lacking(entries.take(i), numbers)
            + missing_of(entries[i].needs, count_in(entries[i].members, numbers)),
        total_needs(entries.take(i + 1)) == total_needs(entries.take(i)) + entries[i].needs,
{
    assert(entries.take(i + 1).drop_last() =~= entries.take(i));
    assert(entries.take(i + 1).last() == entries[i]);
}

/// What is reported of a pool that has no value to give.
pub open spec fn empty_pool_text(key: Seq<char>) -> Seq<char> {
    "No number can be drawn from the empty pool "@ + key
}

/// What is reported of a pool that lacks numbers and has none left that is
/// not selected yet.
pub open spec fn exhausted_pool_text(key: Seq<char>) -> Seq<char> {
    "No unused number can be drawn from the pool "@ + key
}

/// The report of an exhausted pool is not the word with which a rule
/// declines.
proof fn lemma_exhausted_pool_is_no_skip(key: Seq<char>)
    ensures
        exhausted_pool_text(key) != skip_text(),
{
    reveal_strlit("No unused number can be drawn from the pool ");
    reveal_strlit("Skip");
    assert(exhausted_pool_text(key).len() > 4);
    assert(skip_text().len() == 4);
}

impl NumberPool {
    /// Whether the pool at `i` lacks numbers in a sequence of `numbers`.
    pub open spec fn lacks(&self, numbers: Seq<usize>, i: int) -> bool {
        missing_of(self.entries()[i].needs, count_in(self.entries()[i].members, numbers)) > 0
    }

    /// Whether `x` is a value of a pool that lacks numbers in a sequence of
    /// `numbers`, and none of `numbers`.
    pub open spec fn from_lacking(&self, numbers: Seq<usize>, x: usize) -> bool {
        !numbers.contains(x) && exists|j: int|
            0 <= j < self.entries().len() && self.lacks(numbers, j) && (
            #[trigger] self.entries()[j]).members.contains(x)
    }

    /// Whether `v` holds a value of the pool at `i` that is none of `numbers`.
    pub open spec fn served(&self, numbers: Seq<usize>, i: int, v: Seq<usize>) -> bool {
        exists|k: int|
            0 <= k < v.len() && self.entries()[i].members.contains(#[trigger] v[k])
                && !numbers.contains(v[k])
    }

    /// A pool that a proposal serves is served by every proposal that begins
    /// with it.
    pub proof fn lemma_served_kept(
        &self,
        numbers: Seq<usize>,
        before: Seq<usize>,
        after: Seq<usize>,
        i: int,
    )
        requires
            before.len() <= after.len(),
            forall|k: int| 0 <= k < before.len() ==> after[k] == before[k],
            forall|j: int|
                0 <= j < i && self.lacks(numbers, j) ==> #[trigger] self.served(numbers, j, before),
        ensures
            forall|j: int|
                0 <= j < i && self.lacks(numbers, j) ==> #[trigger] self.served(numbers, j, after),
    {
        assert forall|j: int| 0 <= j < i && self.lacks(numbers, j) implies #[trigger] self.served(
            numbers,
            j,
            after,
        ) by {
            assert(self.served(numbers, j, before));
            let k = choose|k: int|
                0 <= k < before.len() && self.entries()[j].members.contains(#[trigger] before[k])
                    && !numbers.contains(before[k]);
            assert(after[k] == before[k]);
        }
    }

    /// Whether no pool has more of `numbers` than it asks for.
    pub open spec fn no_excess(&self, numbers: Seq<usize>) -> bool {
        forall|i: int|
            0 <= i < self.entries().len() ==> count_in(
                (#[trigger] self.entries()[i]).members,
                numbers,
            ) <= self.entries()[i].needs
    }

    /// Whether every pool has exactly as many of `numbers` as it asks for.
    pub open spec fn all_met(&self, numbers: Seq<usize>) -> bool {
        forall|i: int|
            0 <= i < self.entries().len() ==> count_in(
                (#[trigger] self.entries()[i]).members,
                numbers,
            ) == self.entries()[i].needs
    }

    /// The pools judged by the sequence in `current_data`.
    fn judged(&self, current_data: &CurrentData) -> (r: NumberPool)
        ensures
            r.entries().len() == self.entries().len(),
            forall|i: int|
                0 <= i < self.entries().len() ==> {
                    let e = #[trigger] r.entries()[i];
                    let g = self.entries()[i];
                    &&& e.key == g.key
                    &&& e.members == g.members
                    &&& e.needs == g.needs
                    &&& e.has == count_in(g.members, current_data.numbers())
                    &&& e.missing == missing_of(
                        g.needs,
                        count_in(g.members, current_data.numbers()),
                    )
                },
    {
        proof {
            use_type_invariant(self);
        }
        let numbers = current_data.selected_numbers();
        let r = NumberPool::from_numbers_2(&self.number_pool_items, numbers.as_slice());
        let len = numbers.len();
        proof {
            assert(r.entries().len() == self.entries().len());
            assert forall|i: int| 0 <= i < self.entries().len() implies {
                let e = #[trigger] r.entries()[i];
                let g = self.entries()[i];
                &&& e.key == g.key
                &&& e.members == g.members
                &&& e.needs == g.needs
                &&& e.has == count_in(g.members, numbers@)
                &&& e.missing == missing_of(g.needs, count_in(g.members, numbers@))
            } by {
                let g = self.entries()[i];
                lemma_count_in(g.members, numbers@);
                assert(count_in(g.members, numbers@) <= len);
                assert(r.entries()[i] == recount(g, numbers@));
            }
        }
        r
    }
}

/// The message of an empty pool is not the word with which a rule declines.
pub proof fn lemma_empty_pool_is_no_skip(key: Seq<char>)
    ensures
        empty_pool_text(key) != skip_text(),
{
    reveal_strlit("No number can be drawn from the empty pool ");
    reveal_strlit("Skip");
    assert(empty_pool_text(key).len() > 4);
    assert(skip_text().len() == 4);
}

impl RuleTrait for NumberPool {
    open spec fn name_spec(&self) -> Seq<char> {
        "NumberPool"@
    }

    open spec fn rule_text(&self) -> Seq<char> {
        self.text()
    }

    /// A pool with more numbers than it asks for breaks the rule. Where the
    /// pools lack more numbers together than positions are free, the rule
    /// asks for priority.
    open spec fn within_range_spec(&self, numbers: Seq<usize>, count: usize) -> Option<
        IsWithinErrorType,
    > {
        if !self.no_excess(numbers) {
            Some(IsWithinErrorType::Regular)
        } else if total_lacking(self.entries(), numbers) > remaining(
            count,
            numbers.len(),
        ) {
            Some(IsWithinErrorType::MakePriority)
        } else {
            None
        }
    }

    open spec fn is_match_spec(&self, numbers: Seq<usize>, count: usize) -> bool {
        self.all_met(numbers)
    }

    open spec fn check_count_spec(&self, count: usize) -> bool {
        total_needs(self.entries()) <= count
    }

    open spec fn check_count_text(&self, count: usize) -> Seq<char> {
        count_text("NumberPool"@, total_needs(self.entries()), count)
    }

    open spec fn share_data_spec(&self, current_data: &CurrentData, facts: Option<FactMap>) -> bool {
        facts is None
    }

    /// Declines where no pool lacks numbers. Else the proposal holds, for
    /// each pool that lacks numbers, either every value of the pool that is
    /// not selected yet, where the pool has exactly as many values as it
    /// asks for, or one value of the pool that is not selected yet, and
    /// nothing else; a pool that lacks numbers and has no such value is
    /// reported.
    open spec fn get_numbers_spec(
        &self,
        current_data: &CurrentData,
        result: Result<Vec<usize>, String>,
    ) -> bool {
        let numbers = current_data.numbers();
        let e = self.entries();
        if forall|i: int| 0 <= i < e.len() ==> !self.lacks(numbers, i) {
            result matches Err(m) && m@ == skip_text()
        } else {
            match result {
                Ok(v) => {
                    &&& v@.len() > 0
                    &&& forall|k: int|
                        0 <= k < v@.len() ==> self.from_lacking(numbers, #[trigger] v@[k])
                    &&& forall|i: int|
                        0 <= i < e.len() && self.lacks(numbers, i) ==> #[trigger] self.served(
                            numbers,
                            i,
                            v@,
                        )
                    &&& forall|i: int, x: usize|
                        0 <= i < e.len() && self.lacks(numbers, i) && (
                        #[trigger] e[i]).members.len() == e[i].needs && e[i].members.contains(x)
                            && !numbers.contains(x) ==> #[trigger] v@.contains(x)
                },
                Err(m) => m@ != skip_text() && exists|i: int|
                    0 <= i < e.len() && self.lacks(numbers, i) && (
                    #[trigger] e[i]).members.difference(numbers.to_set()).is_empty() && m@
                        == exhausted_pool_text(e[i].key),
            }
        }
    }

    fn is_within_range(&self, current_data: &CurrentData) -> (r: Result<
        (),
        (IsWithinErrorType, String),
    >) {
        let other_number_pool = self.judged(current_data);
        let items = other_number_pool.number_pool_items();
        let ghost seq = current_data.numbers();
        let ghost e = self.entries();
        let mut total: usize = 0;
        let mut beyond = false;
        let mut i: usize = 0;
        proof {
            items.lemma_lengths();
            assert(e.take(0) =~= Seq::empty());
        }
        while i < items.len()
            invariant
                i <= items.spec_len(),
                items.spec_len() == e.len(),
                e == self.entries(),
                seq == current_data.numbers(),
                entries_of(items) == other_number_pool.entries(),
                forall|k: int|
                    0 <= k < e.len() ==> {
                        let o = #[trigger] other_number_pool.entries()[k];
                        &&& o.needs == e[k].needs
                        &&& o.has == count_in(e[k].members, seq)
                        &&& o.missing == missing_of(e[k].needs, count_in(e[k].members, seq))
                    },
                forall|k: int| 0 <= k < i ==> count_in((#[trigger] e[k]).members, seq) <= e[k].needs,
                !beyond ==> total == total_lacking(e.take(i as int), seq),
                beyond ==> total_lacking(e.take(i as int), seq) > usize::MAX,
            decreases items.spec_len() - i,
        {
            let number_pool_item = items.value_at(i);
            proof {
                let o = other_number_pool.entries()[i as int];
                assert(o == number_pool_item.entry(items.key_seq()[i as int]));
                lemma_total_take(e, seq, i as int);
            }
            if number_pool_item.has > number_pool_item.needs {
                let mut m = String::from_str("Too many from pool \"");
                m.append(items.key_at(i).as_str());
                m.append("\", \"needs\" is ");
                push_number(&mut m, number_pool_item.needs);
                m.append(" and \"has\" ");
                push_number(&mut m, number_pool_item.has);
                m.append(" from this pool");
                assert(!self.no_excess(current_data.numbers()));
                return Err((IsWithinErrorType::Regular, m));
            }
            if !beyond {
                if number_pool_item.missing > usize::MAX - total {
                    beyond = true;
                } else {
                    total += number_pool_item.missing;
                }
            }
            i += 1;
        }
        proof {
            assert(e.take(e.len() as int) =~= e);
            assert(self.no_excess(current_data.numbers()));
        }
        let len_remaining = if current_data.selected_numbers().len() > current_data.count() {
            0
        } else {
            current_data.count() - current_data.selected_numbers().len()
        };
        if beyond || (total > 0 && total > len_remaining) {
            let mut m = String::from_str("Need to pull from number pool, \"missing\" ");
            push_number(&mut m, total);
            m.append(" and there are ");
            push_number(&mut m, len_remaining);
            m.append(" numbers left to pick");
            return Err((IsWithinErrorType::MakePriority, m));
        }
        Ok(())
    }

    fn is_match(&self, current_data: &CurrentData) -> (r: Result<(), String>) {
        let other_number_pool = self.judged(current_data);
        let items = other_number_pool.number_pool_items();
        let ghost seq = current_data.numbers();
        let ghost e = self.entries();
        let mut i: usize = 0;
        proof {
            items.lemma_lengths();
        }
        while i < items.len()
            invariant
                i <= items.spec_len(),
                items.spec_len() == e.len(),
                e == self.entries(),
                seq == current_data.numbers(),
                entries_of(items) == other_number_pool.entries(),
                forall|k: int|
                    0 <= k < e.len() ==> {
                        let o = #[trigger] other_number_pool.entries()[k];
                        &&& o.needs == e[k].needs
                        &&& o.has == count_in(e[k].members, seq)
                    },
                forall|k: int| 0 <= k < i ==> count_in((#[trigger] e[k]).members, seq) == e[k].needs,
            decreases items.spec_len() - i,
        {
            let number_pool_item = items.value_at(i);
            proof {
                let o = other_number_pool.entries()[i as int];
                assert(o == number_pool_item.entry(items.key_seq()[i as int]));
            }
            if number_pool_item.has != number_pool_item.needs {
                let mut m = String::from_str("Expected--Pool:\"");
                m.append(items.key_at(i).as_str());
                m.append("\"--Needs:");
                push_number(&mut m, number_pool_item.needs);
                m.append(". Actual Count:");
                push_number(&mut m, number_pool_item.has);
                assert(!self.all_met(current_data.numbers()));
                return Err(m);
            }
            i += 1;
        }
        Ok(())
    }

    fn get_numbers(&self, current_data: &CurrentData) -> (r: Result<Vec<usize>, String>) {
        let other_number_pool = self.judged(current_data);
        let items = other_number_pool.number_pool_items();
        let selected = current_data.selected_numbers_set();
        let ghost seq = current_data.numbers();
        let ghost set = seq.to_set();
        let ghost e = self.entries();
        let mut numbers: Vec<usize> = Vec::new();
        let mut i: usize = 0;
        proof {
            items.lemma_lengths();
        }
        while i < items.len()
            invariant
                i <= items.spec_len(),
                items.spec_len() == e.len(),
                e == self.entries(),
                seq == current_data.numbers(),
                set == seq.to_set(),
                selected@ == set,
                entries_of(items) == other_number_pool.entries(),
                forall|k: int|
                    0 <= k < e.len() ==> {
                        let o = #[trigger] other_number_pool.entries()[k];
                        &&& o.key == e[k].key
                        &&& o.needs == e[k].needs
                        &&& o.members == e[k].members
                        &&& o.missing == missing_of(e[k].needs, count_in(e[k].members, seq))
                    },
                (exists|k: int| 0 <= k < i && self.lacks(seq, k)) ==> numbers@.len() > 0,
                forall|k: int|
                    0 <= k < numbers@.len() ==> self.from_lacking(seq, #[trigger] numbers@[k]),
                forall|j: int, x: usize|
                    0 <= j < i && self.lacks(seq, j) && (#[trigger] e[j]).members.len() == e[j].needs
                        && e[j].members.contains(x) && !seq.contains(x)
                        ==> #[trigger] numbers@.contains(x),
                forall|j: int|
                    0 <= j < i && self.lacks(seq, j) ==> #[trigger] self.served(seq, j, numbers@),
            decreases items.spec_len() - i,
        {
            let number_pool_item = items.value_at(i);
            let ghost before = numbers@;
            proof {
                let o = other_number_pool.entries()[i as int];
                assert(o == number_pool_item.entry(items.key_seq()[i as int]));
                assert(number_pool_item.spec_pool().members() == e[i as int].members);
            }
            if number_pool_item.missing > 0 {
                assert(self.lacks(seq, i as int));
                if number_pool_item.pool.len_is(number_pool_item.needs) {
                    let mut rest = number_pool_item.pool.difference(selected);
                    proof {
                        if rest@.len() == 0 {
                            assert(rest@.to_set() =~= Set::<usize>::empty());
                            lemma_count_covers(e[i as int].members, seq);
                        }
                        assert forall|k: int| 0 <= k < rest@.len() implies e[i as int].members.contains(
                            #[trigger] rest@[k],
                        ) && !seq.contains(rest@[k]) by {
                            assert(rest@.to_set().contains(rest@[k]));
                        }
                    }
                    let ghost added = rest@;
                    numbers.append(&mut rest);
                    proof {
                        assert(numbers@ =~= before + added);
                        self.lemma_served_kept(seq, before, numbers@, i as int);
                        assert(added.len() > 0);
                        assert(numbers@[before.len() as int] == added[0]);
                        assert(self.served(seq, i as int, numbers@));
                        assert forall|k: int| 0 <= k < numbers@.len() implies self.from_lacking(
                            seq,
                            #[trigger] numbers@[k],
                        ) by {
                            if k < before.len() {
                                assert(numbers@[k] == before[k]);
                                assert(self.from_lacking(seq, before[k]));
                            } else {
                                assert(numbers@[k] == added[k - before.len()]);
                                assert(e[i as int].members.contains(numbers@[k]));
                            }
                        }
                        assert forall|x: usize|
                            e[i as int].members.contains(x) && !seq.contains(
                                x,
                            ) implies #[trigger] numbers@.contains(x) by {
                            assert(added.to_set().contains(x));
                            let k = choose|k: int| 0 <= k < added.len() && added[k] == x;
                            assert(numbers@[before.len() + k] == x);
                        }
                        assert forall|j: int, x: usize|
                            0 <= j < i && self.lacks(seq, j) && (#[trigger] e[j]).members.len()
                                == e[j].needs && e[j].members.contains(x) && !seq.contains(
                                x,
                            ) implies #[trigger] numbers@.contains(x) by {
                            assert(before.contains(x));
                            let k = choose|k: int| 0 <= k < before.len() && before[k] == x;
                            assert(numbers@[k] == x);
                        }
                    }
                } else {
                    let drawn = match number_pool_item.pool.random_unused(
                        selected,
                        current_data.random(),
                    ) {
                        Some(drawn) => drawn,
                        None => {
                            let mut m = String::from_str(
                                "No unused number can be drawn from the pool ",
                            );
                            m.append(items.key_at(i).as_str());
                            proof {
                                lemma_exhausted_pool_is_no_skip(e[i as int].key);
                                assert(m@ == exhausted_pool_text(e[i as int].key));
                                assert(self.lacks(seq, i as int) && e[i as int].members.difference(
                                    seq.to_set(),
                                ).is_empty());
                            }
                            return Err(m);
                        },
                    };
                    numbers.push(drawn);
                    proof {
                        self.lemma_served_kept(seq, before, numbers@, i as int);
                        assert(numbers@[before.len() as int] == drawn);
                        assert(self.served(seq, i as int, numbers@));
                        assert forall|k: int| 0 <= k < numbers@.len() implies self.from_lacking(
                            seq,
                            #[trigger] numbers@[k],
                        ) by {
                            if k < before.len() {
                                assert(numbers@[k] == before[k]);
                                assert(self.from_lacking(seq, before[k]));
                            } else {
                                assert(e[i as int].members.contains(numbers@[k]));
                            }
                        }
                        assert forall|j: int, x: usize|
                            0 <= j < i + 1 && self.lacks(seq, j) && (#[trigger] e[j]).members.len()
                                == e[j].needs && e[j].members.contains(x) && !seq.contains(
                                x,
                            ) implies #[trigger] numbers@.contains(x) by {
                            assert(before.contains(x));
                            let k = choose|k: int| 0 <= k < before.len() && before[k] == x;
                            assert(numbers@[k] == x);
                        }
                    }
                }
            }
            i += 1;
        }
        if numbers.len() > 0 {
            proof {
                assert(self.from_lacking(seq, numbers@[0]));
                let j = choose|j: int|
                    0 <= j < e.len() && self.lacks(seq, j) && (#[trigger] e[j]).members.contains(
                        numbers@[0],
                    );
                assert(self.lacks(seq, j));
            }
            return Ok(numbers);
        }
        proof {
            assert forall|k: int| 0 <= k < e.len() implies !self.lacks(seq, k) by {
                if self.lacks(seq, k) {
                    assert(exists|k2: int| 0 <= k2 < i && self.lacks(seq, k2));
                }
            }
        }
        Err(skip())
    }

    fn share_data(&self, current_data: &CurrentData) -> (r: Option<FactMap>) {
        None
    }

    fn check_count(&self, count: usize) -> (r: Result<bool, String>) {
        let items = &self.number_pool_items;
        let ghost e = self.entries();
        let mut needs_count: usize = 0;
        let mut beyond = false;
        let mut i: usize = 0;
        proof {
            items.lemma_lengths();
            assert(e.take(0) =~= Seq::empty());
        }
        while i < items.len()
            invariant
                i <= items.spec_len(),
                items.spec_len() == e.len(),
                e == entries_of(items),
                !beyond ==> needs_count == total_needs(e.take(i as int)),
                beyond ==> total_needs(e.take(i as int)) > usize::MAX,
            decreases items.spec_len() - i,
        {
            let needs = items.value_at(i).needs;
            proof {
                assert(e[i as int].needs == needs);
                lemma_total_take(e, Seq::empty(), i as int);
            }
            if !beyond {
                if needs > usize::MAX - needs_count {
                    beyond = true;
                } else {
                    needs_count += needs;
                }
            }
            i += 1;
        }
        assert(e.take(e.len() as int) =~= e);
        if !beyond && needs_count <= count {
            return Ok(true);
        }
        Err(
            count_message(
                "NumberPool",
                if beyond {
                    None
                } else {
                    Some(needs_count)
                },
                count,
            ),
        )
    }

    fn name(&self) -> (r: String) {
        "NumberPool".to_owned()
    }

    fn to_string(&self) -> (r: String) {
        NumberPool::to_string(self)
    }
}

impl ExcludeRuleTrait for NumberPool {
    open spec fn exclude_name_spec(&self) -> Seq<char> {
        "NumberPool"@
    }

    open spec fn exclusion_text(&self) -> Seq<char> {
        self.text()
    }

    open spec fn is_excluded_spec(&self, numbers: Seq<usize>, count: usize) -> bool {
        !self.all_met(numbers)
    }

    open spec fn within_excluded_range_spec(&self, numbers: Seq<usize>, count: usize) -> Option<
        IsWithinErrorType,
    > {
        None
    }

    fn is_excluded(&self, current_data: &CurrentData) -> (r: Result<(), String>) {
        let text = NumberPool::to_string(self);
        is_excluded_helper(&self.is_match(current_data), text.as_str())
    }

    fn is_within_excluded_range(&self, current_data: &CurrentData) -> (r: Result<
        (),
        (IsWithinErrorType, String),
    >) {
        Ok(())
    }

    fn exclude_name(&self) -> (r: String) {
        self.name()
    }

    fn to_string(&self) -> (r: String) {
        NumberPool::to_string(self)
    }
}

} // verus!
