//! The rule that fixes, position by position, the pool a number comes from.

use vstd::prelude::*;
use vstd::string::*;
use std::collections::HashSet;
use crate::random::CurrentData;
use crate::rules::exclude_rule_trait::{is_excluded_helper, ExcludeRuleTrait};
use crate::rules::number_pool::{empty_pool_text, lemma_empty_pool_is_no_skip, PoolType};
use crate::rules::rule_trait::{skip, skip_text, FactMap, IsWithinErrorType, RuleTrait};
use crate::sets::copy_set;
use crate::text::{decimal, list_text, push_list, push_number};

verus! {

/// A pool, the positions whose numbers must come from it, and a key that
/// names it in reports.
#[derive(Debug)]
pub struct NumberPoolItemByIndex {
    pool: PoolType,
    indexes: HashSet<usize>,
    key: String,
}

/// What the rule knows of one pool.
pub struct IndexedPool {
    pub key: Seq<char>,
    pub members: Set<usize>,
    pub indexes: Set<usize>,
}

/// The names of the pools `entries`, one after the other, with `, ` between
/// them.
pub open spec fn names_text(entries: Seq<IndexedPool>) -> Seq<char>
    decreases entries.len(),
{
    if entries.len() == 0 {
        Seq::empty()
    } else if entries.len() == 1 {
        entries[0].key
    } else {
        names_text(entries.drop_last()) + ", "@ + entries.last().key
    }
}

/// Pools for positions: the number at a position must be a value of every
/// pool that lists the position.
#[derive(Clone, Debug)]
pub struct NumberPoolByIndex {
    number_pool_items: Vec<NumberPoolItemByIndex>,
}

/// What is reported of the number `n` at position `idx` that is no value of
/// the pool named `key`.
pub open spec fn wrong_pool_text(n: usize, idx: usize, key: Seq<char>, numbers: Seq<usize>) -> Seq<
    char,
> {
    "Selected number "@ + decimal(n as nat) + " at index "@ + decimal(idx as nat)
        + " is not from pool "@ + key + ". Numbers:"@ + list_text(numbers)
}

impl Clone for NumberPoolItemByIndex {
    /// An item with the same pool values, positions and key.
    fn clone(&self) -> (r: NumberPoolItemByIndex)
        ensures
            r.entry() == self.entry(),
    {
        NumberPoolItemByIndex {
            pool: self.pool.duplicate(),
            indexes: copy_set(&self.indexes),
            key: self.key.clone(),
        }
    }
}

impl NumberPoolItemByIndex {
    /// What the rule knows of the pool.
    pub closed spec fn entry(&self) -> IndexedPool {
        IndexedPool { key: self.key@, members: self.pool.members(), indexes: self.indexes@ }
    }

    /// The pool `pool` for the positions `indexes`, named `key`.
    pub fn new(key: &str, pool: &PoolType, indexes: &HashSet<usize>) -> (r: NumberPoolItemByIndex)
        ensures
            r.entry() == (IndexedPool { key: key@, members: pool.members(), indexes: indexes@ }),
    {
        NumberPoolItemByIndex {
            pool: pool.duplicate(),
            indexes: copy_set(indexes),
            key: key.to_owned(),
        }
    }
}

impl NumberPoolByIndex {
    /// What the rule knows of its pools, in configured order.
    pub closed spec fn entries(&self) -> Seq<IndexedPool> {
        self.number_pool_items@.map_values(|x: NumberPoolItemByIndex| x.entry())
    }

    /// Whether the pool at `i` lists the position `idx` and has not `n`.
    pub open spec fn fails(&self, idx: int, n: usize, i: int) -> bool {
        0 <= idx <= usize::MAX && self.entries()[i].indexes.contains(idx as usize)
            && !self.entries()[i].members.contains(n)
    }

    /// Whether no number of `numbers` fails a pool of its position.
    pub open spec fn passes(&self, numbers: Seq<usize>) -> bool {
        forall|idx: int, i: int|
            0 <= idx < numbers.len() && 0 <= i < self.entries().len() ==> !#[trigger] self.fails(
                idx,
                numbers[idx],
                i,
            )
    }

    /// Whether the pool at `i` is the first that lists the position `idx`.
    pub open spec fn first_for(&self, idx: usize, i: int) -> bool {
        &&& 0 <= i < self.entries().len()
        &&& self.entries()[i].indexes.contains(idx)
        &&& forall|j: int| 0 <= j < i ==> !(#[trigger] self.entries()[j]).indexes.contains(idx)
    }

    /// Whether some pool lists the position `idx`.
    pub open spec fn lists(&self, idx: usize) -> bool {
        exists|i: int| 0 <= i < self.entries().len() && (#[trigger] self.entries()[i]).indexes.contains(
            idx,
        )
    }

    /// The rule over `number_pool_items`.
    pub fn new(number_pool_items: Vec<NumberPoolItemByIndex>) -> (r: NumberPoolByIndex)
        ensures
            r.entries() == number_pool_items@.map_values(|x: NumberPoolItemByIndex| x.entry()),
    {
        NumberPoolByIndex { number_pool_items }
    }

    /// The names of the pools, written out as `[a, b]`.
    pub open spec fn text(&self) -> Seq<char> {
        "["@ + names_text(self.entries()) + "]"@
    }

    /// The names of the pools, written out as `[a, b]`.
    pub fn to_string(&self) -> (r: String)
        ensures
            r@ == self.text(),
    {
        let mut body = String::new();
        let mut i: usize = 0;
        assert(self.entries().take(0) =~= Seq::empty());
        while i < self.number_pool_items.len()
            invariant
                i <= self.number_pool_items@.len(),
                body@ == names_text(self.entries().take(i as int)),
            decreases self.number_pool_items@.len() - i,
        {
            let ghost before = body@;
            if i > 0 {
                body.append(", ");
            }
            body.append(self.number_pool_items[i].key.as_str());
            proof {
                let part = self.entries().take(i + 1);
                assert(part.drop_last() =~= self.entries().take(i as int));
                assert(part.last() == self.number_pool_items@[i as int].entry());
                if i == 0 {
                    assert(before =~= Seq::<char>::empty());
                    assert(body@ =~= part[0].key);
                }
            }
            i += 1;
        }
        assert(self.entries().take(self.entries().len() as int) =~= self.entries());
        let mut r = String::from_str("[");
        r.append(body.as_str());
        r.append("]");
        r
    }
}

impl RuleTrait for NumberPoolByIndex {
    open spec fn name_spec(&self) -> Seq<char> {
        "NumberPoolByIndex"@
    }

    open spec fn rule_text(&self) -> Seq<char> {
        self.text()
    }

    open spec fn within_range_spec(&self, numbers: Seq<usize>, count: usize) -> Option<
        IsWithinErrorType,
    > {
        if self.passes(numbers) {
            None
        } else {
            Some(IsWithinErrorType::Regular)
        }
    }

    open spec fn is_match_spec(&self, numbers: Seq<usize>, count: usize) -> bool {
        self.passes(numbers)
    }

    open spec fn check_count_spec(&self, count: usize) -> bool {
        true
    }

    open spec fn check_count_text(&self, count: usize) -> Seq<char> {
        Seq::empty()
    }

    open spec fn share_data_spec(&self, current_data: &CurrentData, facts: Option<FactMap>) -> bool {
        facts is None
    }

    /// Declines where no pool lists the next position. Else one value of the
    /// first pool that does, or the report that this pool has none.
    open spec fn get_numbers_spec(
        &self,
        current_data: &CurrentData,
        result: Result<Vec<usize>, String>,
    ) -> bool {
        let next = current_data.numbers().len() as usize;
        if !self.lists(next) {
            result matches Err(m) && m@ == skip_text()
        } else {
            exists|i: int|
                #[trigger] self.first_for(next, i) && match result {
                    Ok(v) => v@.len() == 1 && self.entries()[i].members.contains(v@[0]),
                    Err(m) => self.entries()[i].members.is_empty() && m@ == empty_pool_text(
                        self.entries()[i].key,
                    ) && m@ != skip_text(),
                }
        }
    }

    fn is_within_range(&self, current_data: &CurrentData) -> (r: Result<
        (),
        (IsWithinErrorType, String),
    >)
        ensures
            r matches Err(e) ==> exists|idx: int, i: int|
                0 <= idx < current_data.numbers().len() && 0 <= i < self.entries().len()
                    && #[trigger] self.fails(idx, current_data.numbers()[idx], i) && e.1@
                    == wrong_pool_text(
                    current_data.numbers()[idx],
                    idx as usize,
                    self.entries()[i].key,
                    current_data.numbers(),
                ),
    {
        let numbers = current_data.selected_numbers();
        let mut idx: usize = 0;
        while idx < numbers.len()
            invariant
                idx <= numbers@.len(),
                numbers@ == current_data.numbers(),
                forall|a: int, i: int|
                    0 <= a < idx && 0 <= i < self.entries().len() ==> !#[trigger] self.fails(
                        a,
                        numbers@[a],
                        i,
                    ),
            decreases numbers@.len() - idx,
        {
            let selected_number = numbers[idx];
            let mut i: usize = 0;
            while i < self.number_pool_items.len()
                invariant
                    i <= self.number_pool_items@.len(),
                    idx < numbers@.len(),
                    numbers@ == current_data.numbers(),
                    selected_number == numbers@[idx as int],
                    forall|k: int| 0 <= k < i ==> !#[trigger] self.fails(
                        idx as int,
                        selected_number,
                        k,
                    ),
                decreases self.number_pool_items@.len() - i,
            {
                let number_pool_item = &self.number_pool_items[i];
                assert(self.entries()[i as int] == number_pool_item.entry());
                if number_pool_item.indexes.contains(&idx) && !number_pool_item.pool.contains(
                    selected_number,
                ) {
                    let mut m = String::from_str("Selected number ");
                    push_number(&mut m, selected_number);
                    m.append(" at index ");
                    push_number(&mut m, idx);
                    m.append(" is not from pool ");
                    m.append(number_pool_item.key.as_str());
                    m.append(". Numbers:");
                    push_list(&mut m, numbers);
                    assert(self.fails(idx as int, numbers@[idx as int], i as int));
                    return Err((IsWithinErrorType::Regular, m));
                }
                i += 1;
            }
            idx += 1;
        }
        Ok(())
    }

    fn is_match(&self, current_data: &CurrentData) -> (r: Result<(), String>) {
        match self.is_within_range(current_data) {
            Ok(_) => Ok(()),
            Err(e) => Err(e.1),
        }
    }

    fn get_numbers(&self, current_data: &CurrentData) -> (r: Result<Vec<usize>, String>) {
        let next = current_data.selected_numbers().len();
        let mut i: usize = 0;
        while i < self.number_pool_items.len()
            invariant
                i <= self.number_pool_items@.len(),
                next == current_data.numbers().len(),
                forall|j: int| 0 <= j < i ==> !(#[trigger] self.entries()[j]).indexes.contains(next),
            decreases self.number_pool_items@.len() - i,
        {
            let number_pool_item = &self.number_pool_items[i];
            assert(self.entries()[i as int] == number_pool_item.entry());
            if number_pool_item.indexes.contains(&next) {
                assert(self.first_for(next, i as int));
                if number_pool_item.pool.is_empty() {
                    let mut m = String::from_str("No number can be drawn from the empty pool ");
                    m.append(number_pool_item.key.as_str());
                    proof {
                        lemma_empty_pool_is_no_skip(number_pool_item.key@);
                    }
                    return Err(m);
                }
                let number = number_pool_item.pool.random_number(current_data.random());
                let mut v: Vec<usize> = Vec::new();
                v.push(number);
                return Ok(v);
            }
            i += 1;
        }
        Err(skip())
    }

    fn share_data(&self, current_data: &CurrentData) -> (r: Option<FactMap>) {
        None
    }

    fn check_count(&self, count: usize) -> (r: Result<bool, String>) {
        Ok(true)
    }

    fn name(&self) -> (r: String) {
        "NumberPoolByIndex".to_owned()
    }

    fn to_string(&self) -> (r: String) {
        NumberPoolByIndex::to_string(self)
    }
}

impl ExcludeRuleTrait for NumberPoolByIndex {
    open spec fn exclude_name_spec(&self) -> Seq<char> {
        "NumberPoolByIndex"@
    }

    open spec fn exclusion_text(&self) -> Seq<char> {
        self.text()
    }

    open spec fn is_excluded_spec(&self, numbers: Seq<usize>, count: usize) -> bool {
        !self.passes(numbers)
    }

    open spec fn within_excluded_range_spec(&self, numbers: Seq<usize>, count: usize) -> Option<
        IsWithinErrorType,
    > {
        None
    }

    fn is_excluded(&self, current_data: &CurrentData) -> (r: Result<(), String>) {
        let text = NumberPoolByIndex::to_string(self);
        is_excluded_helper(&self.is_match(current_data), text.as_str())
    }

    fn is_within_excluded_range(&self, current_data: &CurrentData) -> (r: Result<
        (),
        (IsWithinErrorType, String),
    >) {
        Ok(())
    }

    fn exclude_name(&self) -> (r: String) {
        self.name()
    }

    fn to_string(&self) -> (r: String) {
        NumberPoolByIndex::to_string(self)
    }
}

} // verus!
