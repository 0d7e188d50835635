//! The rule that fixes, position by position, whether a number is odd or
//! even.

use vstd::prelude::*;
use vstd::string::*;
use std::collections::HashMap;
use crate::random::CurrentData;
use crate::rules::odd_even::{holds_one_of, not_found_text, OddEven, OddEvenKey};
use crate::rules::rule_trait::{
    min_max_spec,
    shared_min_max,
    skip,
    skip_text,
    FactMap,
    IsWithinErrorType,
    RuleTrait,
};
use crate::sets::{ascending_members, sorted_keys};
use crate::text::{decimal, list_text, push_list, push_number};

verus! {

/// The parity of `n`.
pub open spec fn parity_of(n: usize) -> OddEvenKey {
    if n % 2 == 0 {
        OddEvenKey::Even
    } else {
        OddEvenKey::Odd
    }
}

/// The word for a parity.
pub open spec fn parity_text(key: OddEvenKey) -> Seq<char> {
    match key {
        OddEvenKey::Odd => "Odd"@,
        OddEvenKey::Even => "Even"@,
    }
}

/// The map after `key` is bound to each position of `indexes` in turn.
pub open spec fn marked(parities: Map<usize, OddEvenKey>, indexes: Seq<usize>, key: OddEvenKey) -> Map<
    usize,
    OddEvenKey,
>
    decreases indexes.len(),
{
    if indexes.len() == 0 {
        parities
    } else {
        marked(parities, indexes.drop_last(), key).insert(indexes.last(), key)
    }
}

/// The parity of each number of `numbers`, by position.
pub open spec fn parities_of(numbers: Seq<usize>) -> Map<usize, OddEvenKey> {
    Map::new(
        |i: usize| i < numbers.len(),
        |i: usize| parity_of(numbers[i as int]),
    )
}

/// What is reported of the number `n` at position `idx` that has not the
/// parity `key`.
pub open spec fn wrong_parity_text(n: usize, idx: usize, key: OddEvenKey, numbers: Seq<usize>) -> Seq<
    char,
> {
    "Selected number "@ + decimal(n as nat) + " at index "@ + decimal(idx as nat) + " is not: "@
        + parity_text(key) + ". Numbers:"@ + list_text(numbers)
}

/// One entry of the rule's description: `position: parity`.
pub open spec fn parity_entry_text(key: usize, parity: OddEvenKey) -> Seq<char> {
    decimal(key as nat) + ": "@ + parity_text(parity)
}

/// The entries of `parities` at `keys`, in that order, with `, ` between
/// them.
pub open spec fn parities_text(keys: Seq<usize>, parities: Map<usize, OddEvenKey>) -> Seq<char>
    decreases keys.len(),
{
    if keys.len() == 0 {
        Seq::empty()
    } else if keys.len() == 1 {
        parity_entry_text(keys[0], parities[keys[0]])
    } else {
        parities_text(keys.drop_last(), parities) + ", "@ + parity_entry_text(
            keys.last(),
            parities[keys.last()],
        )
    }
}

/// A parity for some positions, none for the others.
#[derive(Clone, Debug)]
pub struct OddEvenByIndex {
    odd_even: HashMap<usize, OddEvenKey>,
}

fn parity_str(key: OddEvenKey) -> (r: &'static str)
    ensures
        r@ == parity_text(key),
{
    match key {
        OddEvenKey::Odd => "Odd",
        OddEvenKey::Even => "Even",
    }
}

impl OddEvenByIndex {
    /// The configured parities, by position.
    pub closed spec fn parities(&self) -> Map<usize, OddEvenKey> {
        self.odd_even@
    }

    /// Whether the number `n` at position `idx` has the wrong parity.
    pub open spec fn fails_at(&self, idx: int, n: usize) -> bool {
        0 <= idx <= usize::MAX && self.parities().contains_key(idx as usize)
            && self.parities()[idx as usize] != parity_of(n)
    }

    /// Whether every number of `numbers` has the parity of its position.
    pub open spec fn passes(&self, numbers: Seq<usize>) -> bool {
        forall|i: int| 0 <= i < numbers.len() ==> !self.fails_at(i, #[trigger] numbers[i])
    }

    /// Whether `idx` is the first position of `numbers` with a number of the
    /// wrong parity.
    pub open spec fn first_failure(&self, numbers: Seq<usize>, idx: int) -> bool {
        &&& 0 <= idx < numbers.len()
        &&& self.fails_at(idx, numbers[idx])
        &&& forall|j: int| 0 <= j < idx ==> !self.fails_at(j, #[trigger] numbers[j])
    }

    /// Odd numbers at `odd_indexes`, even ones at `even_indexes`; a position
    /// in both lists takes an even number.
    pub fn new(odd_indexes: &[usize], even_indexes: &[usize]) -> (r: OddEvenByIndex)
        ensures
            r.parities() == marked(
                marked(Map::empty(), odd_indexes@, OddEvenKey::Odd),
                even_indexes@,
                OddEvenKey::Even,
            ),
    {
        broadcast use vstd::std_specs::hash::group_hash_axioms;

        let mut odd_even: HashMap<usize, OddEvenKey> = HashMap::new();
        let mut i: usize = 0;
        assert(odd_indexes@.take(0) =~= Seq::empty());
        while i < odd_indexes.len()
            invariant
                i <= odd_indexes@.len(),
                odd_even@ == marked(Map::empty(), odd_indexes@.take(i as int), OddEvenKey::Odd),
            decreases odd_indexes@.len() - i,
        {
            odd_even.insert(odd_indexes[i], OddEvenKey::Odd);
            proof {
                let t = odd_indexes@.take(i + 1);
                assert(t.drop_last() =~= odd_indexes@.take(i as int));
                assert(t.last() == odd_indexes@[i as int]);
            }
            i += 1;
        }
        assert(odd_indexes@.take(odd_indexes@.len() as int) =~= odd_indexes@);
        let ghost odds = odd_even@;
        let mut k: usize = 0;
        assert(even_indexes@.take(0) =~= Seq::empty());
        while k < even_indexes.len()
            invariant
                k <= even_indexes@.len(),
                odd_even@ == marked(odds, even_indexes@.take(k as int), OddEvenKey::Even),
            decreases even_indexes@.len() - k,
        {
            odd_even.insert(even_indexes[k], OddEvenKey::Even);
            proof {
                let t = even_indexes@.take(k + 1);
                assert(t.drop_last() =~= even_indexes@.take(k as int));
                assert(t.last() == even_indexes@[k as int]);
            }
            k += 1;
        }
        assert(even_indexes@.take(even_indexes@.len() as int) =~= even_indexes@);
        OddEvenByIndex { odd_even }
    }

    /// The parities that `numbers` has, position by position.
    pub fn from_numbers(numbers: &[usize]) -> (r: OddEvenByIndex)
        ensures
            r.parities() == parities_of(numbers@),
            r.passes(numbers@),
    {
        broadcast use vstd::std_specs::hash::group_hash_axioms;

        let mut odd_even: HashMap<usize, OddEvenKey> = HashMap::new();
        let mut idx: usize = 0;
        assert(odd_even@ =~= parities_of(numbers@.take(0)));
        while idx < numbers.len()
            invariant
                idx <= numbers@.len(),
                odd_even@ == parities_of(numbers@.take(idx as int)),
            decreases numbers@.len() - idx,
        {
            if OddEven::is_even(numbers[idx]) {
                odd_even.insert(idx, OddEvenKey::Even);
            } else {
                odd_even.insert(idx, OddEvenKey::Odd);
            }
            assert(odd_even@ =~= parities_of(numbers@.take(idx + 1)));
            idx += 1;
        }
        assert(numbers@.take(numbers@.len() as int) =~= numbers@);
        OddEvenByIndex { odd_even }
    }

    /// The parities written out as `{0: Odd, 1: Even}`, by ascending
    /// position.
    pub open spec fn text(&self) -> Seq<char> {
        "{"@ + parities_text(ascending_members(self.parities().dom()), self.parities()) + "}"@
    }

    /// The parities written out as `{0: Odd, 1: Even}`, by ascending
    /// position.
    pub fn to_string(&self) -> (r: String)
        ensures
            r@ == self.text(),
    {
        broadcast use vstd::std_specs::hash::group_hash_axioms;

        let keys = sorted_keys(&self.odd_even);
        let mut body = String::new();
        let mut i: usize = 0;
        assert(keys@.take(0) =~= Seq::empty());
        while i < keys.len()
            invariant
                i <= keys@.len(),
                keys@.to_set() == self.parities().dom(),
                body@ == parities_text(keys@.take(i as int), self.parities()),
            decreases keys@.len() - i,
        {
            let key = keys[i];
            assert(keys@.to_set().contains(key));
            let parity = match self.odd_even.get(&key) {
                Some(parity) => *parity,
                None => OddEvenKey::Odd,
            };
            assert(parity == self.parities()[key]);
            let ghost before = body@;
            if i > 0 {
                body.append(", ");
            }
            let ghost start = body@;
            push_number(&mut body, key);
            body.append(": ");
            body.append(parity_str(parity));
            proof {
                let part = keys@.take(i + 1);
                assert(part.drop_last() =~= keys@.take(i as int));
                assert(part.last() == key);
                assert(body@ =~= start + parity_entry_text(key, parity));
                if i == 0 {
                    assert(before =~= Seq::<char>::empty());
                    assert(body@ =~= parity_entry_text(key, parity));
                } else {
                    assert(body@ =~= before + ", "@ + parity_entry_text(key, parity));
                }
            }
            i += 1;
        }
        assert(keys@.take(keys@.len() as int) =~= keys@);
        let mut r = String::from_str("{");
        r.append(body.as_str());
        r.append("}");
        r
    }
}

impl RuleTrait for OddEvenByIndex {
    open spec fn name_spec(&self) -> Seq<char> {
        "OddEvenByIndex"@
    }

    open spec fn rule_text(&self) -> Seq<char> {
        self.text()
    }

    open spec fn within_range_spec(&self, numbers: Seq<usize>, count: usize) -> Option<
        IsWithinErrorType,
    > {
        if self.passes(numbers) {
            None
        } else {
            Some(IsWithinErrorType::Regular)
        }
    }

    open spec fn is_match_spec(&self, numbers: Seq<usize>, count: usize) -> bool {
        self.passes(numbers)
    }

    open spec fn check_count_spec(&self, count: usize) -> bool {
        true
    }

    open spec fn check_count_text(&self, count: usize) -> Seq<char> {
        Seq::empty()
    }

    open spec fn share_data_spec(&self, current_data: &CurrentData, facts: Option<FactMap>) -> bool {
        facts is None
    }

    /// Declines where the next position has no parity. Else one number of
    /// that parity from the shared range, or the report that none was drawn;
    /// where the shared range holds one number and the number has the parity,
    /// the number is proposed.
    open spec fn get_numbers_spec(
        &self,
        current_data: &CurrentData,
        result: Result<Vec<usize>, String>,
    ) -> bool {
        let next = current_data.numbers().len() as usize;
        let (min, max) = min_max_spec(current_data.shared(), "NumberRange"@);
        if !self.parities().contains_key(next) {
            result matches Err(e) && e@ == skip_text()
        } else {
            match result {
                Ok(v) => v@.len() == 1 && min <= v@[0] <= max && parity_of(v@[0])
                    == self.parities()[next],
                Err(e) => e@ != skip_text() && e@ == not_found_text(
                    self.parities()[next],
                    min,
                    max,
                ) && !holds_one_of(self.parities()[next], min, max),
            }
        }
    }

    fn is_within_range(&self, current_data: &CurrentData) -> (r: Result<
        (),
        (IsWithinErrorType, String),
    >)
        ensures
            r matches Err(e) ==> exists|idx: int|
                #[trigger] self.first_failure(current_data.numbers(), idx) && e.1@
                    == wrong_parity_text(
                    current_data.numbers()[idx],
                    idx as usize,
                    self.parities()[idx as usize],
                    current_data.numbers(),
                ),
    {
        broadcast use vstd::std_specs::hash::group_hash_axioms;

        let numbers = current_data.selected_numbers();
        let mut idx: usize = 0;
        while idx < numbers.len()
            invariant
                idx <= numbers@.len(),
                numbers@ == current_data.numbers(),
                forall|j: int| 0 <= j < idx ==> !self.fails_at(j, #[trigger] numbers@[j]),
            decreases numbers@.len() - idx,
        {
            let selected_number = numbers[idx];
            if let Some(key) = self.odd_even.get(&idx) {
                let number_type: OddEvenKey = *key;
                if (number_type == OddEvenKey::Odd && !OddEven::is_odd(selected_number)) || (
                number_type == OddEvenKey::Even && !OddEven::is_even(selected_number)) {
                    let mut m = String::from_str("Selected number ");
                    push_number(&mut m, selected_number);
                    m.append(" at index ");
                    push_number(&mut m, idx);
                    m.append(" is not: ");
                    m.append(parity_str(number_type));
                    m.append(". Numbers:");
                    push_list(&mut m, numbers);
                    assert(self.first_failure(numbers@, idx as int));
                    return Err((IsWithinErrorType::Regular, m));
                }
            }
            idx += 1;
        }
        Ok(())
    }

    fn is_match(&self, current_data: &CurrentData) -> (r: Result<(), String>) {
        match self.is_within_range(current_data) {
            Ok(_) => Ok(()),
            Err(e) => Err(e.1),
        }
    }

    fn get_numbers(&self, current_data: &CurrentData) -> (r: Result<Vec<usize>, String>) {
        broadcast use vstd::std_specs::hash::group_hash_axioms;

        let next = current_data.selected_numbers().len();
        if let Some(key) = self.odd_even.get(&next) {
            let key = *key;
            let (min, max) = shared_min_max("NumberRange", current_data.shared_data());
            let random = current_data.random();
            let drawn = match key {
                OddEvenKey::Odd => OddEven::odd_number(min, max, random),
                OddEvenKey::Even => OddEven::even_number(min, max, random),
            };
            return match drawn {
                Some(number) => {
                    let mut v: Vec<usize> = Vec::new();
                    v.push(number);
                    Ok(v)
                },
                None => {
                    let mut m = match key {
                        OddEvenKey::Odd => String::from_str(
                            "Could not find an odd number in range: ",
                        ),
                        OddEvenKey::Even => String::from_str(
                            "Could not find an even number in range: ",
                        ),
                    };
                    push_number(&mut m, min);
                    m.append("-");
                    push_number(&mut m, max);
                    proof {
                        crate::rules::odd_even::lemma_not_found_is_no_skip(key, min, max);
                        assert(m@ == not_found_text(key, min, max));
                    }
                    Err(m)
                },
            };
        }
        Err(skip())
    }

    fn share_data(&self, current_data: &CurrentData) -> (r: Option<FactMap>) {
        None
    }

    fn check_count(&self, count: usize) -> (r: Result<bool, String>) {
        Ok(true)
    }

    fn name(&self) -> (r: String) {
        "OddEvenByIndex".to_owned()
    }

    fn to_string(&self) -> (r: String) {
        OddEvenByIndex::to_string(self)
    }
}

} // verus!
