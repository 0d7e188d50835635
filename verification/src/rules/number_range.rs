//! The rule that each number lies in the range configured for its position.

use vstd::prelude::*;
use vstd::string::*;
use std::collections::HashMap;
use crate::random::CurrentData;
use crate::rules::exclude_rule_trait::ExcludeRuleTrait;
use crate::rules::rule_trait::{
    skip,
    skip_text,
    FactMap,
    IsWithinErrorType,
    MapAnyValue,
    RuleTrait,
};
use crate::sets::{ascending_members, sorted_keys};
use crate::sorting::is_ascending;
use crate::string_map::StringMap;
use crate::text::{bool_text, decimal, list_text, push_bool, push_list, push_number};

verus! {

/// Inclusive ranges by position. A rule made by `all` holds one range, kept
/// under position 0, for every position; one made by `from_map` holds a range
/// for each position that was listed and none for the others.
///
/// As an exclusion it turns each range around: a number passes where it lies
/// outside the range of its position.
#[derive(Clone, Debug)]
pub struct NumberRange {
    ranges: HashMap<usize, (usize, usize)>,
    use_0_idx_for_all: bool,
}

/// The ranges after `(min, max)` is bound to each position of `indexes` in
/// turn.
pub open spec fn bound_each(
    ranges: Map<usize, (usize, usize)>,
    indexes: Seq<usize>,
    min: usize,
    max: usize,
) -> Map<usize, (usize, usize)>
    decreases indexes.len(),
{
    if indexes.len() == 0 {
        ranges
    } else {
        bound_each(ranges, indexes.drop_last(), min, max).insert(indexes.last(), (min, max))
    }
}

/// The ranges that a list of `(positions, min, max)` entries configures: a
/// later entry replaces an earlier one at the positions they share.
pub open spec fn ranges_of(entries: Seq<(&[usize], usize, usize)>) -> Map<usize, (usize, usize)>
    decreases entries.len(),
{
    if entries.len() == 0 {
        Map::empty()
    } else {
        bound_each(
            ranges_of(entries.drop_last()),
            entries.last().0@,
            entries.last().1,
            entries.last().2,
        )
    }
}

/// What is reported of the number `n` at position `idx` that fails the range
/// `min..=max` kept under `key`.
pub open spec fn out_of_range_text(
    invert: bool,
    n: usize,
    idx: usize,
    min: usize,
    max: usize,
    numbers: Seq<usize>,
    key: usize,
) -> Seq<char> {
    "Exclude: "@ + bool_text(invert) + " - Selected number "@ + decimal(n as nat) + " at index "@
        + decimal(idx as nat) + " is not within range of min: "@ + decimal(min as nat)
        + " and max: "@ + decimal(max as nat) + ". Numbers:"@ + list_text(numbers)
        + ".  Map Index:"@ + decimal(key as nat)
}

/// One entry of the rule's description: `(key, (min, max))`.
pub open spec fn entry_text(key: usize, range: (usize, usize)) -> Seq<char> {
    "("@ + decimal(key as nat) + ", ("@ + decimal(range.0 as nat) + ", "@ + decimal(range.1 as nat)
        + "))"@
}

/// The entries of `ranges` at `keys`, in that order, separated by `", "`.
pub open spec fn entries_text(keys: Seq<usize>, ranges: Map<usize, (usize, usize)>) -> Seq<char>
    decreases keys.len(),
{
    if keys.len() == 0 {
        Seq::empty()
    } else if keys.len() == 1 {
        entry_text(keys[0], ranges[keys[0]])
    } else {
        entries_text(keys.drop_last(), ranges) + ", "@ + entry_text(
            keys.last(),
            ranges[keys.last()],
        )
    }
}

impl NumberRange {
    /// The configured ranges, by the position under which each is kept.
    pub closed spec fn ranges(&self) -> Map<usize, (usize, usize)> {
        self.ranges@
    }

    /// Whether the range kept under position 0 holds for every position.
    pub closed spec fn for_all(&self) -> bool {
        self.use_0_idx_for_all
    }

    /// The position under which the range for position `idx` is kept.
    pub open spec fn key_for(&self, idx: int) -> usize {
        if self.for_all() {
            0
        } else {
            idx as usize
        }
    }

    /// Whether position `idx` has a range that holds a number.
    pub open spec fn has_room_at(&self, idx: int) -> bool {
        let key = self.key_for(idx);
        self.ranges().contains_key(key) && self.ranges()[key].0 <= self.ranges()[key].1
    }

    /// Whether the number `n` at position `idx` fails: it has a range and
    /// lies outside it, or, turned around, inside it.
    pub open spec fn fails_at(&self, idx: int, n: usize, invert: bool) -> bool {
        let key = self.key_for(idx);
        self.ranges().contains_key(key) && {
            let (min, max) = self.ranges()[key];
            if invert {
                min <= n <= max
            } else {
                n < min || n > max
            }
        }
    }

    /// Whether no number of `numbers` fails at its position.
    pub open spec fn passes(&self, numbers: Seq<usize>, invert: bool) -> bool {
        forall|i: int| 0 <= i < numbers.len() ==> !self.fails_at(i, #[trigger] numbers[i], invert)
    }

    /// Whether `idx` is the first position of `numbers` at which a number
    /// fails.
    pub open spec fn first_failure(&self, numbers: Seq<usize>, invert: bool, idx: int) -> bool {
        &&& 0 <= idx < numbers.len()
        &&& self.fails_at(idx, numbers[idx], invert)
        &&& forall|j: int| 0 <= j < idx ==> !self.fails_at(j, #[trigger] numbers[j], invert)
    }

    /// What is reported of the failure at position `idx` of `numbers`.
    pub open spec fn failure_text(&self, numbers: Seq<usize>, invert: bool, idx: int) -> Seq<
        char,
    > {
        let key = self.key_for(idx);
        out_of_range_text(
            invert,
            numbers[idx],
            idx as usize,
            self.ranges()[key].0,
            self.ranges()[key].1,
            numbers,
            key,
        )
    }

    /// The range `min..=max` for every position.
    pub fn all(min: usize, max: usize) -> (r: NumberRange)
        ensures
            r.for_all(),
            r.ranges() == Map::<usize, (usize, usize)>::empty().insert(0, (min, max)),
    {
        broadcast use vstd::std_specs::hash::group_hash_axioms;

        let mut ranges: HashMap<usize, (usize, usize)> = HashMap::new();
        ranges.insert(0, (min, max));
        NumberRange { ranges, use_0_idx_for_all: true }
    }

    /// A range for each listed position: every entry gives positions and the
    /// range `min..=max` for them, and a later entry replaces an earlier one
    /// at the positions they share.
    pub fn from_map(ranges: &[(&[usize], usize, usize)]) -> (r: NumberRange)
        ensures
            !r.for_all(),
            r.ranges() == ranges_of(ranges@),
    {
        broadcast use vstd::std_specs::hash::group_hash_axioms;

        let mut ranges_map: HashMap<usize, (usize, usize)> = HashMap::new();
        let mut i: usize = 0;
        assert(ranges@.take(0) =~= Seq::empty());
        while i < ranges.len()
            invariant
                i <= ranges@.len(),
                ranges_map@ == ranges_of(ranges@.take(i as int)),
            decreases ranges@.len() - i,
        {
            let range = &ranges[i];
            let indexes: &[usize] = range.0;
            let ghost before = ranges_map@;
            let mut k: usize = 0;
            assert(indexes@.take(0) =~= Seq::empty());
            while k < indexes.len()
                invariant
                    k <= indexes@.len(),
                    ranges_map@ == bound_each(before, indexes@.take(k as int), range.1, range.2),
                decreases indexes@.len() - k,
            {
                ranges_map.insert(indexes[k], (range.1, range.2));
                proof {
                    let t = indexes@.take(k + 1);
                    assert(t.drop_last() =~= indexes@.take(k as int));
                    assert(t.last() == indexes@[k as int]);
                }
                k += 1;
            }
            proof {
                assert(indexes@.take(indexes@.len() as int) =~= indexes@);
                let t = ranges@.take(i + 1);
                assert(t.drop_last() =~= ranges@.take(i as int));
                assert(t.last() == ranges@[i as int]);
            }
            i += 1;
        }
        assert(ranges@.take(ranges@.len() as int) =~= ranges@);
        NumberRange { ranges: ranges_map, use_0_idx_for_all: false }
    }

    /// The number of positions under which a range is kept.
    pub fn len(&self) -> (n: usize)
        ensures
            n == self.ranges().len(),
    {
        broadcast use vstd::std_specs::hash::group_hash_axioms;

        self.ranges.len()
    }

    /// Whether no range is kept.
    pub fn is_empty(&self) -> (b: bool)
        ensures
            b == (self.ranges().len() == 0),
    {
        self.len() == 0
    }

    /// The ranges written out as `[(0, (1, 100)), (1, (5, 9))]`, by ascending
    /// position.
    pub open spec fn text(&self) -> Seq<char> {
        "["@ + entries_text(ascending_members(self.ranges().dom()), self.ranges()) + "]"@
    }

    /// The ranges written out as `[(0, (1, 100)), (1, (5, 9))]`, by ascending
    /// position.
    pub fn to_string(&self) -> (r: String)
        ensures
            r@ == self.text(),
    {
        broadcast use vstd::std_specs::hash::group_hash_axioms;

        let keys = sorted_keys(&self.ranges);
        let mut body = String::new();
        let mut i: usize = 0;
        assert(keys@.take(0) =~= Seq::empty());
        while i < keys.len()
            invariant
                i <= keys@.len(),
                keys@.to_set() == self.ranges().dom(),
                body@ == entries_text(keys@.take(i as int), self.ranges()),
            decreases keys@.len() - i,
        {
            let key = keys[i];
            assert(keys@.to_set().contains(key));
            let range = match self.ranges.get(&key) {
                Some(range) => *range,
                None => (0, 0),
            };
            assert(range == self.ranges()[key]);
            let ghost before = body@;
            if i > 0 {
                body.append(", ");
            }
            let ghost start = body@;
            body.append("(");
            push_number(&mut body, key);
            body.append(", (");
            push_number(&mut body, range.0);
            body.append(", ");
            push_number(&mut body, range.1);
            body.append("))");
            proof {
                let t = keys@.take(i + 1);
                assert(t.drop_last() =~= keys@.take(i as int));
                assert(t.last() == key);
                assert(body@ =~= start + entry_text(key, range));
                if i == 0 {
                    assert(before =~= Seq::<char>::empty());
                    assert(body@ =~= entry_text(key, range));
                    assert(t.len() == 1);
                } else {
                    assert(body@ =~= before + ", "@ + entry_text(key, range));
                }
            }
            i += 1;
        }
        assert(keys@.take(keys@.len() as int) =~= keys@);
        let mut r = String::from_str("[");
        r.append(body.as_str());
        r.append("]");
        r
    }
}

/// Checks every number of the sequence against the range of its position and
/// reports the first that fails. With `invert` a number fails where it lies
/// inside its range.
fn is_within_range_helper(number_range: &NumberRange, current_data: &CurrentData, invert: bool) -> (r:
    Result<(), (IsWithinErrorType, String)>)
    ensures
        r is Ok <==> number_range.passes(current_data.numbers(), invert),
        r matches Err(e) ==> e.0 == IsWithinErrorType::Regular && exists|idx: int|
            number_range.first_failure(current_data.numbers(), invert, idx) && e.1@
                == #[trigger] number_range.failure_text(current_data.numbers(), invert, idx),
{
    broadcast use vstd::std_specs::hash::group_hash_axioms;

    let numbers = current_data.selected_numbers();
    let mut idx: usize = 0;
    while idx < numbers.len()
        invariant
            idx <= numbers@.len(),
            numbers@ == current_data.numbers(),
            forall|j: int| 0 <= j < idx ==> !number_range.fails_at(j, #[trigger] numbers@[j], invert),
        decreases numbers@.len() - idx,
    {
        let selected_number = numbers[idx];
        let key = if number_range.use_0_idx_for_all {
            0
        } else {
            idx
        };
        if let Some(range) = number_range.ranges.get(&key) {
            let (min, max) = *range;
            if (!invert && (selected_number < min || selected_number > max)) || (invert && (
            selected_number >= min && selected_number <= max)) {
                let mut m = String::from_str("Exclude: ");
                push_bool(&mut m, invert);
                m.append(" - Selected number ");
                push_number(&mut m, selected_number);
                m.append(" at index ");
                push_number(&mut m, idx);
                m.append(" is not within range of min: ");
                push_number(&mut m, min);
                m.append(" and max: ");
                push_number(&mut m, max);
                m.append(". Numbers:");
                push_list(&mut m, numbers);
                m.append(".  Map Index:");
                push_number(&mut m, key);
                proof {
                    assert(number_range.first_failure(numbers@, invert, idx as int));
                    assert(m@ == number_range.failure_text(numbers@, invert, idx as int));
                }
                return Err((IsWithinErrorType::Regular, m));
            }
        }
        idx += 1;
    }
    Ok(())
}

impl RuleTrait for NumberRange {
    open spec fn name_spec(&self) -> Seq<char> {
        "NumberRange"@
    }

    open spec fn rule_text(&self) -> Seq<char> {
        self.text()
    }

    open spec fn within_range_spec(&self, numbers: Seq<usize>, count: usize) -> Option<
        IsWithinErrorType,
    > {
        if self.passes(numbers, false) {
            None
        } else {
            Some(IsWithinErrorType::Regular)
        }
    }

    open spec fn is_match_spec(&self, numbers: Seq<usize>, count: usize) -> bool {
        self.passes(numbers, false)
    }

    open spec fn check_count_spec(&self, count: usize) -> bool {
        true
    }

    open spec fn check_count_text(&self, count: usize) -> Seq<char> {
        Seq::empty()
    }

    /// The range for the next position as the facts `min` and `max`; nothing
    /// where that position has no range.
    open spec fn share_data_spec(&self, current_data: &CurrentData, facts: Option<FactMap>) -> bool {
        let key = self.key_for(current_data.numbers().len() as int);
        if self.ranges().contains_key(key) {
            facts matches Some(m) && m@ == Map::<Seq<char>, MapAnyValue>::empty().insert(
                "min"@,
                MapAnyValue::Usize(self.ranges()[key].0),
            ).insert("max"@, MapAnyValue::Usize(self.ranges()[key].1))
        } else {
            facts is None
        }
    }

    open spec fn get_numbers_spec(
        &self,
        current_data: &CurrentData,
        result: Result<Vec<usize>, String>,
    ) -> bool {
        result matches Err(e) && e@ == skip_text()
    }

    fn is_within_range(&self, current_data: &CurrentData) -> (r: Result<
        (),
        (IsWithinErrorType, String),
    >)
        ensures
            r matches Err(e) ==> exists|idx: int|
                self.first_failure(current_data.numbers(), false, idx) && e.1@
                    == #[trigger] self.failure_text(current_data.numbers(), false, idx),
    {
        is_within_range_helper(self, current_data, false)
    }

    fn is_match(&self, current_data: &CurrentData) -> (r: Result<(), String>)
        ensures
            r matches Err(e) ==> exists|idx: int|
                self.first_failure(current_data.numbers(), false, idx) && e@
                    == #[trigger] self.failure_text(current_data.numbers(), false, idx),
    {
        match self.is_within_range(current_data) {
            Ok(_) => Ok(()),
            Err(e) => Err(e.1),
        }
    }

    fn get_numbers(&self, current_data: &CurrentData) -> (r: Result<Vec<usize>, String>) {
        Err(skip())
    }

    fn share_data(&self, current_data: &CurrentData) -> (r: Option<FactMap>) {
        broadcast use vstd::std_specs::hash::group_hash_axioms;

        let key = if self.use_0_idx_for_all {
            0
        } else {
            current_data.selected_numbers().len()
        };
        if let Some(range) = self.ranges.get(&key) {
            let (min, max) = *range;
            let mut map: FactMap = StringMap::new();
            map.insert("min".to_owned(), MapAnyValue::Usize(min));
            map.insert("max".to_owned(), MapAnyValue::Usize(max));
            return Some(map);
        }
        None
    }

    fn check_count(&self, count: usize) -> (r: Result<bool, String>) {
        Ok(true)
    }

    fn name(&self) -> (r: String) {
        "NumberRange".to_owned()
    }

    fn to_string(&self) -> (r: String) {
        NumberRange::to_string(self)
    }
}

impl ExcludeRuleTrait for NumberRange {
    open spec fn exclude_name_spec(&self) -> Seq<char> {
        "NumberRange"@
    }

    open spec fn exclusion_text(&self) -> Seq<char> {
        self.text()
    }

    open spec fn is_excluded_spec(&self, numbers: Seq<usize>, count: usize) -> bool {
        self.passes(numbers, true)
    }

    open spec fn within_excluded_range_spec(&self, numbers: Seq<usize>, count: usize) -> Option<
        IsWithinErrorType,
    > {
        if self.passes(numbers, true) {
            None
        } else {
            Some(IsWithinErrorType::Regular)
        }
    }

    fn is_excluded(&self, current_data: &CurrentData) -> (r: Result<(), String>) {
        match self.is_within_excluded_range(current_data) {
            Ok(_) => Ok(()),
            Err(e) => Err(e.1),
        }
    }

    fn is_within_excluded_range(&self, current_data: &CurrentData) -> (r: Result<
        (),
        (IsWithinErrorType, String),
    >) {
        is_within_range_helper(self, current_data, true)
    }

    fn exclude_name(&self) -> (r: String) {
        self.name()
    }

    fn to_string(&self) -> (r: String) {
        NumberRange::to_string(self)
    }
}

} // verus!
