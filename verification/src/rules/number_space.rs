//! The rule on the gaps between the numbers in ascending order.

use vstd::prelude::*;
use vstd::string::*;
use crate::random::{empty_range_text, lemma_empty_range_is_no_skip, CurrentData};
use crate::random_trait::RandomTrait;
use crate::rules::exclude_rule_trait::{is_excluded_helper, ExcludeRuleTrait};
use crate::rules::number_pool::remaining;
use crate::rules::rule_trait::{
    min_max_spec,
    shared_min_max,
    skip,
    skip_text,
    FactMap,
    IsWithinErrorType,
    RuleTrait,
};
use crate::sets::copy_numbers;
use crate::sorting::{
    ascending,
    is_ascending,
    lemma_ascending,
    lemma_ascending_fixed,
    sorted_copy,
};
use crate::text::{decimal, push_number};

verus! {

/// A condition on a gap between two neighbours: less than, at most, equal
/// to, at least or more than a width, or between two widths, both included.
#[derive(Clone, Copy, Debug, PartialEq, Eq, Hash, Structural)]
pub enum NumberSpaceType {
    Lt(usize),
    Lte(usize),
    Eq(usize),
    Gte(usize),
    Gt(usize),
    Between(usize, usize),
}

/// The gaps between the neighbours of `s`.
pub open spec fn gaps(s: Seq<usize>) -> Seq<usize> {
    Seq::new(
        if s.len() > 0 {
            (s.len() - 1) as nat
        } else {
            0
        },
        |i: int| (s[i + 1] - s[i]) as usize,
    )
}

/// How many of `widths` meet the condition `t`.
pub open spec fn count_matching(t: NumberSpaceType, widths: Seq<usize>) -> nat
    decreases widths.len(),
{
    if widths.len() == 0 {
        0
    } else {
        count_matching(t, widths.drop_last()) + if t.matches(widths.last()) {
            1nat
        } else {
            0nat
        }
    }
}

/// How many gaps of `numbers`, taken in ascending order, meet the condition
/// `t`.
pub open spec fn space_has(t: NumberSpaceType, numbers: Seq<usize>) -> nat {
    count_matching(t, gaps(ascending(numbers)))
}

/// The sum of `a` and `b` where it is a machine number.
fn plus(a: usize, b: usize) -> (r: Option<usize>)
    ensures
        match r {
            Some(s) => s == a + b,
            None => a + b > usize::MAX,
        },
{
    if b > usize::MAX - a {
        None
    } else {
        Some(a + b)
    }
}

/// The sum of `a` and `b`, or the largest number where the sum is larger.
fn capped(a: usize, b: usize) -> (r: usize)
    ensures
        r == if a + b > usize::MAX {
            usize::MAX as int
        } else {
            a + b
        },
{
    if b > usize::MAX - a {
        usize::MAX
    } else {
        a + b
    }
}

impl NumberSpaceType {
    /// Whether a gap of `num_space` meets the condition.
    pub open spec fn matches(&self, num_space: usize) -> bool {
        match *self {
            NumberSpaceType::Lt(v) => num_space < v,
            NumberSpaceType::Lte(v) => num_space <= v,
            NumberSpaceType::Eq(v) => num_space == v,
            NumberSpaceType::Gte(v) => num_space >= v,
            NumberSpaceType::Gt(v) => num_space > v,
            NumberSpaceType::Between(lower_bound, upper_bound) => num_space >= lower_bound
                && num_space <= upper_bound,
        }
    }

    /// The least and the largest number above `number_space_base` whose gap
    /// to it meets the condition; an unbounded gap ends at `max`, and a gap
    /// of zero is not proposed for `Lt` and `Lte`.
    pub open spec fn target(&self, number_space_base: usize, max: usize) -> (int, int) {
        match *self {
            NumberSpaceType::Lt(v) => (number_space_base + 1, number_space_base + v - 1),
            NumberSpaceType::Lte(v) => (number_space_base + 1, number_space_base + v),
            NumberSpaceType::Eq(v) => (number_space_base + v, number_space_base + v),
            NumberSpaceType::Gt(v) => (number_space_base + v + 1, max as int),
            NumberSpaceType::Gte(v) => (number_space_base + v, max as int),
            NumberSpaceType::Between(lower_bound, upper_bound) => (
                number_space_base + lower_bound,
                number_space_base + upper_bound,
            ),
        }
    }

    /// Whether `r` can be the number proposed behind `number_space_base`: a
    /// machine number within the target, or 0 where the target holds none.
    pub open spec fn drawn(&self, number_space_base: usize, max: usize, r: usize) -> bool {
        let (lo, hi) = self.target(number_space_base, max);
        let top = if hi > usize::MAX {
            usize::MAX as int
        } else {
            hi
        };
        if lo <= top {
            lo <= r <= top
        } else {
            r == 0
        }
    }

    /// Whether a gap of `num_space` meets the condition.
    pub fn is_match(&self, num_space: usize) -> (r: bool)
        ensures
            r == self.matches(num_space),
    {
        match *self {
            NumberSpaceType::Lt(v) => num_space < v,
            NumberSpaceType::Lte(v) => num_space <= v,
            NumberSpaceType::Eq(v) => num_space == v,
            NumberSpaceType::Gte(v) => num_space >= v,
            NumberSpaceType::Gt(v) => num_space > v,
            NumberSpaceType::Between(lower_bound, upper_bound) => num_space >= lower_bound
                && num_space <= upper_bound,
        }
    }

    /// How many of `num_spaces` meet the condition.
    pub fn has(&self, num_spaces: &[usize]) -> (r: usize)
        ensures
            r == count_matching(*self, num_spaces@),
    {
        let mut matches: usize = 0;
        let mut i: usize = 0;
        assert(num_spaces@.take(0) =~= Seq::empty());
        while i < num_spaces.len()
            invariant
                i <= num_spaces@.len(),
                matches == count_matching(*self, num_spaces@.take(i as int)),
                matches <= i,
            decreases num_spaces@.len() - i,
        {
            proof {
                let t = num_spaces@.take(i + 1);
                assert(t.drop_last() =~= num_spaces@.take(i as int));
                assert(t.last() == num_spaces@[i as int]);
            }
            if self.is_match(num_spaces[i]) {
                matches += 1;
            }
            i += 1;
        }
        assert(num_spaces@.take(num_spaces@.len() as int) =~= num_spaces@);
        matches
    }

    /// A number behind `number_space_base` whose gap to it meets the
    /// condition, drawn from `random`; 0 where no machine number does.
    pub fn get_number(&self, number_space_base: usize, max: usize, random: &dyn RandomTrait) -> (r:
        usize)
        ensures
            self.drawn(number_space_base, max, r),
    {
        let (lo, top): (Option<usize>, Option<usize>) = match *self {
            NumberSpaceType::Lt(v) => (
                plus(number_space_base, 1),
                if v == 0 {
                    None
                } else {
                    Some(capped(number_space_base, v - 1))
                },
            ),
            NumberSpaceType::Lte(v) => (
                plus(number_space_base, 1),
                Some(capped(number_space_base, v)),
            ),
            NumberSpaceType::Eq(v) => {
                return match plus(number_space_base, v) {
                    Some(s) => s,
                    None => 0,
                };
            },
            NumberSpaceType::Gt(v) => (
                match plus(number_space_base, v) {
                    Some(s) => plus(s, 1),
                    None => None,
                },
                Some(max),
            ),
            NumberSpaceType::Gte(v) => (plus(number_space_base, v), Some(max)),
            NumberSpaceType::Between(lower_bound, upper_bound) => (
                plus(number_space_base, lower_bound),
                Some(capped(number_space_base, upper_bound)),
            ),
        };
        match (lo, top) {
            (Some(lo), Some(top)) => {
                if lo <= top {
                    random.get_number(lo, top)
                } else {
                    0
                }
            },
            _ => 0,
        }
    }

    /// The condition as it is named in reports: `Lt(3)` or `Between(1, 3)`.
    pub open spec fn debug_text(&self) -> Seq<char> {
        match *self {
            NumberSpaceType::Lt(v) => "Lt("@ + decimal(v as nat) + ")"@,
            NumberSpaceType::Lte(v) => "Lte("@ + decimal(v as nat) + ")"@,
            NumberSpaceType::Eq(v) => "Eq("@ + decimal(v as nat) + ")"@,
            NumberSpaceType::Gte(v) => "Gte("@ + decimal(v as nat) + ")"@,
            NumberSpaceType::Gt(v) => "Gt("@ + decimal(v as nat) + ")"@,
            NumberSpaceType::Between(lower_bound, upper_bound) => "Between("@ + decimal(
                lower_bound as nat,
            ) + ", "@ + decimal(upper_bound as nat) + ")"@,
        }
    }

    /// The condition as it is named in reports: `Lt(3)` or `Between(1, 3)`.
    pub fn debug_string(&self) -> (r: String)
        ensures
            r@ == self.debug_text(),
    {
        let (name, first, second): (&str, usize, Option<usize>) = match *self {
            NumberSpaceType::Lt(v) => ("Lt(", v, None),
            NumberSpaceType::Lte(v) => ("Lte(", v, None),
            NumberSpaceType::Eq(v) => ("Eq(", v, None),
            NumberSpaceType::Gte(v) => ("Gte(", v, None),
            NumberSpaceType::Gt(v) => ("Gt(", v, None),
            NumberSpaceType::Between(lower_bound, upper_bound) => (
                "Between(",
                lower_bound,
                Some(upper_bound),
            ),
        };
        let mut s = String::from_str(name);
        push_number(&mut s, first);
        match second {
            Some(v) => {
                s.append(", ");
                push_number(&mut s, v);
            },
            None => {},
        }
        s.append(")");
        s
    }

    /// The condition written out, as `Lt:3` or `Gte:1-Lte:3`.
    pub fn to_string(&self) -> (r: String)
        ensures
            r@ == self.text(),
    {
        match *self {
            NumberSpaceType::Gte(v) => {
                let mut s = String::from_str("Gte:");
                push_number(&mut s, v);
                s
            },
            NumberSpaceType::Eq(v) => {
                let mut s = String::from_str("Eq:");
                push_number(&mut s, v);
                s
            },
            NumberSpaceType::Lt(v) => {
                let mut s = String::from_str("Lt:");
                push_number(&mut s, v);
                s
            },
            NumberSpaceType::Lte(v) => {
                let mut s = String::from_str("Lte:");
                push_number(&mut s, v);
                s
            },
            NumberSpaceType::Gt(v) => {
                let mut s = String::from_str("Gt:");
                push_number(&mut s, v);
                s
            },
            NumberSpaceType::Between(lower_bound, upper_bound) => {
                let mut s = String::from_str("Gte:");
                push_number(&mut s, lower_bound);
                s.append("-Lte:");
                push_number(&mut s, upper_bound);
                s
            },
        }
    }

    /// The condition written out.
    pub open spec fn text(&self) -> Seq<char> {
        match *self {
            NumberSpaceType::Gte(v) => "Gte:"@ + decimal(v as nat),
            NumberSpaceType::Eq(v) => "Eq:"@ + decimal(v as nat),
            NumberSpaceType::Lt(v) => "Lt:"@ + decimal(v as nat),
            NumberSpaceType::Lte(v) => "Lte:"@ + decimal(v as nat),
            NumberSpaceType::Gt(v) => "Gt:"@ + decimal(v as nat),
            NumberSpaceType::Between(lower_bound, upper_bound) => "Gte:"@ + decimal(
                lower_bound as nat,
            ) + "-Lte:"@ + decimal(upper_bound as nat),
        }
    }
}

/// A condition on gaps with how many gaps must meet it, how many of a
/// sequence do and how many are still missing.
#[derive(Clone, Copy, Debug)]
pub struct NumberSpaceItem {
    number_space_type: NumberSpaceType,
    needs: usize,
    has: usize,
    missing: usize,
}

impl NumberSpaceItem {
    /// The condition.
    pub closed spec fn spec_type(&self) -> NumberSpaceType {
        self.number_space_type
    }

    /// How many gaps must meet the condition.
    pub closed spec fn spec_needs(&self) -> usize {
        self.needs
    }

    /// How many gaps meet the condition.
    pub closed spec fn spec_has(&self) -> usize {
        self.has
    }

    /// How many gaps are missing.
    pub closed spec fn spec_missing(&self) -> usize {
        self.missing
    }

    /// Whether the item is the item `given` judged by `numbers`. With
    /// `set_needs_eq_match` it asks for exactly the gaps that it has.
    pub open spec fn judges(
        &self,
        given: NumberSpaceItem,
        numbers: Seq<usize>,
        set_needs_eq_match: bool,
    ) -> bool {
        let has = space_has(given.spec_type(), numbers);
        &&& self.spec_type() == given.spec_type()
        &&& self.spec_has() == has
        &&& self.spec_needs() == if set_needs_eq_match {
            has
        } else {
            given.spec_needs() as nat
        }
        &&& self.spec_missing() == if has > given.spec_needs() {
            0
        } else {
            given.spec_needs() - has
        }
    }

    /// `needs` gaps that meet `number_space_type`.
    pub fn new(number_space_type: &NumberSpaceType, needs: usize) -> (r: NumberSpaceItem)
        ensures
            r.spec_type() == *number_space_type,
            r.spec_needs() == needs,
            r.spec_has() == 0,
            r.spec_missing() == 0,
    {
        NumberSpaceItem::new_full(number_space_type, needs, 0, 0)
    }

    /// A condition with its counts.
    pub fn new_full(number_space_type: &NumberSpaceType, needs: usize, has: usize, missing: usize) -> (r:
        NumberSpaceItem)
        ensures
            r.spec_type() == *number_space_type,
            r.spec_needs() == needs,
            r.spec_has() == has,
            r.spec_missing() == missing,
    {
        NumberSpaceItem { number_space_type: *number_space_type, needs, has, missing }
    }

    /// The gaps between the neighbours of `list` in ascending order. With
    /// `is_sorted` the list is taken to be in that order already, and must
    /// be.
    pub fn get_num_spaces(list: &[usize], is_sorted: bool) -> (r: Vec<usize>)
        requires
            is_sorted ==> is_ascending(list@),
        ensures
            r@ == gaps(ascending(list@)),
    {
        let mut num_spaces: Vec<usize> = Vec::new();
        if list.len() > 1 {
            let sorted_list: Vec<usize> = if is_sorted {
                proof {
                    lemma_ascending_fixed(list@);
                }
                copy_numbers(list)
            } else {
                sorted_copy(list)
            };
            proof {
                lemma_ascending(list@);
            }
            let mut x: usize = 1;
            while x < sorted_list.len()
                invariant
                    1 <= x <= sorted_list@.len(),
                    is_ascending(sorted_list@),
                    num_spaces@ == gaps(sorted_list@).take(x - 1),
                decreases sorted_list@.len() - x,
            {
                num_spaces.push(sorted_list[x] - sorted_list[x - 1]);
                assert(num_spaces@ =~= gaps(sorted_list@).take(x as int));
                x += 1;
            }
            assert(num_spaces@ =~= gaps(sorted_list@));
            return num_spaces;
        }
        proof {
            lemma_ascending(list@);
            assert(num_spaces@ =~= gaps(ascending(list@)));
        }
        num_spaces
    }

    /// The condition and the gaps that meet it, written out as `Lt:3=2`.
    pub fn to_string(&self) -> (r: String)
        ensures
            r@ == item_text(*self),
    {
        let mut s = self.number_space_type.to_string();
        s.append("=");
        push_number(&mut s, self.has);
        s
    }

    /// The condition.
    pub fn number_space_type(&self) -> (r: &NumberSpaceType)
        ensures
            *r == self.spec_type(),
    {
        &self.number_space_type
    }

    /// How many gaps must meet the condition.
    pub fn needs(&self) -> (r: usize)
        ensures
            r == self.spec_needs(),
    {
        self.needs
    }

    /// How many gaps meet the condition.
    pub fn has(&self) -> (r: usize)
        ensures
            r == self.spec_has(),
    {
        self.has
    }

    /// How many gaps are missing.
    pub fn missing(&self) -> (r: usize)
        ensures
            r == self.spec_missing(),
    {
        self.missing
    }
}

/// A condition and the gaps that meet it, written out as `Lt:3=2`.
pub open spec fn item_text(item: NumberSpaceItem) -> Seq<char> {
    item.spec_type().text() + "="@ + decimal(item.spec_has() as nat)
}

/// The conditions `items` written out, one after the other, with `;` between
/// them.
pub open spec fn items_text(items: Seq<NumberSpaceItem>) -> Seq<char>
    decreases items.len(),
{
    if items.len() == 0 {
        Seq::empty()
    } else if items.len() == 1 {
        item_text(items[0])
    } else {
        items_text(items.drop_last()) + ";"@ + item_text(items.last())
    }
}

/// Conditions on the gaps between the numbers in ascending order, each with
/// the number of gaps that must meet it.
#[derive(Clone, Debug)]
pub struct NumberSpace {
    number_space_items: Vec<NumberSpaceItem>,
}

/// How many gaps the conditions `items` lack together in `numbers`.
pub open spec fn spaces_missing(items: Seq<NumberSpaceItem>, numbers: Seq<usize>) -> nat
    decreases items.len(),
{
    if items.len() == 0 {
        0
    } else {
        spaces_missing(items.drop_last(), numbers) + space_lack(items.last(), numbers)
    }
}

/// How many gaps the condition `item` lacks in `numbers`.
pub open spec fn space_lack(item: NumberSpaceItem, numbers: Seq<usize>) -> nat {
    let has = space_has(item.spec_type(), numbers);
    if has > item.spec_needs() {
        0
    } else {
        (item.spec_needs() - has) as nat
    }
}

/// The conditions of `items` that lack gaps in `numbers`, in the order of
/// the items.
pub open spec fn lacking_types(items: Seq<NumberSpaceItem>, numbers: Seq<usize>) -> Seq<
    NumberSpaceType,
>
    decreases items.len(),
{
    if items.len() == 0 {
        Seq::empty()
    } else if space_lack(items.last(), numbers) > 0 {
        lacking_types(items.drop_last(), numbers).push(items.last().spec_type())
    } else {
        lacking_types(items.drop_last(), numbers)
    }
}

/// Whether `v` holds one number for each of the conditions `types`, in their
/// order, each drawn for its own condition: the first behind the largest of
/// `numbers`, or, where there is none, behind a number of `min..=max`, and
/// each further one behind the one before it.
pub open spec fn drawn_in_turn(
    types: Seq<NumberSpaceType>,
    numbers: Seq<usize>,
    min: usize,
    max: usize,
    v: Seq<usize>,
) -> bool {
    &&& v.len() == types.len()
    &&& v.len() > 0 && numbers.len() > 0 ==> types[0].drawn(ascending(numbers).last(), max, v[0])
    &&& v.len() > 0 && numbers.len() == 0 ==> exists|base: usize|
        min <= base <= max && #[trigger] types[0].drawn(base, max, v[0])
    &&& forall|k: int| 1 <= k < v.len() ==> (#[trigger] types[k]).drawn(v[k - 1], max, v[k])
}

/// What is reported of a condition that more gaps meet than it asks for.
pub open spec fn too_many_gaps_text(t: NumberSpaceType, needs: usize, has: usize) -> Seq<char> {
    "Too many from pool "@ + t.debug_text() + ", \"needs\" is "@ + decimal(needs as nat)
        + " and \"has\" "@ + decimal(has as nat) + " from this pool"@
}

/// What is reported of a finished sequence with other gaps than expected.
pub open spec fn gaps_mismatch_text(t: NumberSpaceType, needs: usize, has: usize) -> Seq<char> {
    "Expected--Pool:"@ + t.debug_text() + "--Needs:"@ + decimal(needs as nat) + ". Actual Count:"@
        + decimal(has as nat)
}

impl NumberSpace {
    /// The conditions with their counts, in configured order.
    pub closed spec fn items(&self) -> Seq<NumberSpaceItem> {
        self.number_space_items@
    }

    /// Whether the condition at `i` lacks gaps in `numbers`.
    pub open spec fn lacks(&self, numbers: Seq<usize>, i: int) -> bool {
        space_lack(self.items()[i], numbers) > 0
    }

    /// Whether no condition is met by more gaps of `numbers` than it asks
    /// for.
    pub open spec fn no_excess(&self, numbers: Seq<usize>) -> bool {
        forall|i: int|
            0 <= i < self.items().len() ==> space_has(
                (#[trigger] self.items()[i]).spec_type(),
                numbers,
            ) <= self.items()[i].spec_needs()
    }

    /// Whether every condition is met by exactly as many gaps of `numbers`
    /// as it asks for.
    pub open spec fn all_met(&self, numbers: Seq<usize>) -> bool {
        forall|i: int|
            0 <= i < self.items().len() ==> space_has(
                (#[trigger] self.items()[i]).spec_type(),
                numbers,
            ) == self.items()[i].spec_needs()
    }

    /// Whether `v` holds one number for each condition that lacks gaps in
    /// `numbers`, in the order of the conditions and each drawn for its own
    /// condition: the first behind the largest of `numbers`, or, where there
    /// is none, behind a number of `min..=max`, and each further one behind
    /// the one before it.
    pub open spec fn chain(&self, numbers: Seq<usize>, min: usize, max: usize, v: Seq<usize>) -> bool {
        drawn_in_turn(lacking_types(self.items(), numbers), numbers, min, max, v)
    }

    /// The rule over `number_space_items`.
    pub fn new(number_space_items: &[NumberSpaceItem]) -> (r: NumberSpace)
        ensures
            r.items() == number_space_items@,
    {
        let mut items: Vec<NumberSpaceItem> = Vec::new();
        let mut i: usize = 0;
        while i < number_space_items.len()
            invariant
                i <= number_space_items@.len(),
                items@ == number_space_items@.take(i as int),
            decreases number_space_items@.len() - i,
        {
            items.push(number_space_items[i]);
            assert(items@ =~= number_space_items@.take(i + 1));
            i += 1;
        }
        assert(items@ =~= number_space_items@);
        NumberSpace { number_space_items: items }
    }

    /// The conditions with their counts, in configured order.
    pub fn number_space_items(&self) -> (r: &Vec<NumberSpaceItem>)
        ensures
            r@ == self.items(),
    {
        &self.number_space_items
    }

    /// The rule over the conditions of `number_space_items`, judged anew by
    /// `numbers`.
    fn from_numbers_2(number_space_items: &Vec<NumberSpaceItem>, numbers: &[usize], is_sorted: bool) -> (r:
        NumberSpace)
        requires
            is_sorted ==> is_ascending(numbers@),
        ensures
            r.items().len() == number_space_items@.len(),
            forall|i: int|
                0 <= i < number_space_items@.len() ==> (#[trigger] r.items()[i]).judges(
                    number_space_items@[i],
                    numbers@,
                    false,
                ),
    {
        let mut items: Vec<NumberSpaceItem> = Vec::new();
        let mut i: usize = 0;
        while i < number_space_items.len()
            invariant
                i <= number_space_items@.len(),
                items@.len() == i,
                forall|j: int|
                    0 <= j < i ==> (#[trigger] items@[j]).spec_type()
                        == number_space_items@[j].spec_type() && items@[j].spec_needs()
                        == number_space_items@[j].spec_needs(),
            decreases number_space_items@.len() - i,
        {
            let x = &number_space_items[i];
            items.push(NumberSpaceItem::new(&x.number_space_type, x.needs));
            i += 1;
        }
        NumberSpace::from_numbers(items.as_slice(), numbers, false, is_sorted)
    }

    /// The rule over `number_pool_items` with each condition judged by
    /// `numbers`: how many gaps meet it and how many it still lacks. With
    /// `set_needs_eq_match` each condition asks for exactly the gaps that it
    /// has. With `is_sorted` the numbers are taken to be in ascending order
    /// already, and must be.
    pub fn from_numbers(
        number_pool_items: &[NumberSpaceItem],
        numbers: &[usize],
        set_needs_eq_match: bool,
        is_sorted: bool,
    ) -> (r: NumberSpace)
        requires
            is_sorted ==> is_ascending(numbers@),
        ensures
            r.items().len() == number_pool_items@.len(),
            forall|i: int|
                0 <= i < number_pool_items@.len() ==> (#[trigger] r.items()[i]).judges(
                    number_pool_items@[i],
                    numbers@,
                    set_needs_eq_match,
                ),
    {
        let num_spaces = NumberSpaceItem::get_num_spaces(numbers, is_sorted);
        let mut number_space_items: Vec<NumberSpaceItem> = Vec::new();
        let mut i: usize = 0;
        while i < number_pool_items.len()
            invariant
                i <= number_pool_items@.len(),
                number_space_items@.len() == i,
                num_spaces@ == gaps(ascending(numbers@)),
                forall|j: int|
                    0 <= j < i ==> (#[trigger] number_space_items@[j]).judges(
                        number_pool_items@[j],
                        numbers@,
                        set_needs_eq_match,
                    ),
            decreases number_pool_items@.len() - i,
        {
            let number_pool_item = &number_pool_items[i];
            let match_count = number_pool_item.number_space_type.has(num_spaces.as_slice());
            let missing = if match_count > number_pool_item.needs {
                0
            } else {
                number_pool_item.needs - match_count
            };
            number_space_items.push(
                NumberSpaceItem {
                    number_space_type: number_pool_item.number_space_type,
                    needs: if set_needs_eq_match {
                        match_count
                    } else {
                        number_pool_item.needs
                    },
                    has: match_count,
                    missing,
                },
            );
            i += 1;
        }
        NumberSpace { number_space_items }
    }

    /// The conditions judged by the sequence in `current_data`.
    fn judged(&self, current_data: &CurrentData) -> (r: NumberSpace)
        ensures
            r.items().len() == self.items().len(),
            forall|i: int|
                0 <= i < self.items().len() ==> {
                    let o = #[trigger] r.items()[i];
                    let g = self.items()[i];
                    &&& o.spec_type() == g.spec_type()
                    &&& o.spec_needs() == g.spec_needs()
                    &&& o.spec_has() == space_has(g.spec_type(), current_data.numbers())
                    &&& o.spec_missing() == space_lack(g, current_data.numbers())
                },
    {
        let sorted = current_data.selected_numbers_sorted();
        proof {
            lemma_ascending(current_data.numbers());
            lemma_ascending_fixed(sorted@);
        }
        let r = NumberSpace::from_numbers_2(&self.number_space_items, sorted.as_slice(), true);
        proof {
            assert forall|i: int| 0 <= i < self.items().len() implies {
                let o = #[trigger] r.items()[i];
                let g = self.items()[i];
                &&& o.spec_type() == g.spec_type()
                &&& o.spec_needs() == g.spec_needs()
                &&& o.spec_has() == space_has(g.spec_type(), current_data.numbers())
                &&& o.spec_missing() == space_lack(g, current_data.numbers())
            } by {
                assert(r.items()[i].judges(self.items()[i], sorted@, false));
            }
        }
        r
    }

    /// The conditions written out with the gaps that meet each, as
    /// `Lt:3=2;Eq:1=0`.
    pub open spec fn text(&self) -> Seq<char> {
        items_text(self.items())
    }

    /// The conditions written out with the gaps that meet each, as
    /// `Lt:3=2;Eq:1=0`.
    pub fn to_string(&self) -> (r: String)
        ensures
            r@ == self.text(),
    {
        let mut s = String::new();
        let mut i: usize = 0;
        assert(self.number_space_items@.take(0) =~= Seq::empty());
        while i < self.number_space_items.len()
            invariant
                i <= self.number_space_items@.len(),
                s@ == items_text(self.number_space_items@.take(i as int)),
            decreases self.number_space_items@.len() - i,
        {
            let ghost before = s@;
            if i > 0 {
                s.append(";");
            }
            let t = self.number_space_items[i].to_string();
            s.append(t.as_str());
            proof {
                let part = self.number_space_items@.take(i + 1);
                assert(part.drop_last() =~= self.number_space_items@.take(i as int));
                assert(part.last() == self.number_space_items@[i as int]);
                if i == 0 {
                    assert(before =~= Seq::<char>::empty());
                    assert(s@ =~= item_text(part[0]));
                }
            }
            i += 1;
        }
        assert(self.number_space_items@.take(self.number_space_items@.len() as int)
            =~= self.number_space_items@);
        s
    }
}

/// The conditions of a longer list lack at least the gaps that those of a
/// shorter one lack.
pub proof fn lemma_spaces_take(items: Seq<NumberSpaceItem>, numbers: Seq<usize>, i: int)
    requires
        0 <= i < items.len(),
    ensures
        spaces_missing(items.take(i + 1), numbers) == spaces_missing(items.take(i), numbers)
            + space_lack(items[i], numbers),
        lacking_types(items.take(i + 1), numbers) == if space_lack(items[i], numbers) > 0 {
            lacking_types(items.take(i), numbers).push(items[i].spec_type())
        } else {
            lacking_types(items.take(i), numbers)
        },
{
    assert(items.take(i + 1).drop_last() =~= items.take(i));
    assert(items.take(i + 1).last() == items[i]);
}

impl RuleTrait for NumberSpace {
    open spec fn name_spec(&self) -> Seq<char> {
        "NumberSpace"@
    }

    open spec fn rule_text(&self) -> Seq<char> {
        self.text()
    }

    /// A condition that more gaps meet than it asks for breaks the rule.
    /// Where the conditions lack more gaps together than positions are free,
    /// the rule asks for priority.
    open spec fn within_range_spec(&self, numbers: Seq<usize>, count: usize) -> Option<
        IsWithinErrorType,
    > {
        if !self.no_excess(numbers) {
            Some(IsWithinErrorType::Regular)
        } else if spaces_missing(self.items(), numbers) > remaining(count, numbers.len()) {
            Some(IsWithinErrorType::MakePriority)
        } else {
            None
        }
    }

    open spec fn is_match_spec(&self, numbers: Seq<usize>, count: usize) -> bool {
        self.all_met(numbers)
    }

    open spec fn check_count_spec(&self, count: usize) -> bool {
        true
    }

    open spec fn check_count_text(&self, count: usize) -> Seq<char> {
        Seq::empty()
    }

    open spec fn share_data_spec(&self, current_data: &CurrentData, facts: Option<FactMap>) -> bool {
        facts is None
    }

    /// Declines where no condition lacks gaps. Else one number for each
    /// condition that does: the first behind the largest selected number,
    /// or, where none is selected, behind a number from the shared range, and
    /// each further one behind the one before it. Where nothing is selected
    /// and the shared range is empty, that is reported.
    open spec fn get_numbers_spec(
        &self,
        current_data: &CurrentData,
        result: Result<Vec<usize>, String>,
    ) -> bool {
        let numbers = current_data.numbers();
        let (min, max) = min_max_spec(current_data.shared(), "NumberRange"@);
        if lacking_types(self.items(), numbers).len() == 0 {
            result matches Err(m) && m@ == skip_text()
        } else {
            match result {
                Ok(v) => self.chain(numbers, min, max, v@),
                Err(m) => numbers.len() == 0 && min > max && m@ == empty_range_text() && m@
                    != skip_text(),
            }
        }
    }

    fn is_within_range(&self, current_data: &CurrentData) -> (r: Result<
        (),
        (IsWithinErrorType, String),
    >)
        ensures
            r matches Err(f) ==> f.0 == IsWithinErrorType::Regular ==> exists|i: int|
                0 <= i < self.items().len() && f.1@ == too_many_gaps_text(
                    (#[trigger] self.items()[i]).spec_type(),
                    self.items()[i].spec_needs(),
                    space_has(self.items()[i].spec_type(), current_data.numbers()) as usize,
                ),
    {
        let other_number_space = self.judged(current_data);
        let ghost seq = current_data.numbers();
        let ghost e = self.items();
        let mut total: usize = 0;
        let mut beyond = false;
        let mut i: usize = 0;
        assert(e.take(0) =~= Seq::empty());
        while i < other_number_space.number_space_items.len()
            invariant
                i <= e.len(),
                other_number_space.items().len() == e.len(),
                e == self.items(),
                seq == current_data.numbers(),
                forall|k: int|
                    0 <= k < e.len() ==> {
                        let o = #[trigger] other_number_space.items()[k];
                        &&& o.spec_type() == e[k].spec_type()
                        &&& o.spec_needs() == e[k].spec_needs()
                        &&& o.spec_has() == space_has(e[k].spec_type(), seq)
                        &&& o.spec_missing() == space_lack(e[k], seq)
                    },
                forall|k: int|
                    0 <= k < i ==> space_has((#[trigger] e[k]).spec_type(), seq)
                        <= e[k].spec_needs(),
                !beyond ==> total == spaces_missing(e.take(i as int), seq),
                beyond ==> spaces_missing(e.take(i as int), seq) > usize::MAX,
            decreases e.len() - i,
        {
            let number_space_item = &other_number_space.number_space_items[i];
            proof {
                assert(other_number_space.items()[i as int] == *number_space_item);
                lemma_spaces_take(e, seq, i as int);
            }
            if number_space_item.has > number_space_item.needs {
                let mut m = String::from_str("Too many from pool ");
                let t = number_space_item.number_space_type.debug_string();
                m.append(t.as_str());
                m.append(", \"needs\" is ");
                push_number(&mut m, number_space_item.needs);
                m.append(" and \"has\" ");
                push_number(&mut m, number_space_item.has);
                m.append(" from this pool");
                assert(!self.no_excess(seq));
                assert(m@ == too_many_gaps_text(
                    e[i as int].spec_type(),
                    e[i as int].spec_needs(),
                    space_has(e[i as int].spec_type(), seq) as usize,
                ));
                return Err((IsWithinErrorType::Regular, m));
            }
            if !beyond {
                if number_space_item.missing > usize::MAX - total {
                    beyond = true;
                } else {
                    total += number_space_item.missing;
                }
            }
            i += 1;
        }
        proof {
            assert(e.take(e.len() as int) =~= e);
            assert(self.no_excess(seq));
        }
        let len_remaining = if current_data.selected_numbers().len() > current_data.count() {
            0
        } else {
            current_data.count() - current_data.selected_numbers().len()
        };
        if beyond || (total > 0 && total > len_remaining) {
            let mut m = String::from_str("Need to pull from number pool, \"missing\" ");
            push_number(&mut m, total);
            m.append(" and there are ");
            push_number(&mut m, len_remaining);
            m.append(" numbers left to pick");
            return Err((IsWithinErrorType::MakePriority, m));
        }
        Ok(())
    }

    fn is_match(&self, current_data: &CurrentData) -> (r: Result<(), String>)
        ensures
            r matches Err(m) ==> exists|i: int|
                0 <= i < self.items().len() && m@ == gaps_mismatch_text(
                    (#[trigger] self.items()[i]).spec_type(),
                    self.items()[i].spec_needs(),
                    space_has(self.items()[i].spec_type(), current_data.numbers()) as usize,
                ),
    {
        let other_number_space = self.judged(current_data);
        let ghost seq = current_data.numbers();
        let ghost e = self.items();
        let mut i: usize = 0;
        while i < other_number_space.number_space_items.len()
            invariant
                i <= e.len(),
                other_number_space.items().len() == e.len(),
                e == self.items(),
                seq == current_data.numbers(),
                forall|k: int|
                    0 <= k < e.len() ==> {
                        let o = #[trigger] other_number_space.items()[k];
                        &&& o.spec_type() == e[k].spec_type()
                        &&& o.spec_needs() == e[k].spec_needs()
                        &&& o.spec_has() == space_has(e[k].spec_type(), seq)
                    },
                forall|k: int|
                    0 <= k < i ==> space_has((#[trigger] e[k]).spec_type(), seq)
                        == e[k].spec_needs(),
            decreases e.len() - i,
        {
            let number_space_item = &other_number_space.number_space_items[i];
            assert(other_number_space.items()[i as int] == *number_space_item);
            if number_space_item.has != number_space_item.needs {
                let mut m = String::from_str("Expected--Pool:");
                let t = number_space_item.number_space_type.debug_string();
                m.append(t.as_str());
                m.append("--Needs:");
                push_number(&mut m, number_space_item.needs);
                m.append(". Actual Count:");
                push_number(&mut m, number_space_item.has);
                assert(!self.all_met(seq));
                assert(m@ == gaps_mismatch_text(
                    e[i as int].spec_type(),
                    e[i as int].spec_needs(),
                    space_has(e[i as int].spec_type(), seq) as usize,
                ));
                return Err(m);
            }
            i += 1;
        }
        Ok(())
    }

    fn get_numbers(&self, current_data: &CurrentData) -> (r: Result<Vec<usize>, String>) {
        let other_number_pool = self.judged(current_data);
        let (min, max) = shared_min_max("NumberRange", current_data.shared_data());
        let sorted = current_data.selected_numbers_sorted();
        let random = current_data.random();
        let ghost seq = current_data.numbers();
        let ghost e = self.items();
        let mut numbers: Vec<usize> = Vec::new();
        let mut i: usize = 0;
        proof {
            lemma_ascending(seq);
            assert(e.take(0) =~= Seq::empty());
        }
        while i < other_number_pool.number_space_items.len()
            invariant
                i <= e.len(),
                other_number_pool.items().len() == e.len(),
                e == self.items(),
                seq == current_data.numbers(),
                sorted@ == ascending(seq),
                sorted@.len() == seq.len(),
                (min, max) == min_max_spec(current_data.shared(), "NumberRange"@),
                forall|k: int|
                    0 <= k < e.len() ==> {
                        let o = #[trigger] other_number_pool.items()[k];
                        &&& o.spec_type() == e[k].spec_type()
                        &&& o.spec_missing() == space_lack(e[k], seq)
                    },
                drawn_in_turn(lacking_types(e.take(i as int), seq), seq, min, max, numbers@),
            decreases e.len() - i,
        {
            let number_space_item = &other_number_pool.number_space_items[i];
            proof {
                assert(other_number_pool.items()[i as int] == *number_space_item);
                lemma_spaces_take(e, seq, i as int);
            }
            if number_space_item.missing > 0 {
                assert(self.lacks(seq, i as int));
                let number_space_base: usize = if numbers.len() > 0 {
                    numbers[numbers.len() - 1]
                } else if sorted.len() > 0 {
                    sorted[sorted.len() - 1]
                } else {
                    if min > max {
                        proof {
                            lemma_empty_range_is_no_skip();
                            assert(lacking_types(e.take(i + 1), seq).len() > 0);
                            lemma_lacking_types_grow(e, seq, i + 1);
                        }
                        return Err("No number lies in the range that was shared".to_owned());
                    }
                    random.get_number(min, max)
                };
                let ghost before = numbers@;
                let drawn = number_space_item.number_space_type.get_number(
                    number_space_base,
                    max,
                    random,
                );
                numbers.push(drawn);
                proof {
                    let types = lacking_types(e.take(i as int), seq);
                    let more = lacking_types(e.take(i + 1), seq);
                    assert(more == types.push(number_space_item.spec_type()));
                    assert(more[types.len() as int].drawn(number_space_base, max, drawn));
                    if before.len() == 0 {
                        assert(numbers@[0] == drawn);
                        if seq.len() == 0 {
                            assert(min <= number_space_base <= max);
                        }
                    } else {
                        assert(numbers@[0] == before[0]);
                        assert(more[0] == types[0]);
                        if seq.len() == 0 {
                            let base = choose|base: usize|
                                min <= base <= max && #[trigger] types[0].drawn(base, max, before[0]);
                            assert(more[0].drawn(base, max, numbers@[0]));
                        }
                    }
                    assert forall|k: int| 1 <= k < numbers@.len() implies (#[trigger] more[k]).drawn(
                        numbers@[k - 1],
                        max,
                        numbers@[k],
                    ) by {
                        if k < before.len() {
                            assert(more[k] == types[k]);
                            assert(numbers@[k] == before[k]);
                            assert(numbers@[k - 1] == before[k - 1]);
                        }
                    }
                    assert(drawn_in_turn(more, seq, min, max, numbers@));
                }
            }
            i += 1;
        }
        assert(e.take(e.len() as int) =~= e);
        if numbers.len() > 0 {
            assert(self.chain(seq, min, max, numbers@));
            return Ok(numbers);
        }
        Err(skip())
    }

    fn share_data(&self, current_data: &CurrentData) -> (r: Option<FactMap>) {
        None
    }

    fn check_count(&self, count: usize) -> (r: Result<bool, String>) {
        Ok(true)
    }

    fn name(&self) -> (r: String) {
        "NumberSpace".to_owned()
    }

    fn to_string(&self) -> (r: String) {
        NumberSpace::to_string(self)
    }
}

/// Of a longer list at least as many conditions lack gaps as of a shorter
/// one.
pub proof fn lemma_lacking_types_grow(items: Seq<NumberSpaceItem>, numbers: Seq<usize>, i: int)
    requires
        0 <= i <= items.len(),
    ensures
        lacking_types(items.take(i), numbers).len() <= lacking_types(items, numbers).len(),
    decreases items.len() - i,
{
    if i == items.len() {
        assert(items.take(i) =~= items);
    } else {
        lemma_spaces_take(items, numbers, i);
        lemma_lacking_types_grow(items, numbers, i + 1);
    }
}

impl ExcludeRuleTrait for NumberSpace {
    open spec fn exclude_name_spec(&self) -> Seq<char> {
        "NumberSpace"@
    }

    open spec fn exclusion_text(&self) -> Seq<char> {
        self.text()
    }

    open spec fn is_excluded_spec(&self, numbers: Seq<usize>, count: usize) -> bool {
        !self.all_met(numbers)
    }

    open spec fn within_excluded_range_spec(&self, numbers: Seq<usize>, count: usize) -> Option<
        IsWithinErrorType,
    > {
        None
    }

    fn is_excluded(&self, current_data: &CurrentData) -> (r: Result<(), String>) {
        let text = NumberSpace::to_string(self);
        is_excluded_helper(&self.is_match(current_data), text.as_str())
    }

    fn is_within_excluded_range(&self, current_data: &CurrentData) -> (r: Result<
        (),
        (IsWithinErrorType, String),
    >) {
        Ok(())
    }

    fn exclude_name(&self) -> (r: String) {
        self.name()
    }

    fn to_string(&self) -> (r: String) {
        NumberSpace::to_string(self)
    }
}

} // verus!
