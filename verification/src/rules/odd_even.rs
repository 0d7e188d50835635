//! The rule that fixes how many numbers are odd and how many are even.

use vstd::prelude::*;
use vstd::string::*;
use crate::random::CurrentData;
use crate::random_trait::{get_random_vec_item, RandomTrait};
use crate::rules::rule_trait::{
    min_max_spec,
    shared_min_max,
    skip,
    skip_text,
    FactMap,
    IsWithinErrorType,
    RuleTrait,
};
use crate::text::{decimal, push_number};

verus! {

/// How many of `s` are even.
pub open spec fn count_even(s: Seq<usize>) -> nat
    decreases s.len(),
{
    if s.len() == 0 {
        0
    } else {
        count_even(s.drop_last()) + if s.last() % 2 == 0 {
            1nat
        } else {
            0nat
        }
    }
}

/// How many of `s` are odd.
pub open spec fn count_odd(s: Seq<usize>) -> nat
    decreases s.len(),
{
    if s.len() == 0 {
        0
    } else {
        count_odd(s.drop_last()) + if s.last() % 2 == 0 {
            0nat
        } else {
            1nat
        }
    }
}

/// An odd number or an even one.
#[derive(Debug, PartialEq, Eq, Hash, Copy, Clone, Structural)]
pub enum OddEvenKey {
    Odd,
    Even,
}

/// A number of odd and a number of even values: what a sequence must hold, or
/// what one does hold.
#[derive(Clone, Copy, Debug)]
pub struct OddEven {
    odd: usize,
    even: usize,
}

/// Whether `min..=max` holds one number, and that of the parity `key`.
pub open spec fn holds_one_of(key: OddEvenKey, min: usize, max: usize) -> bool {
    min == max && (key is Even <==> min % 2 == 0)
}

/// What is reported where no number of the wanted parity was drawn.
pub open spec fn not_found_text(key: OddEvenKey, min: usize, max: usize) -> Seq<char> {
    (match key {
        OddEvenKey::Odd => "Could not find an odd number in range: "@,
        OddEvenKey::Even => "Could not find an even number in range: "@,
    }) + decimal(min as nat) + "-"@ + decimal(max as nat)
}

/// What is reported of a finished sequence with other counts than expected.
pub open spec fn mismatch_text(odd: usize, even: usize, act_odd: usize, act_even: usize) -> Seq<
    char,
> {
    "Expected Odd: "@ + decimal(odd as nat) + " and Even: "@ + decimal(even as nat)
        + ".  Actual Odd: "@ + decimal(act_odd as nat) + " and Even: "@ + decimal(act_even as nat)
        + "."@
}

/// What is reported of counts that do not fit into the sequence.
pub open spec fn too_many_text(odd: usize, even: usize, count: usize) -> Seq<char> {
    "Odd count: "@ + decimal(odd as nat) + " and Even count: "@ + decimal(even as nat)
        + " is greater than count: "@ + decimal(count as nat) + " "@
}

/// How often a number of the wanted parity is drawn before giving up.
pub const PARITY_DRAWS: usize = 20;

impl OddEven {
    /// The number of odd values.
    pub closed spec fn spec_odd(&self) -> usize {
        self.odd
    }

    /// The number of even values.
    pub closed spec fn spec_even(&self) -> usize {
        self.even
    }

    /// Two values with the same counts are the same value.
    pub proof fn lemma_equal(a: OddEven, b: OddEven)
        requires
            a.spec_odd() == b.spec_odd(),
            a.spec_even() == b.spec_even(),
        ensures
            a == b,
    {
    }

    /// `odd` odd values and `even` even ones.
    pub fn new(odd: usize, even: usize) -> (r: OddEven)
        ensures
            r.spec_odd() == odd,
            r.spec_even() == even,
    {
        OddEven { odd, even }
    }

    /// The counts of the odd and of the even values of `numbers`.
    pub fn from_numbers(numbers: &[usize]) -> (r: OddEven)
        ensures
            r.spec_odd() == count_odd(numbers@),
            r.spec_even() == count_even(numbers@),
    {
        let mut odd: usize = 0_usize;
        let mut even: usize = 0_usize;
        let mut i: usize = 0;
        assert(numbers@.take(0) =~= Seq::empty());
        while i < numbers.len()
            invariant
                i <= numbers@.len(),
                odd == count_odd(numbers@.take(i as int)),
                even == count_even(numbers@.take(i as int)),
                odd + even == i,
            decreases numbers@.len() - i,
        {
            proof {
                let t = numbers@.take(i + 1);
                assert(t.drop_last() =~= numbers@.take(i as int));
                assert(t.last() == numbers@[i as int]);
            }
            if OddEven::is_even(numbers[i]) {
                even += 1;
            } else {
                odd += 1;
            }
            i += 1;
        }
        assert(numbers@.take(numbers@.len() as int) =~= numbers@);
        OddEven { odd, even }
    }

    /// The number of odd values.
    pub fn odd(&self) -> (r: usize)
        ensures
            r == self.spec_odd(),
    {
        self.odd
    }

    /// The number of even values.
    pub fn even(&self) -> (r: usize)
        ensures
            r == self.spec_even(),
    {
        self.even
    }

    /// Whether `number` is odd.
    pub fn is_odd(number: usize) -> (r: bool)
        ensures
            r == (number % 2 != 0),
    {
        !OddEven::is_even(number)
    }

    /// Whether `number` is even.
    pub fn is_even(number: usize) -> (r: bool)
        ensures
            r == (number % 2 == 0),
    {
        number % 2 == 0
    }

    /// An even number from `min..=max`: the first even one among up to
    /// twenty draws, or nothing where none of them is even or the range is
    /// empty. A range of one even number gives that number.
    pub fn even_number(min: usize, max: usize, random: &dyn RandomTrait) -> (r: Option<usize>)
        ensures
            r matches Some(n) ==> min <= n <= max && n % 2 == 0,
            min > max ==> r is None,
            min == max && min % 2 == 0 ==> r == Some(min),
    {
        if min > max {
            return None;
        }
        let mut i: usize = 0;
        while i < PARITY_DRAWS
            invariant
                min <= max,
                i <= PARITY_DRAWS,
                min == max && min % 2 == 0 ==> i == 0,
            decreases PARITY_DRAWS - i,
        {
            let number = random.get_number(min, max);
            if OddEven::is_even(number) {
                return Some(number);
            }
            i += 1;
        }
        None
    }

    /// An odd number from `min..=max`: the first odd one among up to twenty
    /// draws, or nothing where none of them is odd or the range is empty. A
    /// range of one odd number gives that number.
    pub fn odd_number(min: usize, max: usize, random: &dyn RandomTrait) -> (r: Option<usize>)
        ensures
            r matches Some(n) ==> min <= n <= max && n % 2 != 0,
            min > max ==> r is None,
            min == max && min % 2 != 0 ==> r == Some(min),
    {
        if min > max {
            return None;
        }
        let mut i: usize = 0;
        while i < PARITY_DRAWS
            invariant
                min <= max,
                i <= PARITY_DRAWS,
                min == max && min % 2 != 0 ==> i == 0,
            decreases PARITY_DRAWS - i,
        {
            let number = random.get_number(min, max);
            if OddEven::is_odd(number) {
                return Some(number);
            }
            i += 1;
        }
        None
    }

    /// Whether `self` holds fewer even values than `other` asks for.
    pub fn needs_even(&self, other: &Self) -> (r: bool)
        ensures
            r == (self.spec_even() < other.spec_even()),
    {
        self.even < other.even
    }

    /// Whether `self` holds fewer odd values than `other` asks for.
    pub fn needs_odd(&self, other: &Self) -> (r: bool)
        ensures
            r == (self.spec_odd() < other.spec_odd()),
    {
        self.odd < other.odd
    }

    /// Whether `self` lacks even values only.
    pub fn needs_only_even(&self, other: &Self) -> (r: bool)
        ensures
            r == (self.spec_odd() == other.spec_odd() && self.spec_even() < other.spec_even()),
    {
        self.odd == other.odd && self.even < other.even
    }

    /// Whether `self` lacks odd values only.
    pub fn needs_only_odd(&self, other: &Self) -> (r: bool)
        ensures
            r == (self.spec_even() == other.spec_even() && self.spec_odd() < other.spec_odd()),
    {
        self.even == other.even && self.odd < other.odd
    }

    /// The counts written out as `ODD:3,EVEN:2`.
    pub open spec fn text(&self) -> Seq<char> {
        "ODD:"@ + decimal(self.spec_odd() as nat) + ",EVEN:"@ + decimal(self.spec_even() as nat)
    }

    /// The counts written out as `ODD:3,EVEN:2`.
    pub fn to_string(&self) -> (r: String)
        ensures
            r@ == self.text(),
    {
        let mut s = String::from_str("ODD:");
        push_number(&mut s, self.odd);
        s.append(",EVEN:");
        push_number(&mut s, self.even);
        s
    }

    /// Whether a sequence with the counts of `numbers` still lacks even
    /// values.
    pub open spec fn lacks_even(&self, numbers: Seq<usize>) -> bool {
        count_even(numbers) < self.spec_even()
    }

    /// Whether a sequence with the counts of `numbers` still lacks odd
    /// values.
    pub open spec fn lacks_odd(&self, numbers: Seq<usize>) -> bool {
        count_odd(numbers) < self.spec_odd()
    }
}

/// The message of a failed draw is not the word with which a rule declines.
pub proof fn lemma_not_found_is_no_skip(key: OddEvenKey, min: usize, max: usize)
    ensures
        not_found_text(key, min, max) != skip_text(),
{
    reveal_strlit("Could not find an odd number in range: ");
    reveal_strlit("Could not find an even number in range: ");
    reveal_strlit("Skip");
    assert(not_found_text(key, min, max).len() > 4);
    assert(skip_text().len() == 4);
}

impl RuleTrait for OddEven {
    open spec fn name_spec(&self) -> Seq<char> {
        "OddEven"@
    }

    open spec fn rule_text(&self) -> Seq<char> {
        self.text()
    }

    open spec fn within_range_spec(&self, numbers: Seq<usize>, count: usize) -> Option<
        IsWithinErrorType,
    > {
        if count_odd(numbers) > self.spec_odd() || count_even(numbers) > self.spec_even() {
            Some(IsWithinErrorType::Regular)
        } else {
            None
        }
    }

    open spec fn is_match_spec(&self, numbers: Seq<usize>, count: usize) -> bool {
        count_odd(numbers) == self.spec_odd() && count_even(numbers) == self.spec_even()
    }

    open spec fn check_count_spec(&self, count: usize) -> bool {
        self.spec_odd() + self.spec_even() <= count
    }

    open spec fn check_count_text(&self, count: usize) -> Seq<char> {
        too_many_text(self.spec_odd(), self.spec_even(), count)
    }

    open spec fn share_data_spec(&self, current_data: &CurrentData, facts: Option<FactMap>) -> bool {
        facts is None
    }

    /// Declines where the sequence lacks neither odd nor even values. Else
    /// one number of a parity that it lacks, from the shared range, or the
    /// report that none of a lacked parity was drawn. That is not reported of
    /// a parity where the shared range holds one number and the number has the
    /// parity: where the sequence lacks that parity alone, the number is
    /// proposed.
    open spec fn get_numbers_spec(
        &self,
        current_data: &CurrentData,
        result: Result<Vec<usize>, String>,
    ) -> bool {
        let numbers = current_data.numbers();
        let (min, max) = min_max_spec(current_data.shared(), "NumberRange"@);
        if !self.lacks_even(numbers) && !self.lacks_odd(numbers) {
            result matches Err(e) && e@ == skip_text()
        } else {
            match result {
                Ok(v) => v@.len() == 1 && min <= v@[0] <= max && if v@[0] % 2 == 0 {
                    self.lacks_even(numbers)
                } else {
                    self.lacks_odd(numbers)
                },
                Err(e) => e@ != skip_text() && exists|key: OddEvenKey|
                    {
                        &&& e@ == #[trigger] not_found_text(key, min, max)
                        &&& key is Even ==> self.lacks_even(numbers)
                        &&& key is Odd ==> self.lacks_odd(numbers)
                        &&& !holds_one_of(key, min, max)
                    },
            }
        }
    }

    fn is_within_range(&self, current_data: &CurrentData) -> (r: Result<
        (),
        (IsWithinErrorType, String),
    >)
        ensures
            r matches Err(e) ==> e.1@ == (if count_odd(current_data.numbers()) > self.spec_odd() {
                "Too Many Odds"@
            } else {
                "Too Many Evens"@
            }),
    {
        let other = OddEven::from_numbers(current_data.selected_numbers().as_slice());
        if other.odd > self.odd {
            return Err((IsWithinErrorType::Regular, "Too Many Odds".to_owned()));
        }
        if other.even > self.even {
            return Err((IsWithinErrorType::Regular, "Too Many Evens".to_owned()));
        }
        Ok(())
    }

    fn is_match(&self, current_data: &CurrentData) -> (r: Result<(), String>)
        ensures
            r matches Err(e) ==> e@ == mismatch_text(
                self.spec_odd(),
                self.spec_even(),
                count_odd(current_data.numbers()) as usize,
                count_even(current_data.numbers()) as usize,
            ),
    {
        let other = OddEven::from_numbers(current_data.selected_numbers().as_slice());
        if self.odd == other.odd && self.even == other.even {
            return Ok(());
        }
        let mut m = String::from_str("Expected Odd: ");
        push_number(&mut m, self.odd);
        m.append(" and Even: ");
        push_number(&mut m, self.even);
        m.append(".  Actual Odd: ");
        push_number(&mut m, other.odd);
        m.append(" and Even: ");
        push_number(&mut m, other.even);
        m.append(".");
        Err(m)
    }

    fn get_numbers(&self, current_data: &CurrentData) -> (r: Result<Vec<usize>, String>) {
        let act_odd_even = OddEven::from_numbers(current_data.selected_numbers().as_slice());
        let mut pool_keys: Vec<OddEvenKey> = Vec::with_capacity(2);
        if act_odd_even.needs_even(self) {
            pool_keys.push(OddEvenKey::Even);
        }
        if act_odd_even.needs_odd(self) {
            pool_keys.push(OddEvenKey::Odd);
        }
        if pool_keys.len() > 0 {
            let (min, max) = shared_min_max("NumberRange", current_data.shared_data());
            let random = current_data.random();
            let selected_pool_key = *get_random_vec_item(pool_keys.as_slice(), random);
            let drawn = match selected_pool_key {
                OddEvenKey::Odd => OddEven::odd_number(min, max, random),
                OddEvenKey::Even => OddEven::even_number(min, max, random),
            };
            return match drawn {
                Some(number) => {
                    let mut v: Vec<usize> = Vec::new();
                    v.push(number);
                    Ok(v)
                },
                None => {
                    let mut m = match selected_pool_key {
                        OddEvenKey::Odd => String::from_str(
                            "Could not find an odd number in range: ",
                        ),
                        OddEvenKey::Even => String::from_str(
                            "Could not find an even number in range: ",
                        ),
                    };
                    push_number(&mut m, min);
                    m.append("-");
                    push_number(&mut m, max);
                    proof {
                        lemma_not_found_is_no_skip(selected_pool_key, min, max);
                        assert(m@ == not_found_text(selected_pool_key, min, max));
                    }
                    Err(m)
                },
            };
        }
        Err(skip())
    }

    fn share_data(&self, current_data: &CurrentData) -> (r: Option<FactMap>) {
        None
    }

    fn check_count(&self, count: usize) -> (r: Result<bool, String>) {
        if self.even <= count && self.odd <= count - self.even {
            return Ok(true);
        }
        let mut m = String::from_str("Odd count: ");
        push_number(&mut m, self.odd);
        m.append(" and Even count: ");
        push_number(&mut m, self.even);
        m.append(" is greater than count: ");
        push_number(&mut m, count);
        m.append(" ");
        Err(m)
    }

    fn name(&self) -> (r: String) {
        "OddEven".to_owned()
    }

    fn to_string(&self) -> (r: String) {
        OddEven::to_string(self)
    }
}

} // verus!
