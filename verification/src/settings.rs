//! The configuration of a generation: the rules, the exclusions, the target
//! length and the limits of the search.

use vstd::prelude::*;
use vstd::string::*;
use crate::random::CurrentData;
use crate::random_trait::{get_random_trait, RandomTrait};
use crate::rules::exclude_rule_trait::ExcludeRuleTrait;
use crate::rules::rule::{ExcludeRule, Rule};
use crate::rules::number_range::NumberRange;
use crate::rules::random_number::{random_number_name, RandomNumber};
use crate::rules::rule_trait::{min_max_spec, shared_min_max, RuleTrait, SharedData};

verus! {

/// How many rounds a generation may take where nothing else is set.
pub const DEFAULT_MAX_TRIES: usize = 10000;

/// After how many failed checks of a full sequence the sequence is dropped,
/// where nothing else is set.
pub const DEFAULT_MAX_IS_MATCH_ATTEMPTS: usize = 50;

/// How often one kind of error may recur before the search starts over,
/// where nothing else is set.
pub const DEFAULT_MAX_SPECIFIC_ERROR_COUNT: usize = 100;

/// Whether one of `rules` has the name `name`.
pub open spec fn has_rule_named(rules: Seq<Rule>, name: Seq<char>) -> bool {
    exists|i: int| 0 <= i < rules.len() && (#[trigger] rules[i]).name_spec() == name
}

/// Whether every one of `rules` can be met in a sequence of `count` numbers.
pub open spec fn all_check_count(rules: Seq<Rule>, count: usize) -> bool {
    forall|i: int| 0 <= i < rules.len() ==> (#[trigger] rules[i]).check_count_spec(count)
}

/// The rules that a configuration holds for the rules `given`: the same,
/// with the fallback rule behind them where none of them has its name.
pub open spec fn with_fallback(given: Seq<Rule>) -> Seq<Rule> {
    if has_rule_named(given, random_number_name()) {
        given
    } else {
        given.push(Rule::RandomNumber(RandomNumber {  }))
    }
}

/// An immutable configuration: the ordered rules, the exclusions, the target
/// length, the limits of the search and the source of randomness.
pub struct Settings {
    expected_rules: Vec<Rule>,
    count: usize,
    exclude_rules: Option<Vec<ExcludeRule>>,
    max_tries: usize,
    max_is_match_attempts: usize,
    max_specific_error_count: usize,
    random: Box<dyn RandomTrait>,
}

impl Settings {
    /// The rules, in configured order.
    pub closed spec fn rules(&self) -> Seq<Rule> {
        self.expected_rules@
    }

    /// The exclusions, in configured order; none where none were given.
    pub closed spec fn excludes(&self) -> Seq<ExcludeRule> {
        match self.exclude_rules {
            Some(v) => v@,
            None => Seq::empty(),
        }
    }

    /// Whether exclusions were given.
    pub closed spec fn has_excludes(&self) -> bool {
        self.exclude_rules is Some
    }

    /// The target length.
    pub closed spec fn spec_count(&self) -> usize {
        self.count
    }

    /// The largest number of rounds.
    pub closed spec fn spec_max_tries(&self) -> usize {
        self.max_tries
    }

    /// The number of failed checks of a full sequence after which the
    /// sequence is dropped.
    pub closed spec fn spec_max_is_match_attempts(&self) -> usize {
        self.max_is_match_attempts
    }

    /// How often one kind of error may recur before the search starts over.
    pub closed spec fn spec_max_specific_error_count(&self) -> usize {
        self.max_specific_error_count
    }

    /// Whether every rule accepts `numbers` as a finished sequence of the
    /// target length, and every exclusion lets it pass.
    pub open spec fn accepts(&self, numbers: Seq<usize>) -> bool {
        &&& numbers.len() == self.spec_count()
        &&& forall|i: int|
            0 <= i < self.rules().len() ==> (#[trigger] self.rules()[i]).is_match_spec(
                numbers,
                self.spec_count(),
            )
        &&& forall|j: int|
            0 <= j < self.excludes().len() ==> (#[trigger] self.excludes()[j]).is_excluded_spec(
                numbers,
                self.spec_count(),
            )
    }

    /// Whether every rule and every exclusion lets `numbers` pass as an
    /// unfinished sequence.
    pub open spec fn within_range(&self, numbers: Seq<usize>) -> bool {
        &&& forall|i: int|
            0 <= i < self.rules().len() ==> (#[trigger] self.rules()[i]).within_range_spec(
                numbers,
                self.spec_count(),
            ) is None
        &&& forall|j: int|
            0 <= j < self.excludes().len() ==> (
            #[trigger] self.excludes()[j]).within_excluded_range_spec(numbers, self.spec_count())
                is None
    }

    /// The range rule of a configuration that holds nothing but one range
    /// rule, with a range that holds a number for every position of the
    /// sequence, and the fallback rule behind it.
    pub open spec fn sole_range(&self) -> Option<NumberRange> {
        if self.rules().len() == 2 && self.excludes().len() == 0
            && self.rules()[1] is RandomNumber {
            match self.rules()[0] {
                Rule::NumberRange(r) => if forall|idx: int|
                    0 <= idx < self.spec_count() ==> #[trigger] r.has_room_at(idx) {
                    Some(r)
                } else {
                    None
                },
                _ => None,
            }
        } else {
            None
        }
    }

    /// The one value that every position must take, where the configuration
    /// holds nothing but one range rule whose range, for every position, is
    /// collapsed to a single value, and the fallback rule behind it.
    pub open spec fn collapsed_value(&self) -> Option<usize> {
        if self.rules().len() == 2 && self.excludes().len() == 0
            && self.rules()[1] is RandomNumber {
            match self.rules()[0] {
                Rule::NumberRange(r) => if r.for_all() && r.ranges().contains_key(0)
                    && r.ranges()[0].0 == r.ranges()[0].1 {
                    Some(r.ranges()[0].0)
                } else {
                    None
                },
                _ => None,
            }
        } else {
            None
        }
    }

    /// A configuration of `expected_rules` for sequences of `count` numbers,
    /// without exclusions.
    ///
    /// Every rule must be able to be met in a sequence of that length:
    /// configuring one that cannot is a mistake that no search resolves.
    pub fn new(expected_rules: Vec<Rule>, count: usize) -> (s: Settings)
        requires
            all_check_count(expected_rules@, count),
        ensures
            s.rules() == with_fallback(expected_rules@),
            all_check_count(s.rules(), count),
            has_rule_named(s.rules(), random_number_name()),
            s.excludes().len() == 0,
            !s.has_excludes(),
            s.spec_count() == count,
            s.spec_max_tries() == DEFAULT_MAX_TRIES,
            s.spec_max_is_match_attempts() == DEFAULT_MAX_IS_MATCH_ATTEMPTS,
            s.spec_max_specific_error_count() == DEFAULT_MAX_SPECIFIC_ERROR_COUNT,
    {
        Settings::with_exclude_rules(expected_rules, count, None)
    }

    /// A configuration of `expected_rules` and `exclude_rules` for sequences
    /// of `count` numbers. Where no rule is named `RandomNumber`, the
    /// fallback rule of that name is put behind the others.
    pub fn with_exclude_rules(
        expected_rules: Vec<Rule>,
        count: usize,
        exclude_rules: Option<Vec<ExcludeRule>>,
    ) -> (s: Settings)
        requires
            all_check_count(expected_rules@, count),
        ensures
            s.rules() == with_fallback(expected_rules@),
            all_check_count(s.rules(), count),
            has_rule_named(s.rules(), random_number_name()),
            s.has_excludes() == (exclude_rules is Some),
            exclude_rules matches Some(v) ==> s.excludes() == v@,
            exclude_rules is None ==> s.excludes().len() == 0,
            s.spec_count() == count,
            s.spec_max_tries() == DEFAULT_MAX_TRIES,
            s.spec_max_is_match_attempts() == DEFAULT_MAX_IS_MATCH_ATTEMPTS,
            s.spec_max_specific_error_count() == DEFAULT_MAX_SPECIFIC_ERROR_COUNT,
    {
        let mut rules = expected_rules;
        let ghost given = rules@;
        if !Settings::names_rule(&rules, "RandomNumber") {
            rules.push(Rule::RandomNumber(RandomNumber {  }));
            assert(rules@[given.len() as int].name_spec() == random_number_name());
        }
        assert(rules@ =~= with_fallback(given));
        Settings {
            expected_rules: rules,
            count,
            exclude_rules,
            max_tries: DEFAULT_MAX_TRIES,
            max_is_match_attempts: DEFAULT_MAX_IS_MATCH_ATTEMPTS,
            max_specific_error_count: DEFAULT_MAX_SPECIFIC_ERROR_COUNT,
            random: get_random_trait(),
        }
    }

    /// The configuration of `with_exclude_rules`, after asking every rule
    /// whether it can be met in a sequence of `count` numbers: the first
    /// rule that cannot gives the error, which is its own message.
    pub fn checked(
        expected_rules: Vec<Rule>,
        count: usize,
        exclude_rules: Option<Vec<ExcludeRule>>,
    ) -> (r: Result<Settings, String>)
        ensures
            r is Ok <==> all_check_count(expected_rules@, count),
            r matches Err(e) ==> exists|i: int|
                {
                    &&& 0 <= i < expected_rules@.len()
                    &&& !(#[trigger] expected_rules@[i]).check_count_spec(count)
                    &&& e@ == expected_rules@[i].check_count_text(count)
                    &&& forall|k: int|
                        0 <= k < i ==> (#[trigger] expected_rules@[k]).check_count_spec(count)
                },
            r matches Ok(s) ==> {
                &&& s.rules() == with_fallback(expected_rules@)
                &&& s.has_excludes() == (exclude_rules is Some)
                &&& (exclude_rules matches Some(v) ==> s.excludes() == v@)
                &&& s.spec_count() == count
            },
    {
        let mut i: usize = 0;
        while i < expected_rules.len()
            invariant
                i <= expected_rules@.len(),
                forall|k: int| 0 <= k < i ==> (#[trigger] expected_rules@[k]).check_count_spec(count),
            decreases expected_rules@.len() - i,
        {
            match expected_rules[i].check_count(count) {
                Ok(_) => {},
                Err(e) => {
                    return Err(e);
                },
            }
            i += 1;
        }
        Ok(Settings::with_exclude_rules(expected_rules, count, exclude_rules))
    }

    /// Whether one of `rules` has the name `name`.
    fn names_rule(rules: &Vec<Rule>, name: &str) -> (b: bool)
        ensures
            b == has_rule_named(rules@, name@),
    {
        let wanted = name.to_owned();
        let mut i: usize = 0;
        while i < rules.len()
            invariant
                i <= rules@.len(),
                wanted@ == name@,
                forall|k: int| 0 <= k < i ==> (#[trigger] rules@[k]).name_spec() != name@,
            decreases rules@.len() - i,
        {
            if rules[i].name() == wanted {
                return true;
            }
            i += 1;
        }
        false
    }

    /// The position of the first of the rules that has the name `name`.
    pub fn rule_position(&self, name: &String) -> (r: Option<usize>)
        ensures
            match r {
                Some(i) => i < self.rules().len() && self.rules()[i as int].name_spec() == name@
                    && forall|k: int| 0 <= k < i ==> (#[trigger] self.rules()[k]).name_spec()
                    != name@,
                None => !has_rule_named(self.rules(), name@),
            },
    {
        let mut i: usize = 0;
        while i < self.expected_rules.len()
            invariant
                i <= self.expected_rules@.len(),
                forall|k: int|
                    0 <= k < i ==> (#[trigger] self.expected_rules@[k]).name_spec() != name@,
            decreases self.expected_rules@.len() - i,
        {
            if self.expected_rules[i].name() == *name {
                return Some(i);
            }
            i += 1;
        }
        None
    }

    /// The range that the rule named `key` has published: its `min` fact, or
    /// 0 where there is none, and its `max` fact, or the largest number.
    pub fn get_min_max(key: &str, shared_data: &SharedData) -> (r: (usize, usize))
        ensures
            r == min_max_spec(shared_data, key@),
    {
        shared_min_max(key, shared_data)
    }

    /// What is reported where no rule has the fallback rule's name.
    pub open spec fn no_fallback_text() -> Seq<char> {
        "No rule is named RandomNumber"@
    }

    /// Asks the first rule named `RandomNumber` for numbers: by default the
    /// fallback rule, which draws one from the range shared for the next
    /// position.
    pub fn get_number_within_number_range(&self, current_data: &CurrentData) -> (r: Result<
        Vec<usize>,
        String,
    >)
        ensures
            has_rule_named(self.rules(), random_number_name()) ==> exists|i: int|
                0 <= i < self.rules().len() && (#[trigger] self.rules()[i]).name_spec()
                    == random_number_name() && self.rules()[i].get_numbers_spec(current_data, r),
            !has_rule_named(self.rules(), random_number_name()) ==> (r matches Err(e) && e@
                == Self::no_fallback_text()),
    {
        let name = "RandomNumber".to_owned();
        match self.rule_position(&name) {
            Some(i) => self.expected_rules[i].get_numbers(current_data),
            None => Err("No rule is named RandomNumber".to_owned()),
        }
    }

    /// The rules, in configured order.
    pub fn expected_rules(&self) -> (r: &Vec<Rule>)
        ensures
            r@ == self.rules(),
    {
        &self.expected_rules
    }

    /// The exclusions, where some were given.
    pub fn exclude_rules(&self) -> (r: &Option<Vec<ExcludeRule>>)
        ensures
            r is Some == self.has_excludes(),
            r matches Some(v) ==> v@ == self.excludes(),
            r is None ==> self.excludes().len() == 0,
    {
        &self.exclude_rules
    }

    /// The target length.
    pub fn count(&self) -> (r: usize)
        ensures
            r == self.spec_count(),
    {
        self.count
    }

    /// The largest number of rounds.
    pub fn max_tries(&self) -> (r: usize)
        ensures
            r == self.spec_max_tries(),
    {
        self.max_tries
    }

    /// The number of failed checks of a full sequence after which the
    /// sequence is dropped.
    pub fn max_is_match_attempts(&self) -> (r: usize)
        ensures
            r == self.spec_max_is_match_attempts(),
    {
        self.max_is_match_attempts
    }

    /// How often one kind of error may recur before the search starts over.
    pub fn max_specific_error_count(&self) -> (r: usize)
        ensures
            r == self.spec_max_specific_error_count(),
    {
        self.max_specific_error_count
    }

    /// The source of randomness.
    pub fn random(&self) -> (r: &dyn RandomTrait) {
        &*self.random
    }

    /// Sets the limits of the search and leaves the rest as it is.
    pub fn set_limits(
        &mut self,
        max_tries: usize,
        max_is_match_attempts: usize,
        max_specific_error_count: usize,
    )
        ensures
            final(self).rules() == old(self).rules(),
            final(self).excludes() == old(self).excludes(),
            final(self).has_excludes() == old(self).has_excludes(),
            final(self).spec_count() == old(self).spec_count(),
            final(self).spec_max_tries() == max_tries,
            final(self).spec_max_is_match_attempts() == max_is_match_attempts,
            final(self).spec_max_specific_error_count() == max_specific_error_count,
    {
        self.max_tries = max_tries;
        self.max_is_match_attempts = max_is_match_attempts;
        self.max_specific_error_count = max_specific_error_count;
    }

    /// Replaces the source of randomness and leaves the rest as it is.
    pub fn set_random_trait(&mut self, random: Box<dyn RandomTrait>)
        ensures
            final(self).rules() == old(self).rules(),
            final(self).excludes() == old(self).excludes(),
            final(self).has_excludes() == old(self).has_excludes(),
            final(self).spec_count() == old(self).spec_count(),
            final(self).spec_max_tries() == old(self).spec_max_tries(),
            final(self).spec_max_is_match_attempts() == old(self).spec_max_is_match_attempts(),
            final(self).spec_max_specific_error_count() == old(
                self,
            ).spec_max_specific_error_count(),
    {
        self.random = random;
    }
}

} // verus!
