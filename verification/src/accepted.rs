//! What holds of every sequence that a configuration accepts, and so of the
//! numbers of every successful generation.

use vstd::prelude::*;
use crate::rules::exclude_rule_trait::ExcludeRuleTrait;
use crate::rules::no_duplicates::{all_distinct, lemma_all_distinct, NoDuplicate};
use crate::rules::number_pool::{count_in, recount, NumberPool};
use crate::rules::number_range::NumberRange;
use crate::rules::number_space::{space_has, NumberSpace, NumberSpaceItem};
use crate::rules::odd_even::{count_even, count_odd, OddEven};
use crate::rules::rule::{ExcludeRule, Rule};
use crate::rules::rule_trait::RuleTrait;
use crate::rules::sequential::{not_in_runs, run_counts, Sequential};
use crate::settings::Settings;

verus! {

/// An accepted sequence has the target length.
pub proof fn lemma_accepted_length(settings: &Settings, numbers: Seq<usize>)
    requires
        settings.accepts(numbers),
    ensures
        numbers.len() == settings.spec_count(),
{
}

/// In an accepted sequence every number lies within the range that a range
/// rule of the configuration keeps for its position, both ends included.
pub proof fn lemma_accepted_within_ranges(
    settings: &Settings,
    numbers: Seq<usize>,
    i: int,
    rule: NumberRange,
    idx: int,
)
    requires
        settings.accepts(numbers),
        0 <= i < settings.rules().len(),
        settings.rules()[i] == Rule::NumberRange(rule),
        0 <= idx < numbers.len(),
        rule.ranges().contains_key(rule.key_for(idx)),
    ensures
        rule.ranges()[rule.key_for(idx)].0 <= numbers[idx] <= rule.ranges()[rule.key_for(idx)].1,
{
    assert(settings.rules()[i].is_match_spec(numbers, settings.spec_count()));
    assert(rule.passes(numbers, false));
    assert(!rule.fails_at(idx, numbers[idx], false));
}

/// In an accepted sequence every number lies within the one range of a range
/// rule that holds for every position.
pub proof fn lemma_accepted_within_range(
    settings: &Settings,
    numbers: Seq<usize>,
    i: int,
    rule: NumberRange,
    min: usize,
    max: usize,
)
    requires
        settings.accepts(numbers),
        0 <= i < settings.rules().len(),
        settings.rules()[i] == Rule::NumberRange(rule),
        rule.for_all(),
        rule.ranges() == Map::<usize, (usize, usize)>::empty().insert(0, (min, max)),
    ensures
        forall|idx: int| 0 <= idx < numbers.len() ==> min <= #[trigger] numbers[idx] <= max,
{
    assert forall|idx: int| 0 <= idx < numbers.len() implies min <= #[trigger] numbers[idx]
        <= max by {
        lemma_accepted_within_ranges(settings, numbers, i, rule, idx);
    }
}

/// In an accepted sequence no number lies within a range that an exclusion of
/// the configuration keeps for its position.
pub proof fn lemma_accepted_outside_excluded(
    settings: &Settings,
    numbers: Seq<usize>,
    j: int,
    rule: NumberRange,
    idx: int,
)
    requires
        settings.accepts(numbers),
        0 <= j < settings.excludes().len(),
        settings.excludes()[j] == ExcludeRule::NumberRange(rule),
        0 <= idx < numbers.len(),
        rule.ranges().contains_key(rule.key_for(idx)),
    ensures
        numbers[idx] < rule.ranges()[rule.key_for(idx)].0 || numbers[idx]
            > rule.ranges()[rule.key_for(idx)].1,
{
    assert(settings.excludes()[j].is_excluded_spec(numbers, settings.spec_count()));
    assert(rule.passes(numbers, true));
    assert(!rule.fails_at(idx, numbers[idx], true));
}

/// Where the configuration holds the rule against duplicates, an accepted
/// sequence has as many distinct values as numbers: no value occurs twice.
pub proof fn lemma_accepted_distinct(settings: &Settings, numbers: Seq<usize>, i: int)
    requires
        settings.accepts(numbers),
        0 <= i < settings.rules().len(),
        settings.rules()[i] is NoDuplicate,
    ensures
        numbers.to_set().len() == numbers.len(),
        numbers.no_duplicates(),
{
    assert(settings.rules()[i].is_match_spec(numbers, settings.spec_count()));
    lemma_all_distinct(numbers);
}

/// Where the configuration holds that rule as an exclusion instead, an
/// accepted sequence holds some value twice.
pub proof fn lemma_accepted_duplicate(settings: &Settings, numbers: Seq<usize>, j: int)
    requires
        settings.accepts(numbers),
        0 <= j < settings.excludes().len(),
        settings.excludes()[j] is NoDuplicate,
    ensures
        numbers.to_set().len() != numbers.len(),
        exists|a: int, b: int| 0 <= a < b < numbers.len() && numbers[a] == numbers[b],
{
    assert(settings.excludes()[j].is_excluded_spec(numbers, settings.spec_count()));
    lemma_all_distinct(numbers);
    assert(!numbers.no_duplicates());
    let (a, b) = choose|a: int, b: int|
        0 <= a < numbers.len() && 0 <= b < numbers.len() && a != b && numbers[a] == numbers[b];
    if a < b {
        assert(0 <= a < b < numbers.len() && numbers[a] == numbers[b]);
    } else {
        assert(0 <= b < a < numbers.len() && numbers[b] == numbers[a]);
    }
}

/// The parity counts that describe an accepted sequence are the counts that
/// the parity rule of the configuration asks for.
pub proof fn lemma_accepted_parity(
    settings: &Settings,
    numbers: Seq<usize>,
    i: int,
    rule: OddEven,
    described: OddEven,
)
    requires
        settings.accepts(numbers),
        0 <= i < settings.rules().len(),
        settings.rules()[i] == Rule::OddEven(rule),
        described.spec_odd() == count_odd(numbers),
        described.spec_even() == count_even(numbers),
    ensures
        described == rule,
{
    assert(settings.rules()[i].is_match_spec(numbers, settings.spec_count()));
    OddEven::lemma_equal(described, rule);
}

/// The run profile that describes an accepted sequence is the profile that
/// the run rule of the configuration asks for.
pub proof fn lemma_accepted_runs(
    settings: &Settings,
    numbers: Seq<usize>,
    i: int,
    rule: Sequential,
    described: Sequential,
)
    requires
        settings.accepts(numbers),
        0 <= i < settings.rules().len(),
        settings.rules()[i] == Rule::Sequential(rule),
        described.spec_not() == not_in_runs(numbers),
        described.counts() == run_counts(numbers, false),
    ensures
        described.spec_not() == rule.spec_not(),
        described.counts() == rule.counts(),
{
    assert(settings.rules()[i].is_match_spec(numbers, settings.spec_count()));
}

/// In an accepted sequence as many numbers are values of a pool as the pool
/// rule of the configuration asks for, so the rule described anew from the
/// sequence asks for what it asked for before.
pub proof fn lemma_accepted_pools(
    settings: &Settings,
    numbers: Seq<usize>,
    i: int,
    rule: NumberPool,
    k: int,
)
    requires
        settings.accepts(numbers),
        0 <= i < settings.rules().len(),
        settings.rules()[i] == Rule::NumberPool(rule),
        0 <= k < rule.entries().len(),
    ensures
        count_in(rule.entries()[k].members, numbers) == rule.entries()[k].needs,
        recount(rule.entries()[k], numbers).has == rule.entries()[k].needs,
        recount(rule.entries()[k], numbers).missing == 0,
{
    assert(settings.rules()[i].is_match_spec(numbers, settings.spec_count()));
    assert(rule.all_met(numbers));
}

/// A gap rule of the configuration, described anew from an accepted sequence
/// so that every condition asks for the gaps that meet it, asks for what it
/// asked for before.
pub proof fn lemma_accepted_gaps(
    settings: &Settings,
    numbers: Seq<usize>,
    i: int,
    rule: NumberSpace,
    k: int,
    described: NumberSpaceItem,
)
    requires
        settings.accepts(numbers),
        0 <= i < settings.rules().len(),
        settings.rules()[i] == Rule::NumberSpace(rule),
        0 <= k < rule.items().len(),
        described.judges(rule.items()[k], numbers, true),
    ensures
        described.spec_needs() == rule.items()[k].spec_needs(),
        described.spec_type() == rule.items()[k].spec_type(),
        space_has(rule.items()[k].spec_type(), numbers) == rule.items()[k].spec_needs(),
{
    assert(settings.rules()[i].is_match_spec(numbers, settings.spec_count()));
    assert(rule.all_met(numbers));
}

} // verus!
