//! The closed catalogue of rules and of exclusions.

use vstd::prelude::*;
use crate::random::CurrentData;
use crate::rules::exclude_rule_trait::ExcludeRuleTrait;
use crate::rules::exclude_number_sets::ExcludeNumberSets;
use crate::rules::no_duplicates::NoDuplicate;
use crate::rules::number_pool::NumberPool;
use crate::rules::number_pool_by_index::NumberPoolByIndex;
use crate::rules::number_range::NumberRange;
use crate::rules::number_space::NumberSpace;
use crate::rules::odd_even::OddEven;
use crate::rules::odd_even_by_index::OddEvenByIndex;
use crate::rules::random_number::RandomNumber;
use crate::rules::sequential::Sequential;
use crate::rules::rule_trait::{FactMap, IsWithinErrorType, RuleTrait};

verus! {

/// One rule of the catalogue. It decides what the rule it holds decides.
#[derive(Clone, Debug)]
pub enum Rule {
    ExcludeNumberSets(ExcludeNumberSets),
    NoDuplicate(NoDuplicate),
    NumberPool(NumberPool),
    NumberPoolByIndex(NumberPoolByIndex),
    NumberRange(NumberRange),
    NumberSpace(NumberSpace),
    OddEven(OddEven),
    OddEvenByIndex(OddEvenByIndex),
    RandomNumber(RandomNumber),
    Sequential(Sequential),
}

/// One exclusion of the catalogue. It decides what the exclusion it holds
/// decides.
#[derive(Clone, Debug)]
pub enum ExcludeRule {
    ExcludeNumberSets(ExcludeNumberSets),
    NoDuplicate(NoDuplicate),
    NumberPool(NumberPool),
    NumberPoolByIndex(NumberPoolByIndex),
    NumberRange(NumberRange),
    NumberSpace(NumberSpace),
}

impl RuleTrait for Rule {
    open spec fn name_spec(&self) -> Seq<char> {
        match self {
            Rule::ExcludeNumberSets(r) => r.name_spec(),
            Rule::NoDuplicate(r) => r.name_spec(),
            Rule::NumberPool(r) => r.name_spec(),
            Rule::NumberPoolByIndex(r) => r.name_spec(),
            Rule::NumberRange(r) => r.name_spec(),
            Rule::NumberSpace(r) => r.name_spec(),
            Rule::OddEven(r) => r.name_spec(),
            Rule::OddEvenByIndex(r) => r.name_spec(),
            Rule::RandomNumber(r) => r.name_spec(),
            Rule::Sequential(r) => r.name_spec(),
        }
    }

    open spec fn rule_text(&self) -> Seq<char> {
        match self {
            Rule::ExcludeNumberSets(r) => r.rule_text(),
            Rule::NoDuplicate(r) => r.rule_text(),
            Rule::NumberPool(r) => r.rule_text(),
            Rule::NumberPoolByIndex(r) => r.rule_text(),
            Rule::NumberRange(r) => r.rule_text(),
            Rule::NumberSpace(r) => r.rule_text(),
            Rule::OddEven(r) => r.rule_text(),
            Rule::OddEvenByIndex(r) => r.rule_text(),
            Rule::RandomNumber(r) => r.rule_text(),
            Rule::Sequential(r) => r.rule_text(),
        }
    }

    open spec fn within_range_spec(&self, numbers: Seq<usize>, count: usize) -> Option<
        IsWithinErrorType,
    > {
        match self {
            Rule::ExcludeNumberSets(r) => r.within_range_spec(numbers, count),
            Rule::NoDuplicate(r) => r.within_range_spec(numbers, count),
            Rule::NumberPool(r) => r.within_range_spec(numbers, count),
            Rule::NumberPoolByIndex(r) => r.within_range_spec(numbers, count),
            Rule::NumberRange(r) => r.within_range_spec(numbers, count),
            Rule::NumberSpace(r) => r.within_range_spec(numbers, count),
            Rule::OddEven(r) => r.within_range_spec(numbers, count),
            Rule::OddEvenByIndex(r) => r.within_range_spec(numbers, count),
            Rule::RandomNumber(r) => r.within_range_spec(numbers, count),
            Rule::Sequential(r) => r.within_range_spec(numbers, count),
        }
    }

    open spec fn is_match_spec(&self, numbers: Seq<usize>, count: usize) -> bool {
        match self {
            Rule::ExcludeNumberSets(r) => r.is_match_spec(numbers, count),
            Rule::NoDuplicate(r) => r.is_match_spec(numbers, count),
            Rule::NumberPool(r) => r.is_match_spec(numbers, count),
            Rule::NumberPoolByIndex(r) => r.is_match_spec(numbers, count),
            Rule::NumberRange(r) => r.is_match_spec(numbers, count),
            Rule::NumberSpace(r) => r.is_match_spec(numbers, count),
            Rule::OddEven(r) => r.is_match_spec(numbers, count),
            Rule::OddEvenByIndex(r) => r.is_match_spec(numbers, count),
            Rule::RandomNumber(r) => r.is_match_spec(numbers, count),
            Rule::Sequential(r) => r.is_match_spec(numbers, count),
        }
    }

    open spec fn check_count_spec(&self, count: usize) -> bool {
        match self {
            Rule::ExcludeNumberSets(r) => r.check_count_spec(count),
            Rule::NoDuplicate(r) => r.check_count_spec(count),
            Rule::NumberPool(r) => r.check_count_spec(count),
            Rule::NumberPoolByIndex(r) => r.check_count_spec(count),
            Rule::NumberRange(r) => r.check_count_spec(count),
            Rule::NumberSpace(r) => r.check_count_spec(count),
            Rule::OddEven(r) => r.check_count_spec(count),
            Rule::OddEvenByIndex(r) => r.check_count_spec(count),
            Rule::RandomNumber(r) => r.check_count_spec(count),
            Rule::Sequential(r) => r.check_count_spec(count),
        }
    }

    open spec fn check_count_text(&self, count: usize) -> Seq<char> {
        match self {
            Rule::ExcludeNumberSets(r) => r.check_count_text(count),
            Rule::NoDuplicate(r) => r.check_count_text(count),
            Rule::NumberPool(r) => r.check_count_text(count),
            Rule::NumberPoolByIndex(r) => r.check_count_text(count),
            Rule::NumberRange(r) => r.check_count_text(count),
            Rule::NumberSpace(r) => r.check_count_text(count),
            Rule::OddEven(r) => r.check_count_text(count),
            Rule::OddEvenByIndex(r) => r.check_count_text(count),
            Rule::RandomNumber(r) => r.check_count_text(count),
            Rule::Sequential(r) => r.check_count_text(count),
        }
    }

    open spec fn share_data_spec(&self, current_data: &CurrentData, facts: Option<FactMap>) -> bool {
        match self {
            Rule::ExcludeNumberSets(r) => r.share_data_spec(current_data, facts),
            Rule::NoDuplicate(r) => r.share_data_spec(current_data, facts),
            Rule::NumberPool(r) => r.share_data_spec(current_data, facts),
            Rule::NumberPoolByIndex(r) => r.share_data_spec(current_data, facts),
            Rule::NumberRange(r) => r.share_data_spec(current_data, facts),
            Rule::NumberSpace(r) => r.share_data_spec(current_data, facts),
            Rule::OddEven(r) => r.share_data_spec(current_data, facts),
            Rule::OddEvenByIndex(r) => r.share_data_spec(current_data, facts),
            Rule::RandomNumber(r) => r.share_data_spec(current_data, facts),
            Rule::Sequential(r) => r.share_data_spec(current_data, facts),
        }
    }

    open spec fn get_numbers_spec(
        &self,
        current_data: &CurrentData,
        result: Result<Vec<usize>, String>,
    ) -> bool {
        match self {
            Rule::ExcludeNumberSets(r) => r.get_numbers_spec(current_data, result),
            Rule::NoDuplicate(r) => r.get_numbers_spec(current_data, result),
            Rule::NumberPool(r) => r.get_numbers_spec(current_data, result),
            Rule::NumberPoolByIndex(r) => r.get_numbers_spec(current_data, result),
            Rule::NumberRange(r) => r.get_numbers_spec(current_data, result),
            Rule::NumberSpace(r) => r.get_numbers_spec(current_data, result),
            Rule::OddEven(r) => r.get_numbers_spec(current_data, result),
            Rule::OddEvenByIndex(r) => r.get_numbers_spec(current_data, result),
            Rule::RandomNumber(r) => r.get_numbers_spec(current_data, result),
            Rule::Sequential(r) => r.get_numbers_spec(current_data, result),
        }
    }

    fn is_within_range(&self, current_data: &CurrentData) -> (r: Result<
        (),
        (IsWithinErrorType, String),
    >) {
        match self {
            Rule::ExcludeNumberSets(r) => r.is_within_range(current_data),
            Rule::NoDuplicate(r) => r.is_within_range(current_data),
            Rule::NumberPool(r) => r.is_within_range(current_data),
            Rule::NumberPoolByIndex(r) => r.is_within_range(current_data),
            Rule::NumberRange(r) => r.is_within_range(current_data),
            Rule::NumberSpace(r) => r.is_within_range(current_data),
            Rule::OddEven(r) => r.is_within_range(current_data),
            Rule::OddEvenByIndex(r) => r.is_within_range(current_data),
            Rule::RandomNumber(r) => r.is_within_range(current_data),
            Rule::Sequential(r) => r.is_within_range(current_data),
        }
    }

    fn is_match(&self, current_data: &CurrentData) -> (r: Result<(), String>) {
        match self {
            Rule::ExcludeNumberSets(r) => r.is_match(current_data),
            Rule::NoDuplicate(r) => r.is_match(current_data),
            Rule::NumberPool(r) => r.is_match(current_data),
            Rule::NumberPoolByIndex(r) => r.is_match(current_data),
            Rule::NumberRange(r) => r.is_match(current_data),
            Rule::NumberSpace(r) => r.is_match(current_data),
            Rule::OddEven(r) => r.is_match(current_data),
            Rule::OddEvenByIndex(r) => r.is_match(current_data),
            Rule::RandomNumber(r) => r.is_match(current_data),
            Rule::Sequential(r) => r.is_match(current_data),
        }
    }

    fn get_numbers(&self, current_data: &CurrentData) -> (r: Result<Vec<usize>, String>) {
        match self {
            Rule::ExcludeNumberSets(r) => r.get_numbers(current_data),
            Rule::NoDuplicate(r) => r.get_numbers(current_data),
            Rule::NumberPool(r) => r.get_numbers(current_data),
            Rule::NumberPoolByIndex(r) => r.get_numbers(current_data),
            Rule::NumberRange(r) => r.get_numbers(current_data),
            Rule::NumberSpace(r) => r.get_numbers(current_data),
            Rule::OddEven(r) => r.get_numbers(current_data),
            Rule::OddEvenByIndex(r) => r.get_numbers(current_data),
            Rule::RandomNumber(r) => r.get_numbers(current_data),
            Rule::Sequential(r) => r.get_numbers(current_data),
        }
    }

    fn share_data(&self, current_data: &CurrentData) -> (r: Option<FactMap>) {
        match self {
            Rule::ExcludeNumberSets(r) => r.share_data(current_data),
            Rule::NoDuplicate(r) => r.share_data(current_data),
            Rule::NumberPool(r) => r.share_data(current_data),
            Rule::NumberPoolByIndex(r) => r.share_data(current_data),
            Rule::NumberRange(r) => r.share_data(current_data),
            Rule::NumberSpace(r) => r.share_data(current_data),
            Rule::OddEven(r) => r.share_data(current_data),
            Rule::OddEvenByIndex(r) => r.share_data(current_data),
            Rule::RandomNumber(r) => r.share_data(current_data),
            Rule::Sequential(r) => r.share_data(current_data),
        }
    }

    fn check_count(&self, count: usize) -> (r: Result<bool, String>) {
        match self {
            Rule::ExcludeNumberSets(r) => r.check_count(count),
            Rule::NoDuplicate(r) => r.check_count(count),
            Rule::NumberPool(r) => r.check_count(count),
            Rule::NumberPoolByIndex(r) => r.check_count(count),
            Rule::NumberRange(r) => r.check_count(count),
            Rule::NumberSpace(r) => r.check_count(count),
            Rule::OddEven(r) => r.check_count(count),
            Rule::OddEvenByIndex(r) => r.check_count(count),
            Rule::RandomNumber(r) => r.check_count(count),
            Rule::Sequential(r) => r.check_count(count),
        }
    }

    fn name(&self) -> (r: String) {
        match self {
            Rule::ExcludeNumberSets(r) => r.name(),
            Rule::NoDuplicate(r) => r.name(),
            Rule::NumberPool(r) => r.name(),
            Rule::NumberPoolByIndex(r) => r.name(),
            Rule::NumberRange(r) => r.name(),
            Rule::NumberSpace(r) => r.name(),
            Rule::OddEven(r) => r.name(),
            Rule::OddEvenByIndex(r) => r.name(),
            Rule::RandomNumber(r) => r.name(),
            Rule::Sequential(r) => r.name(),
        }
    }

    fn to_string(&self) -> (r: String) {
        match self {
            Rule::ExcludeNumberSets(r) => RuleTrait::to_string(r),
            Rule::NoDuplicate(r) => RuleTrait::to_string(r),
            Rule::NumberPool(r) => RuleTrait::to_string(r),
            Rule::NumberPoolByIndex(r) => RuleTrait::to_string(r),
            Rule::NumberRange(r) => RuleTrait::to_string(r),
            Rule::NumberSpace(r) => RuleTrait::to_string(r),
            Rule::OddEven(r) => RuleTrait::to_string(r),
            Rule::OddEvenByIndex(r) => RuleTrait::to_string(r),
            Rule::RandomNumber(r) => RuleTrait::to_string(r),
            Rule::Sequential(r) => RuleTrait::to_string(r),
        }
    }
}

impl ExcludeRuleTrait for ExcludeRule {
    open spec fn exclude_name_spec(&self) -> Seq<char> {
        match self {
            ExcludeRule::ExcludeNumberSets(r) => r.exclude_name_spec(),
            ExcludeRule::NoDuplicate(r) => r.exclude_name_spec(),
            ExcludeRule::NumberPool(r) => r.exclude_name_spec(),
            ExcludeRule::NumberPoolByIndex(r) => r.exclude_name_spec(),
            ExcludeRule::NumberRange(r) => r.exclude_name_spec(),
            ExcludeRule::NumberSpace(r) => r.exclude_name_spec(),
        }
    }

    open spec fn exclusion_text(&self) -> Seq<char> {
        match self {
            ExcludeRule::ExcludeNumberSets(r) => r.exclusion_text(),
            ExcludeRule::NoDuplicate(r) => r.exclusion_text(),
            ExcludeRule::NumberPool(r) => r.exclusion_text(),
            ExcludeRule::NumberPoolByIndex(r) => r.exclusion_text(),
            ExcludeRule::NumberRange(r) => r.exclusion_text(),
            ExcludeRule::NumberSpace(r) => r.exclusion_text(),
        }
    }

    open spec fn is_excluded_spec(&self, numbers: Seq<usize>, count: usize) -> bool {
        match self {
            ExcludeRule::ExcludeNumberSets(r) => r.is_excluded_spec(numbers, count),
            ExcludeRule::NoDuplicate(r) => r.is_excluded_spec(numbers, count),
            ExcludeRule::NumberPool(r) => r.is_excluded_spec(numbers, count),
            ExcludeRule::NumberPoolByIndex(r) => r.is_excluded_spec(numbers, count),
            ExcludeRule::NumberRange(r) => r.is_excluded_spec(numbers, count),
            ExcludeRule::NumberSpace(r) => r.is_excluded_spec(numbers, count),
        }
    }

    open spec fn within_excluded_range_spec(&self, numbers: Seq<usize>, count: usize) -> Option<
        IsWithinErrorType,
    > {
        match self {
            ExcludeRule::ExcludeNumberSets(r) => r.within_excluded_range_spec(numbers, count),
            ExcludeRule::NoDuplicate(r) => r.within_excluded_range_spec(numbers, count),
            ExcludeRule::NumberPool(r) => r.within_excluded_range_spec(numbers, count),
            ExcludeRule::NumberPoolByIndex(r) => r.within_excluded_range_spec(numbers, count),
            ExcludeRule::NumberRange(r) => r.within_excluded_range_spec(numbers, count),
            ExcludeRule::NumberSpace(r) => r.within_excluded_range_spec(numbers, count),
        }
    }

    fn is_excluded(&self, current_data: &CurrentData) -> (r: Result<(), String>) {
        match self {
            ExcludeRule::ExcludeNumberSets(r) => r.is_excluded(current_data),
            ExcludeRule::NoDuplicate(r) => r.is_excluded(current_data),
            ExcludeRule::NumberPool(r) => r.is_excluded(current_data),
            ExcludeRule::NumberPoolByIndex(r) => r.is_excluded(current_data),
            ExcludeRule::NumberRange(r) => r.is_excluded(current_data),
            ExcludeRule::NumberSpace(r) => r.is_excluded(current_data),
        }
    }

    fn is_within_excluded_range(&self, current_data: &CurrentData) -> (r: Result<
        (),
        (IsWithinErrorType, String),
    >) {
        match self {
            ExcludeRule::ExcludeNumberSets(r) => r.is_within_excluded_range(current_data),
            ExcludeRule::NoDuplicate(r) => r.is_within_excluded_range(current_data),
            ExcludeRule::NumberPool(r) => r.is_within_excluded_range(current_data),
            ExcludeRule::NumberPoolByIndex(r) => r.is_within_excluded_range(current_data),
            ExcludeRule::NumberRange(r) => r.is_within_excluded_range(current_data),
            ExcludeRule::NumberSpace(r) => r.is_within_excluded_range(current_data),
        }
    }

    fn exclude_name(&self) -> (r: String) {
        match self {
            ExcludeRule::ExcludeNumberSets(r) => r.exclude_name(),
            ExcludeRule::NoDuplicate(r) => r.exclude_name(),
            ExcludeRule::NumberPool(r) => r.exclude_name(),
            ExcludeRule::NumberPoolByIndex(r) => r.exclude_name(),
            ExcludeRule::NumberRange(r) => r.exclude_name(),
            ExcludeRule::NumberSpace(r) => r.exclude_name(),
        }
    }

    fn to_string(&self) -> (r: String) {
        match self {
            ExcludeRule::ExcludeNumberSets(r) => ExcludeRuleTrait::to_string(r),
            ExcludeRule::NoDuplicate(r) => ExcludeRuleTrait::to_string(r),
            ExcludeRule::NumberPool(r) => ExcludeRuleTrait::to_string(r),
            ExcludeRule::NumberPoolByIndex(r) => ExcludeRuleTrait::to_string(r),
            ExcludeRule::NumberRange(r) => ExcludeRuleTrait::to_string(r),
            ExcludeRule::NumberSpace(r) => ExcludeRuleTrait::to_string(r),
        }
    }
}

} // verus!
