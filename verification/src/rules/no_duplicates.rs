//! The rule that no number occurs twice.

use vstd::prelude::*;
use vstd::string::*;
use crate::random::CurrentData;
use crate::rules::exclude_rule_trait::{is_excluded_helper, ExcludeRuleTrait};
use crate::rules::rule_trait::{skip, skip_text, FactMap, IsWithinErrorType, RuleTrait};
use crate::text::{list_text, list_to_string};

verus! {

/// Accepts a sequence in which no number occurs twice. As an exclusion it
/// lets a finished sequence pass only where some number does occur twice.
#[derive(Clone, Copy, Debug)]
pub struct NoDuplicate {}

/// As many distinct values as positions.
pub open spec fn all_distinct(numbers: Seq<usize>) -> bool {
    numbers.to_set().len() == numbers.len()
}

/// A sequence has as many distinct values as positions exactly where no
/// value occurs at two positions.
pub proof fn lemma_all_distinct(numbers: Seq<usize>)
    ensures
        all_distinct(numbers) <==> numbers.no_duplicates(),
{
    if numbers.no_duplicates() {
        numbers.unique_seq_to_set();
    }
    if all_distinct(numbers) {
        numbers.lemma_no_dup_set_cardinality();
    }
}

/// What is reported of a sequence in which a number occurs twice.
pub open spec fn duplicate_text(numbers: Seq<usize>) -> Seq<char> {
    "Duplicate found in "@ + list_text(numbers)
}

impl NoDuplicate {
    /// The rule's settings, written out: it has none but its title.
    pub open spec fn text(&self) -> Seq<char> {
        "No Duplicate"@
    }

    /// The rule's settings, written out.
    pub fn to_string(&self) -> (r: String)
        ensures
            r@ == self.text(),
    {
        "No Duplicate".to_owned()
    }
}

impl RuleTrait for NoDuplicate {
    open spec fn name_spec(&self) -> Seq<char> {
        "NoDuplicate"@
    }

    open spec fn rule_text(&self) -> Seq<char> {
        self.text()
    }

    open spec fn within_range_spec(&self, numbers: Seq<usize>, count: usize) -> Option<
        IsWithinErrorType,
    > {
        if all_distinct(numbers) {
            None
        } else {
            Some(IsWithinErrorType::Regular)
        }
    }

    open spec fn is_match_spec(&self, numbers: Seq<usize>, count: usize) -> bool {
        all_distinct(numbers)
    }

    open spec fn check_count_spec(&self, count: usize) -> bool {
        true
    }

    open spec fn check_count_text(&self, count: usize) -> Seq<char> {
        Seq::empty()
    }

    open spec fn share_data_spec(&self, current_data: &CurrentData, facts: Option<FactMap>) -> bool {
        facts is None
    }

    open spec fn get_numbers_spec(
        &self,
        current_data: &CurrentData,
        result: Result<Vec<usize>, String>,
    ) -> bool {
        result matches Err(e) && e@ == skip_text()
    }

    fn is_within_range(&self, current_data: &CurrentData) -> (r: Result<
        (),
        (IsWithinErrorType, String),
    >)
        ensures
            r matches Err(e) ==> e.1@ == duplicate_text(current_data.numbers()),
    {
        broadcast use vstd::std_specs::hash::group_hash_axioms;

        if current_data.selected_numbers().len() != current_data.selected_numbers_set().len() {
            let mut m = String::from_str("Duplicate found in ");
            let l = list_to_string(current_data.selected_numbers());
            m.append(l.as_str());
            return Err((IsWithinErrorType::Regular, m));
        }
        Ok(())
    }

    fn is_match(&self, current_data: &CurrentData) -> (r: Result<(), String>)
        ensures
            r matches Err(e) ==> e@ == duplicate_text(current_data.numbers()),
    {
        match self.is_within_range(current_data) {
            Ok(_) => Ok(()),
            Err(e) => Err(e.1),
        }
    }

    fn get_numbers(&self, current_data: &CurrentData) -> (r: Result<Vec<usize>, String>) {
        Err(skip())
    }

    fn share_data(&self, current_data: &CurrentData) -> (r: Option<FactMap>) {
        None
    }

    fn check_count(&self, count: usize) -> (r: Result<bool, String>) {
        Ok(true)
    }

    fn name(&self) -> (r: String) {
        "NoDuplicate".to_owned()
    }

    fn to_string(&self) -> (r: String) {
        "No Duplicate".to_owned()
    }
}

impl ExcludeRuleTrait for NoDuplicate {
    open spec fn exclude_name_spec(&self) -> Seq<char> {
        "NoDuplicate"@
    }

    open spec fn exclusion_text(&self) -> Seq<char> {
        self.text()
    }

    open spec fn is_excluded_spec(&self, numbers: Seq<usize>, count: usize) -> bool {
        !all_distinct(numbers)
    }

    open spec fn within_excluded_range_spec(&self, numbers: Seq<usize>, count: usize) -> Option<
        IsWithinErrorType,
    > {
        None
    }

    fn is_excluded(&self, current_data: &CurrentData) -> (r: Result<(), String>) {
        let text = NoDuplicate::to_string(self);
        is_excluded_helper(&self.is_match(current_data), text.as_str())
    }

    fn is_within_excluded_range(&self, current_data: &CurrentData) -> (r: Result<
        (),
        (IsWithinErrorType, String),
    >) {
        Ok(())
    }

    fn exclude_name(&self) -> (r: String) {
        self.name()
    }

    fn to_string(&self) -> (r: String) {
        "No Duplicate".to_owned()
    }
}

} // verus!
