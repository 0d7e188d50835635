//! The fallback rule: one number from the range that the round's facts give.

use vstd::prelude::*;
use vstd::string::*;
use crate::random::CurrentData;
use crate::rules::rule_trait::{FactMap, IsWithinErrorType, RuleTrait};

verus! {

/// Proposes one number drawn from the range that a range rule has published
/// for the next position, or from the whole machine range where none has. It
/// accepts every sequence.
#[derive(Clone, Copy, Debug)]
pub struct RandomNumber {}

/// The name under which the fallback rule is known.
pub open spec fn random_number_name() -> Seq<char> {
    "RandomNumber"@
}

impl RandomNumber {
    /// The rule's settings, written out: its name.
    pub open spec fn text(&self) -> Seq<char> {
        random_number_name()
    }

    /// The rule's settings, written out.
    pub fn to_string(&self) -> (r: String)
        ensures
            r@ == self.text(),
    {
        "RandomNumber".to_owned()
    }
}

impl RuleTrait for RandomNumber {
    open spec fn name_spec(&self) -> Seq<char> {
        random_number_name()
    }

    open spec fn rule_text(&self) -> Seq<char> {
        self.text()
    }

    open spec fn within_range_spec(&self, numbers: Seq<usize>, count: usize) -> Option<
        IsWithinErrorType,
    > {
        None
    }

    open spec fn is_match_spec(&self, numbers: Seq<usize>, count: usize) -> bool {
        true
    }

    open spec fn check_count_spec(&self, count: usize) -> bool {
        true
    }

    open spec fn check_count_text(&self, count: usize) -> Seq<char> {
        Seq::empty()
    }

    open spec fn share_data_spec(&self, current_data: &CurrentData, facts: Option<FactMap>) -> bool {
        facts is None
    }

    /// One number within the shared range; an error where that range is
    /// empty.
    open spec fn get_numbers_spec(
        &self,
        current_data: &CurrentData,
        result: Result<Vec<usize>, String>,
    ) -> bool {
        current_data.drawn_from_shared_range(result)
    }

    fn is_within_range(&self, current_data: &CurrentData) -> (r: Result<
        (),
        (IsWithinErrorType, String),
    >) {
        Ok(())
    }

    fn is_match(&self, current_data: &CurrentData) -> (r: Result<(), String>) {
        Ok(())
    }

    fn get_numbers(&self, current_data: &CurrentData) -> (r: Result<Vec<usize>, String>) {
        current_data.get_number_within_number_range()
    }

    fn share_data(&self, current_data: &CurrentData) -> (r: Option<FactMap>) {
        None
    }

    fn check_count(&self, count: usize) -> (r: Result<bool, String>) {
        Ok(true)
    }

    fn name(&self) -> (r: String) {
        "RandomNumber".to_owned()
    }

    fn to_string(&self) -> (r: String) {
        "RandomNumber".to_owned()
    }
}

} // verus!
