//! What every exclusion offers to the engine.

use vstd::prelude::*;
use vstd::string::*;
use crate::random::CurrentData;
use crate::rules::rule_trait::IsWithinErrorType;

verus! {

/// The message of an exclusion whose underlying check succeeded.
pub open spec fn excluded_text(rule: Seq<char>) -> Seq<char> {
    "Number Contains Rule "@ + rule + ", that should be excluded."@
}

/// Turns the outcome of a check around: a check that succeeded becomes an
/// error that names the rule, a check that failed becomes success.
pub fn is_excluded_helper(is_match_results: &Result<(), String>, rule_str: &str) -> (r: Result<
    (),
    String,
>)
    ensures
        r is Ok <==> is_match_results is Err,
        r matches Err(m) ==> m@ == excluded_text(rule_str@),
{
    match is_match_results {
        Ok(_) => {
            let mut m = String::from_str("Number Contains Rule ");
            m.append(rule_str);
            m.append(", that should be excluded.");
            Err(m)
        },
        Err(_) => Ok(()),
    }
}

/// The dual of a rule: it holds of a finished sequence where a condition does
/// not.
pub trait ExcludeRuleTrait {
    /// The exclusion's name.
    spec fn exclude_name_spec(&self) -> Seq<char>;

    /// The exclusion's settings, written out.
    spec fn exclusion_text(&self) -> Seq<char>;

    /// Whether the exclusion lets `numbers` pass as a finished sequence.
    spec fn is_excluded_spec(&self, numbers: Seq<usize>, count: usize) -> bool;

    /// The verdict on an unfinished sequence: `None` where the exclusion lets
    /// it pass, else the kind of violation.
    spec fn within_excluded_range_spec(&self, numbers: Seq<usize>, count: usize) -> Option<
        IsWithinErrorType,
    >;

    /// Checks a finished sequence.
    fn is_excluded(&self, current_data: &CurrentData) -> (r: Result<(), String>)
        ensures
            r is Ok <==> self.is_excluded_spec(current_data.numbers(), current_data.spec_count()),
    ;

    /// Checks an unfinished sequence.
    fn is_within_excluded_range(&self, current_data: &CurrentData) -> (r: Result<
        (),
        (IsWithinErrorType, String),
    >)
        ensures
            match r {
                Ok(_) => self.within_excluded_range_spec(
                    current_data.numbers(),
                    current_data.spec_count(),
                ) is None,
                Err(e) => self.within_excluded_range_spec(
                    current_data.numbers(),
                    current_data.spec_count(),
                ) == Some(e.0),
            },
    ;

    /// The exclusion's name.
    fn exclude_name(&self) -> (r: String)
        ensures
            r@ == self.exclude_name_spec(),
    ;

    /// The exclusion's settings, written out.
    fn to_string(&self) -> (r: String)
        ensures
            r@ == self.exclusion_text(),
    ;
}

} // verus!
