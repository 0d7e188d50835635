//! What every rule offers to the engine.

use vstd::prelude::*;
use crate::random::CurrentData;
use crate::string_map::StringMap;
use crate::text::{decimal, push_number};

verus! {

/// A fact that one rule publishes for the others to read within a round.
#[derive(Debug, Clone)]
pub enum MapAnyValue {
    String(String),
    Usize(usize),
}

/// How a violation found on an unfinished sequence is to be treated.
#[derive(Debug, Clone, Copy, PartialEq, Eq, Structural)]
pub enum IsWithinErrorType {
    /// The sequence breaks the rule.
    Regular,
    /// The rule is running out of free positions for what it still needs,
    /// and asks to propose first in the next round.
    MakePriority,
}

/// The facts of one rule, by fact key.
pub type FactMap = StringMap<MapAnyValue>;

/// The facts of a round, by the name of the rule that published them.
pub type SharedData = StringMap<FactMap>;

/// The word with which a rule declines to propose numbers in a round.
pub open spec fn skip_text() -> Seq<char> {
    "Skip"@
}

/// The error with which a rule declines to propose numbers.
pub fn skip() -> (s: String)
    ensures
        s@ == skip_text(),
{
    "Skip".to_owned()
}

/// Whether `message` is the word with which a rule declines.
pub fn is_skip(message: &String) -> (b: bool)
    ensures
        b == (message@ == skip_text()),
{
    let word = skip();
    *message == word
}

/// The number published as fact `fact` by the rule named `rule`, if there is
/// one.
pub open spec fn shared_number(shared: &SharedData, rule: Seq<char>, fact: Seq<char>) -> Option<
    usize,
> {
    if shared@.contains_key(rule) && shared@[rule]@.contains_key(fact) {
        match shared@[rule]@[fact] {
            MapAnyValue::Usize(v) => Some(v),
            MapAnyValue::String(_) => None,
        }
    } else {
        None
    }
}

/// The range published under the rule name `key`: its `min` fact, or 0 where
/// there is none, and its `max` fact, or the largest number.
pub open spec fn min_max_spec(shared: &SharedData, key: Seq<char>) -> (usize, usize) {
    (
        match shared_number(shared, key, "min"@) {
            Some(v) => v,
            None => 0,
        },
        match shared_number(shared, key, "max"@) {
            Some(v) => v,
            None => usize::MAX,
        },
    )
}

/// The range that the rule named `key` has published in `shared_data`.
pub fn shared_min_max(key: &str, shared_data: &SharedData) -> (r: (usize, usize))
    ensures
        r == min_max_spec(shared_data, key@),
{
    let mut min = usize::MIN;
    let mut max = usize::MAX;
    if let Some(number_range_data) = shared_data.get(key) {
        if let Some(MapAnyValue::Usize(v)) = number_range_data.get("min") {
            min = *v;
        }
        if let Some(MapAnyValue::Usize(v)) = number_range_data.get("max") {
            max = *v;
        }
    }
    (min, max)
}

/// What a rule reports where its pools or runs ask for `total` numbers and
/// the sequence has room for `count`.
pub open spec fn count_text(name: Seq<char>, total: nat, count: usize) -> Seq<char> {
    name + " count: "@ + (if total <= usize::MAX {
        decimal(total)
    } else {
        "more than "@ + decimal(usize::MAX as nat)
    }) + " is greater than count: "@ + decimal(count as nat) + " "@
}

/// Writes the report that a rule asks for more numbers than the sequence has
/// room for; `total` is what it asks for, or nothing where that is no
/// machine number.
pub fn count_message(name: &str, total: Option<usize>, count: usize) -> (m: String)
    ensures
        forall|t: nat|
            (match total {
                Some(v) => t == v,
                None => t > usize::MAX,
            }) ==> m@ == #[trigger] count_text(name@, t, count),
{
    let mut m = name.to_owned();
    m.append(" count: ");
    match total {
        Some(v) => {
            push_number(&mut m, v);
        },
        None => {
            m.append("more than ");
            push_number(&mut m, usize::MAX);
        },
    }
    m.append(" is greater than count: ");
    push_number(&mut m, count);
    m.append(" ");
    m
}

/// A unit of constraint logic. A rule proposes numbers, judges an unfinished
/// sequence and a finished one, publishes facts for other rules, and says
/// whether it can be met at all in a sequence of a given length.
///
/// What a rule decides of a sequence is a function of the sequence and of the
/// target length alone; the specification functions name these decisions and
/// the methods compute them.
pub trait RuleTrait {
    /// The rule's name.
    spec fn name_spec(&self) -> Seq<char>;

    /// The verdict on an unfinished sequence: `None` where it can still grow
    /// into one that the rule accepts, else the kind of violation.
    spec fn within_range_spec(&self, numbers: Seq<usize>, count: usize) -> Option<
        IsWithinErrorType,
    >;

    /// Whether the rule accepts `numbers` as a finished sequence.
    spec fn is_match_spec(&self, numbers: Seq<usize>, count: usize) -> bool;

    /// Whether the rule can be met in a sequence of `count` numbers.
    spec fn check_count_spec(&self, count: usize) -> bool;

    /// The rule's settings, written out.
    spec fn rule_text(&self) -> Seq<char>;

    /// What the rule reports where it cannot be met in a sequence of `count`
    /// numbers.
    spec fn check_count_text(&self, count: usize) -> Seq<char>;

    /// Whether `facts` is what the rule publishes for the sequence in
    /// `current_data`.
    spec fn share_data_spec(&self, current_data: &CurrentData, facts: Option<FactMap>) -> bool;

    /// Whether `result` is an admissible answer to a request for numbers to
    /// append to the sequence in `current_data`.
    spec fn get_numbers_spec(
        &self,
        current_data: &CurrentData,
        result: Result<Vec<usize>, String>,
    ) -> bool;

    /// Checks an unfinished sequence.
    fn is_within_range(&self, current_data: &CurrentData) -> (r: Result<
        (),
        (IsWithinErrorType, String),
    >)
        ensures
            match r {
                Ok(_) => self.within_range_spec(current_data.numbers(), current_data.spec_count())
                    is None,
                Err(e) => self.within_range_spec(current_data.numbers(), current_data.spec_count())
                    == Some(e.0),
            },
    ;

    /// Checks a finished sequence.
    fn is_match(&self, current_data: &CurrentData) -> (r: Result<(), String>)
        ensures
            r is Ok <==> self.is_match_spec(current_data.numbers(), current_data.spec_count()),
    ;

    /// Proposes numbers to append, declines with the word `Skip`, or reports
    /// why it cannot propose.
    fn get_numbers(&self, current_data: &CurrentData) -> (r: Result<Vec<usize>, String>)
        ensures
            self.get_numbers_spec(current_data, r),
    ;

    /// Publishes facts for the other rules to read in this round.
    fn share_data(&self, current_data: &CurrentData) -> (r: Option<FactMap>)
        ensures
            self.share_data_spec(current_data, r),
    ;

    /// Says whether the rule can be met in a sequence of `count` numbers; the
    /// error tells why it cannot.
    fn check_count(&self, count: usize) -> (r: Result<bool, String>)
        ensures
            r is Ok <==> self.check_count_spec(count),
            r matches Ok(b) ==> b,
            r matches Err(e) ==> e@ == self.check_count_text(count),
    ;

    /// The rule's name.
    fn name(&self) -> (r: String)
        ensures
            r@ == self.name_spec(),
    ;

    /// The rule's settings, written out.
    fn to_string(&self) -> (r: String)
        ensures
            r@ == self.rule_text(),
    ;
}

/// Asking a rule twice whether it can be met in a sequence of `count` numbers
/// gives the same answer twice: both succeed with the same value, or both
/// fail with the same message.
pub proof fn lemma_check_count_idempotent<R: RuleTrait>(
    rule: &R,
    count: usize,
    first: Result<bool, String>,
    second: Result<bool, String>,
)
    requires
        first is Ok <==> rule.check_count_spec(count),
        first matches Ok(b) ==> b,
        first matches Err(e) ==> e@ == rule.check_count_text(count),
        second is Ok <==> rule.check_count_spec(count),
        second matches Ok(b) ==> b,
        second matches Err(e) ==> e@ == rule.check_count_text(count),
    ensures
        first is Ok <==> second is Ok,
        first matches Ok(a) ==> second == Ok::<bool, String>(a),
        first matches Err(a) ==> (second matches Err(b) && a@ == b@),
{
}

} // verus!
