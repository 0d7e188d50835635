//! The generation engine and what it hands to the rules and back to the
//! caller.

use vstd::prelude::*;
use vstd::string::*;
use std::collections::HashSet;
use crate::random_trait::{shuffle_vec, swapped, lemma_swapped_multiset, RandomTrait};
use crate::rules::exclude_rule_trait::ExcludeRuleTrait;
use crate::rules::number_range::NumberRange;
use crate::rules::rule::{ExcludeRule, Rule};
use crate::rules::rule_trait::{
    is_skip,
    min_max_spec,
    shared_min_max,
    FactMap,
    IsWithinErrorType,
    RuleTrait,
    SharedData,
};
use crate::sets::{copy_numbers, copy_set, set_of};
use crate::settings::Settings;
use crate::sorting::{ascending, sorted_copy};
use crate::string_map::StringMap;
use crate::text::{decimal, is_char_code, list_text, push_list, push_number, text_of};

verus! {

/// What a rule sees of a round: the numbers selected so far, the
/// configuration and the facts that the rules have shared. The set and the
/// ascending arrangement of the numbers are computed once, when the value is
/// made, and always stand for exactly those numbers.
pub struct CurrentData<'a> {
    selected_numbers: &'a Vec<usize>,
    selected_numbers_set: HashSet<usize>,
    selected_numbers_sorted: Vec<usize>,
    count: usize,
    random: &'a dyn RandomTrait,
    shared_data: &'a SharedData,
}

/// What is reported where the range shared for the next position is empty.
pub open spec fn empty_range_text() -> Seq<char> {
    "No number lies in the range that was shared"@
}

/// The report of an empty shared range is not the word with which a rule
/// declines.
pub proof fn lemma_empty_range_is_no_skip()
    ensures
        empty_range_text() != crate::rules::rule_trait::skip_text(),
{
    reveal_strlit("No number lies in the range that was shared");
    reveal_strlit("Skip");
    assert(empty_range_text().len() > 4);
    assert(crate::rules::rule_trait::skip_text().len() == 4);
}

impl<'a> CurrentData<'a> {
    /// The numbers selected so far, in the order of selection.
    pub closed spec fn numbers(&self) -> Seq<usize> {
        self.selected_numbers@
    }


    /// The facts shared in this round.
    pub closed spec fn shared(&self) -> &SharedData {
        self.shared_data
    }

    /// The target length.
    pub closed spec fn spec_count(&self) -> usize {
        self.count
    }

    /// Whether `result` is one number within the range shared under the name
    /// `NumberRange`, or, where that range is empty, the error that says so.
    pub open spec fn drawn_from_shared_range(&self, result: Result<Vec<usize>, String>) -> bool {
        let (min, max) = min_max_spec(self.shared(), "NumberRange"@);
        if min <= max {
            result matches Ok(v) && v@.len() == 1 && min <= v@[0] <= max
        } else {
            result matches Err(e) && e@ == empty_range_text()
        }
    }

    #[verifier::type_invariant]
    spec fn derived_views_agree(&self) -> bool {
        &&& self.selected_numbers_set@ == self.selected_numbers@.to_set()
        &&& self.selected_numbers_sorted@ == ascending(self.selected_numbers@)
    }

    /// The view of a round over `selected_numbers`, with the target length
    /// and the source of randomness of `settings`.
    pub fn new(
        selected_numbers: &'a Vec<usize>,
        settings: &'a Settings,
        shared_data: &'a SharedData,
    ) -> (r: CurrentData<'a>)
        ensures
            r.numbers() == selected_numbers@,
            r.spec_count() == settings.spec_count(),
            r.shared() == shared_data,
    {
        CurrentData {
            selected_numbers,
            selected_numbers_set: set_of(selected_numbers.as_slice()),
            selected_numbers_sorted: sorted_copy(selected_numbers.as_slice()),
            count: settings.count(),
            random: settings.random(),
            shared_data,
        }
    }

    /// The view of `current_data` with other shared facts. The set and the
    /// ascending arrangement are taken over, not computed anew.
    pub fn from_current_data(current_data: &'a CurrentData, shared_data: &'a SharedData) -> (r:
        CurrentData<'a>)
        ensures
            r.numbers() == current_data.numbers(),
            r.spec_count() == current_data.spec_count(),
            r.shared() == shared_data,
    {
        proof {
            use_type_invariant(current_data);
        }
        let sorted = current_data.selected_numbers_sorted.clone();
        assert(sorted@ =~= current_data.selected_numbers_sorted@);
        CurrentData {
            selected_numbers: current_data.selected_numbers,
            selected_numbers_set: copy_set(&current_data.selected_numbers_set),
            selected_numbers_sorted: sorted,
            count: current_data.count,
            random: current_data.random,
            shared_data,
        }
    }

    /// The numbers selected so far, in the order of selection.
    pub fn selected_numbers(&self) -> (r: &'a Vec<usize>)
        ensures
            r@ == self.numbers(),
    {
        self.selected_numbers
    }

    /// The target length.
    pub fn count(&self) -> (r: usize)
        ensures
            r == self.spec_count(),
    {
        self.count
    }

    /// The source of randomness.
    pub fn random(&self) -> (r: &'a dyn RandomTrait) {
        self.random
    }

    /// One number drawn from the range shared for the next position under
    /// the name `NumberRange`, or from the whole machine range where none was
    /// shared.
    pub fn get_number_within_number_range(&self) -> (r: Result<Vec<usize>, String>)
        ensures
            self.drawn_from_shared_range(r),
    {
        let (min, max) = shared_min_max("NumberRange", self.shared_data);
        if min <= max {
            let n = self.random.get_number(min, max);
            let mut v: Vec<usize> = Vec::new();
            v.push(n);
            Ok(v)
        } else {
            Err("No number lies in the range that was shared".to_owned())
        }
    }

    /// The facts shared in this round.
    pub fn shared_data(&self) -> (r: &'a SharedData)
        ensures
            r == self.shared(),
    {
        self.shared_data
    }

    /// The set of the numbers selected so far.
    pub fn selected_numbers_set(&self) -> (r: &HashSet<usize>)
        ensures
            r@ == self.numbers().to_set(),
    {
        proof {
            use_type_invariant(self);
        }
        &self.selected_numbers_set
    }

    /// The numbers selected so far, in ascending order.
    pub fn selected_numbers_sorted(&self) -> (r: &Vec<usize>)
        ensures
            r@ == ascending(self.numbers()),
    {
        proof {
            use_type_invariant(self);
        }
        &self.selected_numbers_sorted
    }
}

/// How a generation ended.
#[derive(Debug, PartialEq, Eq, Hash, Copy, Clone, Structural)]
pub enum RandomResultType {
    Success,
    BadRequest,
    Failed,
}

/// An entry of the log of a generation.
#[derive(Debug, Clone)]
pub enum Log {
    Error { msg: String },
    Info { msg: String },
}

/// What an entry of the log says.
pub enum LogView {
    Error(Seq<char>),
    Info(Seq<char>),
}

impl Log {
    /// What the entry says.
    pub open spec fn view(&self) -> LogView {
        match self {
            Log::Error { msg } => LogView::Error(msg@),
            Log::Info { msg } => LogView::Info(msg@),
        }
    }

    /// The entry written out: `Error : ` or `Info  : `, then the message.
    pub fn to_string(&self) -> (r: String)
        ensures
            r@ == log_text(self@),
    {
        match self {
            Log::Error { msg } => {
                let mut s = String::from_str("Error : ");
                s.append(msg.as_str());
                s
            },
            Log::Info { msg } => {
                let mut s = String::from_str("Info  : ");
                s.append(msg.as_str());
                s
            },
        }
    }
}

/// An entry written out: `Error : ` or `Info  : `, then the message.
pub open spec fn log_text(log: LogView) -> Seq<char> {
    match log {
        LogView::Error(m) => "Error : "@ + m,
        LogView::Info(m) => "Info  : "@ + m,
    }
}

/// How the message of the entry that opens a round begins.
pub open spec fn round_prefix() -> Seq<char> {
    "Attempt - "@
}

/// Whether `log` is the entry that opens a round.
pub open spec fn opens_round(log: LogView) -> bool {
    log matches LogView::Info(m) && round_prefix().is_prefix_of(m)
}

/// An entry as a line of the written result: the entry that opens a round has
/// an empty line before it.
pub open spec fn log_line(log: LogView) -> Seq<char> {
    (if opens_round(log) {
        "\n"@
    } else {
        Seq::empty()
    }) + log_text(log)
}

/// The entries `logs` as the lines of the written result.
pub open spec fn logs_text(logs: Seq<LogView>) -> Seq<char>
    decreases logs.len(),
{
    if logs.len() == 0 {
        Seq::empty()
    } else if logs.len() == 1 {
        log_line(logs[0])
    } else {
        logs_text(logs.drop_last()) + "\n"@ + log_line(logs.last())
    }
}

/// The name of a status.
pub open spec fn status_text(status: RandomResultType) -> Seq<char> {
    match status {
        RandomResultType::Success => "Success"@,
        RandomResultType::BadRequest => "BadRequest"@,
        RandomResultType::Failed => "Failed"@,
    }
}

/// What a result answers when it is asked for its numbers, written out.
pub open spec fn numbers_text(status: RandomResultType, numbers: Seq<usize>) -> Seq<char> {
    if status == RandomResultType::Success {
        "Ok("@ + list_text(numbers) + ")"@
    } else {
        "Err(\"Error! Please Check Logs!\")"@
    }
}

/// A result written out: status, numbers, rounds, restarts, and the log with
/// an empty line before every round.
pub open spec fn result_text(
    status: RandomResultType,
    numbers: Seq<usize>,
    attempts: usize,
    clears: Seq<usize>,
    logs: Seq<LogView>,
) -> Seq<char> {
    "\n\nStatus - "@ + status_text(status) + "\nNumbers - "@ + numbers_text(status, numbers)
        + "\nAttempts - "@ + decimal(attempts as nat) + "\nClear Errs - "@ + list_text(clears)
        + "\n"@ + logs_text(logs)
}

/// What the entries of a log say, one for one.
pub open spec fn log_views(logs: Seq<Log>) -> Seq<LogView> {
    logs.map_values(|l: Log| l@)
}

/// The message with which results that are no success answer.
pub open spec fn check_logs_text() -> Seq<char> {
    "Error! Please Check Logs!"@
}

/// The message of a successful result whose numbers are not all numbers of
/// characters.
pub open spec fn no_text_text() -> Seq<char> {
    "Error! A number is not the number of a character."@
}

/// The outcome of a generation: how it ended, the numbers of a success, the
/// number of rounds, the log and the rounds in which the search started
/// over.
#[derive(Debug)]
pub struct RandomResult {
    status: RandomResultType,
    numbers: Vec<usize>,
    attempts: usize,
    logs: Vec<Log>,
    clear_err_tracker: Vec<usize>,
}

impl RandomResult {
    /// How the generation ended.
    pub closed spec fn spec_status(&self) -> RandomResultType {
        self.status
    }

    /// The numbers of the result; none unless it is a success.
    pub closed spec fn spec_numbers(&self) -> Seq<usize> {
        self.numbers@
    }

    /// The number of the last round.
    pub closed spec fn spec_attempts(&self) -> usize {
        self.attempts
    }

    /// The log.
    pub closed spec fn spec_logs(&self) -> Seq<Log> {
        self.logs@
    }

    /// The rounds in which the search started over.
    pub closed spec fn spec_clears(&self) -> Seq<usize> {
        self.clear_err_tracker@
    }

    /// How the generation ended.
    pub fn status(&self) -> (r: RandomResultType)
        ensures
            r == self.spec_status(),
    {
        self.status
    }

    /// The numbers of a success; an error for every other result.
    pub fn numbers(&self) -> (r: Result<&Vec<usize>, String>)
        ensures
            r is Ok <==> self.spec_status() == RandomResultType::Success,
            r matches Ok(v) ==> v@ == self.spec_numbers(),
            r matches Err(e) ==> e@ == check_logs_text(),
    {
        match self.status {
            RandomResultType::Success => Ok(&self.numbers),
            _ => Err("Error! Please Check Logs!".to_owned()),
        }
    }

    /// The numbers of a success as a text, each number as the character that
    /// it is the number of; with `shuffle`, in an order drawn from `random`.
    /// An error for every other result, and for numbers that are not all
    /// numbers of characters.
    pub fn string(&self, shuffle: bool, random: &dyn RandomTrait) -> (r: Result<String, String>)
        ensures
            r is Ok <==> self.spec_status() == RandomResultType::Success && forall|i: int|
                0 <= i < self.spec_numbers().len() ==> is_char_code(
                    #[trigger] self.spec_numbers()[i],
                ),
            r matches Ok(s) ==> crate::rules::exclude_number_sets::codes(s@).to_multiset()
                == self.spec_numbers().to_multiset(),
            r matches Ok(s) ==> !shuffle ==> crate::rules::exclude_number_sets::codes(s@)
                == self.spec_numbers(),
            r matches Err(e) ==> e@ == if self.spec_status() == RandomResultType::Success {
                no_text_text()
            } else {
                check_logs_text()
            },
    {
        match self.status {
            RandomResultType::Success => {
                let mut numbers: Vec<usize> = copy_numbers(self.numbers.as_slice());
                if shuffle {
                    shuffle_vec(&mut numbers, random);
                }
                let text = text_of(&numbers);
                proof {
                    lemma_all_char_codes(self.numbers@, numbers@);
                    let a = self.spec_numbers();
                    let b = numbers@;
                    assert(text is Some <==> (forall|i: int|
                        0 <= i < b.len() ==> is_char_code(#[trigger] b[i])));
                    assert(text is Some <==> (forall|i: int|
                        0 <= i < a.len() ==> is_char_code(#[trigger] a[i])));
                }
                match text {
                    Some(s) => {
                        assert(crate::rules::exclude_number_sets::codes(s@) =~= numbers@);
                        Ok(s)
                    },
                    None => Err("Error! A number is not the number of a character.".to_owned()),
                }
            },
            _ => Err("Error! Please Check Logs!".to_owned()),
        }
    }

    /// The number of the last round.
    pub fn attempts(&self) -> (r: usize)
        ensures
            r == self.spec_attempts(),
    {
        self.attempts
    }

    /// The log.
    pub fn logs(&self) -> (r: &Vec<Log>)
        ensures
            r@ == self.spec_logs(),
    {
        &self.logs
    }

    /// The rounds in which the search started over.
    pub fn clear_err_tracker(&self) -> (r: &Vec<usize>)
        ensures
            r@ == self.spec_clears(),
    {
        &self.clear_err_tracker
    }

    /// The result written out: status, numbers, rounds, restarts, and the
    /// log with an empty line before every round.
    pub open spec fn text(&self) -> Seq<char> {
        result_text(
            self.spec_status(),
            self.spec_numbers(),
            self.spec_attempts(),
            self.spec_clears(),
            log_views(self.spec_logs()),
        )
    }

    /// The result written out: status, numbers, rounds, restarts, and the
    /// log with an empty line before every round.
    pub fn to_string(&self) -> (r: String)
        ensures
            r@ == self.text(),
    {
        let mut body = String::new();
        let mut i: usize = 0;
        let ghost views = log_views(self.logs@);
        assert(views.take(0) =~= Seq::empty());
        while i < self.logs.len()
            invariant
                i <= self.logs@.len(),
                views == log_views(self.logs@),
                views.len() == self.logs@.len(),
                body@ == logs_text(views.take(i as int)),
            decreases self.logs@.len() - i,
        {
            let ghost before = body@;
            if i > 0 {
                body.append("\n");
            }
            let line = log_line_string(&self.logs[i]);
            body.append(line.as_str());
            proof {
                let part = views.take(i + 1);
                assert(part.drop_last() =~= views.take(i as int));
                assert(part.last() == self.logs@[i as int]@);
                if i == 0 {
                    assert(before =~= Seq::<char>::empty());
                    assert(body@ =~= log_line(part[0]));
                }
            }
            i += 1;
        }
        assert(views.take(views.len() as int) =~= views);
        let numbers = match self.status {
            RandomResultType::Success => {
                let mut t = String::from_str("Ok(");
                push_list(&mut t, &self.numbers);
                t.append(")");
                t
            },
            _ => String::from_str("Err(\"Error! Please Check Logs!\")"),
        };
        let mut s = String::from_str("\n\nStatus - ");
        match self.status {
            RandomResultType::Success => s.append("Success"),
            RandomResultType::BadRequest => s.append("BadRequest"),
            RandomResultType::Failed => s.append("Failed"),
        }
        s.append("\nNumbers - ");
        s.append(numbers.as_str());
        s.append("\nAttempts - ");
        push_number(&mut s, self.attempts);
        s.append("\nClear Errs - ");
        push_list(&mut s, &self.clear_err_tracker);
        s.append("\n");
        s.append(body.as_str());
        s
    }
}

/// Two sequences that hold the same numbers hold numbers of characters
/// together or not at all.
pub proof fn lemma_all_char_codes(a: Seq<usize>, b: Seq<usize>)
    requires
        a.to_multiset() == b.to_multiset(),
    ensures
        (forall|i: int| 0 <= i < a.len() ==> is_char_code(#[trigger] a[i])) <==> (forall|i: int|
            0 <= i < b.len() ==> is_char_code(#[trigger] b[i])),
{
    broadcast use vstd::seq_lib::group_to_multiset_ensures;

    if forall|i: int| 0 <= i < a.len() ==> is_char_code(#[trigger] a[i]) {
        assert forall|i: int| 0 <= i < b.len() implies is_char_code(#[trigger] b[i]) by {
            assert(b.to_multiset().count(b[i]) > 0);
            assert(a.contains(b[i]));
        }
    }
    if forall|i: int| 0 <= i < b.len() ==> is_char_code(#[trigger] b[i]) {
        assert forall|i: int| 0 <= i < a.len() implies is_char_code(#[trigger] a[i]) by {
            assert(a.to_multiset().count(a[i]) > 0);
            assert(b.contains(a[i]));
        }
    }
}

/// Whether `log` is the entry that opens a round.
fn is_attempt(log: &Log) -> (r: bool)
    ensures
        r == opens_round(log@),
{
    match log {
        Log::Info { msg } => {
            let n = msg.as_str().unicode_len();
            let p = "Attempt - ";
            let m = p.unicode_len();
            if n < m {
                return false;
            }
            let mut i: usize = 0;
            while i < m
                invariant
                    i <= m,
                    m <= n,
                    n == msg@.len(),
                    m == p@.len(),
                    p@ == round_prefix(),
                    log@ == LogView::Info(msg@),
                    forall|k: int| 0 <= k < i ==> msg@[k] == p@[k],
                decreases m - i,
            {
                if msg.as_str().get_char(i) != p.get_char(i) {
                    assert(msg@.subrange(0, m as int)[i as int] != round_prefix()[i as int]);
                    return false;
                }
                i += 1;
            }
            assert(p@ =~= msg@.subrange(0, m as int));
            true
        },
        Log::Error { msg } => false,
    }
}

/// Writes the entry as a line of the written result.
fn log_line_string(log: &Log) -> (r: String)
    ensures
        r@ == log_line(log@),
{
    let text = log.to_string();
    if is_attempt(log) {
        let mut s = String::from_str("\n");
        s.append(text.as_str());
        s
    } else {
        assert(Seq::<char>::empty() + log_text(log@) =~= log_text(log@));
        text
    }
}

/// The entry that reports that the sequence was emptied.
pub open spec fn clear_text() -> Seq<char> {
    "CLEAR - []"@
}

/// The entry that reports why the search starts over.
pub open spec fn reset_text(key: Seq<char>, err: Seq<char>) -> Seq<char> {
    "Reset Because Of Too Many Same Errors - "@ + key + ": "@ + err
}

/// Appending an entry appends what it says.
pub proof fn lemma_log_push(logs: Seq<Log>, log: Log)
    ensures
        log_views(logs.push(log)) == log_views(logs).push(log@),
{
    assert(log_views(logs.push(log)) =~= log_views(logs).push(log@));
}

fn set_numbers(numbers: &mut Vec<usize>, _settings: &Settings, ds: &[usize])
    ensures
        final(numbers)@ == ds@,
{
    numbers.clear();
    let mut i: usize = 0;
    while i < ds.len()
        invariant
            i <= ds@.len(),
            numbers@ == ds@.take(i as int),
        decreases ds@.len() - i,
    {
        numbers.push(ds[i]);
        assert(numbers@ =~= ds@.take(i + 1));
        i += 1;
    }
    assert(numbers@ =~= ds@);
}

fn clear_numbers(logs: &mut Vec<Log>, numbers: &mut Vec<usize>, _settings: &Settings)
    ensures
        final(numbers)@.len() == 0,
        final(logs)@.len() == old(logs)@.len() + 1,
        log_views(final(logs)@) == log_views(old(logs)@).push(LogView::Info(clear_text())),
{
    numbers.clear();
    let mut m = String::from_str("CLEAR - ");
    push_list(&mut m, numbers);
    proof {
        reveal_strlit("CLEAR - ");
        reveal_strlit("CLEAR - []");
        reveal_strlit("[");
        reveal_strlit("]");
        assert(crate::text::joined(numbers@) =~= Seq::<char>::empty());
        assert(m@ =~= clear_text());
        lemma_log_push(logs@, Log::Info { msg: m });
    }
    logs.push(Log::Info { msg: m });
}

/// How often the error `key` has been counted.
pub open spec fn error_count(tracker: Map<Seq<char>, usize>, key: Seq<char>) -> usize {
    if tracker.contains_key(key) {
        tracker[key]
    } else {
        0
    }
}

/// Records the error `err` of the kind `err_for_err_tracker`: the error is
/// logged and its kind is counted. Where the kind has now occurred more
/// often than the configuration allows, the search starts over: the reason
/// is logged, the sequence and all the counts are emptied, and the round
/// `attempts` is noted.
pub fn halt_from_error(
    err_for_err_tracker: &str,
    err: &str,
    logs: &mut Vec<Log>,
    err_tracker: &mut StringMap<usize>,
    attempts: usize,
    numbers: &mut Vec<usize>,
    settings: &Settings,
    clear_err_tracker: &mut Vec<usize>,
)
    ensures
        error_count(old(err_tracker)@, err_for_err_tracker@)
            >= settings.spec_max_specific_error_count() ==> {
            &&& log_views(final(logs)@) == log_views(old(logs)@).push(LogView::Error(err@)).push(
                LogView::Error(reset_text(err_for_err_tracker@, err@)),
            ).push(LogView::Info(clear_text()))
            &&& final(numbers)@.len() == 0
            &&& final(err_tracker)@ == Map::<Seq<char>, usize>::empty()
            &&& final(clear_err_tracker)@ == old(clear_err_tracker)@.push(attempts)
        },
        error_count(old(err_tracker)@, err_for_err_tracker@)
            < settings.spec_max_specific_error_count() ==> {
            &&& log_views(final(logs)@) == log_views(old(logs)@).push(LogView::Error(err@))
            &&& final(numbers)@ == old(numbers)@
            &&& final(err_tracker)@ == old(err_tracker)@.insert(
                err_for_err_tracker@,
                (error_count(old(err_tracker)@, err_for_err_tracker@) + 1) as usize,
            )
            &&& final(clear_err_tracker)@ == old(clear_err_tracker)@
        },
        final(logs)@.len() > old(logs)@.len(),
        final(clear_err_tracker)@.len() >= old(clear_err_tracker)@.len(),
        forall|i: int|
            0 <= i < old(clear_err_tracker)@.len() ==> final(clear_err_tracker)@[i] == old(clear_err_tracker)@[i],
        forall|i: int|
            old(clear_err_tracker)@.len() <= i < final(clear_err_tracker)@.len() ==> final(clear_err_tracker)@[i] == attempts,
        forall|i: int|
            0 <= i < old(logs)@.len() ==> log_views(final(logs)@)[i] == log_views(old(logs)@)[i],
        final(numbers)@ == old(numbers)@ || final(numbers)@.len() == 0,
{
    let first = Log::Error { msg: err.to_owned() };
    proof {
        lemma_log_push(logs@, first);
    }
    logs.push(first);
    let count = match err_tracker.get(err_for_err_tracker) {
        Some(v) => *v,
        None => 0,
    };
    if count >= settings.max_specific_error_count() {
        let mut m = String::from_str("Reset Because Of Too Many Same Errors - ");
        m.append(err_for_err_tracker);
        m.append(": ");
        m.append(err);
        let second = Log::Error { msg: m };
        proof {
            lemma_log_push(logs@, second);
        }
        logs.push(second);
        reset(logs, numbers, settings, err_tracker);
        clear_err_tracker.push(attempts);
    } else {
        err_tracker.insert(err_for_err_tracker.to_owned(), count + 1);
    }
}

fn reset(
    logs: &mut Vec<Log>,
    numbers: &mut Vec<usize>,
    settings: &Settings,
    err_tracker: &mut StringMap<usize>,
)
    ensures
        final(numbers)@.len() == 0,
        final(logs)@.len() == old(logs)@.len() + 1,
        log_views(final(logs)@) == log_views(old(logs)@).push(LogView::Info(clear_text())),
        final(err_tracker)@ == Map::<Seq<char>, usize>::empty(),
{
    clear_numbers(logs, numbers, settings);
    err_tracker.clear();
}

/// Whether `order` arranges the positions of `n` rules: it names each of
/// them, and nothing else.
pub open spec fn is_order(order: Seq<usize>, n: nat) -> bool {
    &&& order.len() == n
    &&& forall|k: int| 0 <= k < order.len() ==> #[trigger] order[k] < n
    &&& forall|i: int| 0 <= i < n ==> #[trigger] names_position(order, i)
}

/// Whether `order` names the position `i`.
pub open spec fn names_position(order: Seq<usize>, i: int) -> bool {
    exists|k: int| 0 <= k < order.len() && #[trigger] order[k] == i
}

/// An arrangement stays one when its items change places.
pub proof fn lemma_order_kept(a: Seq<usize>, b: Seq<usize>, n: nat)
    requires
        is_order(a, n),
        a.to_multiset() == b.to_multiset(),
    ensures
        is_order(b, n),
{
    broadcast use vstd::seq_lib::group_to_multiset_ensures;

    assert(a.to_multiset().len() == a.len());
    assert(b.to_multiset().len() == b.len());
    assert forall|k: int| 0 <= k < b.len() implies #[trigger] b[k] < n by {
        assert(b.to_multiset().count(b[k]) > 0);
        assert(a.contains(b[k]));
    }
    assert forall|i: int| 0 <= i < n implies #[trigger] names_position(b, i) by {
        assert(names_position(a, i));
        let k = choose|k: int| 0 <= k < a.len() && #[trigger] a[k] == i;
        assert(a.to_multiset().count(a[k]) > 0);
        assert(b.contains(a[k]));
        let k2 = choose|k2: int| 0 <= k2 < b.len() && b[k2] == a[k];
        assert(b[k2] == i);
    }
}

/// Whether the log `after` begins with the entries of `before`.
pub open spec fn log_extends(before: Seq<Log>, after: Seq<Log>) -> bool {
    &&& before.len() <= after.len()
    &&& forall|i: int| 0 <= i < before.len() ==> log_views(after)[i] == log_views(before)[i]
}

/// Whether the noted rounds `after` are those of `before`, followed by the
/// round `attempts` any number of times.
pub open spec fn clears_extend(before: Seq<usize>, after: Seq<usize>, attempts: usize) -> bool {
    &&& before.len() <= after.len()
    &&& forall|i: int| 0 <= i < before.len() ==> after[i] == before[i]
    &&& forall|i: int| before.len() <= i < after.len() ==> after[i] == attempts
}

/// Whether every rule of `rules` accepts `numbers` as a finished sequence.
pub open spec fn rules_match(rules: Seq<Rule>, numbers: Seq<usize>, count: usize) -> bool {
    forall|i: int| 0 <= i < rules.len() ==> (#[trigger] rules[i]).is_match_spec(numbers, count)
}

/// Whether every exclusion of `excludes` lets `numbers` pass as a finished
/// sequence.
pub open spec fn excludes_pass(excludes: Seq<ExcludeRule>, numbers: Seq<usize>, count: usize) -> bool {
    forall|j: int|
        0 <= j < excludes.len() ==> (#[trigger] excludes[j]).is_excluded_spec(numbers, count)
}

/// Whether every rule of `rules` lets `numbers` pass as an unfinished
/// sequence.
pub open spec fn rules_within(rules: Seq<Rule>, numbers: Seq<usize>, count: usize) -> bool {
    forall|i: int|
        0 <= i < rules.len() ==> (#[trigger] rules[i]).within_range_spec(numbers, count) is None
}

/// Whether every exclusion of `excludes` lets `numbers` pass as an unfinished
/// sequence.
pub open spec fn excludes_within(excludes: Seq<ExcludeRule>, numbers: Seq<usize>, count: usize) -> bool {
    forall|j: int|
        0 <= j < excludes.len() ==> (#[trigger] excludes[j]).within_excluded_range_spec(
            numbers,
            count,
        ) is None
}

/// The exclusions of an optional list; none where there is no list.
pub open spec fn listed(exclude_rules: &Option<Vec<ExcludeRule>>) -> Seq<ExcludeRule> {
    match exclude_rules {
        Some(v) => v@,
        None => Seq::empty(),
    }
}

/// The name under which a failed exclusion is counted.
pub open spec fn exclusion_key(name: Seq<char>) -> Seq<char> {
    "exr-"@ + name
}

/// Whether `name` is the name under which a failed check of a finished
/// sequence is counted: the name of the first rule, in the order `order`,
/// that does not accept `numbers`, or, where every rule accepts them, that
/// of the first exclusion that does not let them pass.
pub open spec fn names_match_failure(
    rules: Seq<Rule>,
    order: Seq<usize>,
    excludes: Seq<ExcludeRule>,
    numbers: Seq<usize>,
    count: usize,
    name: Seq<char>,
) -> bool {
    ||| exists|k: int|
        {
            &&& 0 <= k < order.len()
            &&& !(#[trigger] rules[order[k] as int]).is_match_spec(numbers, count)
            &&& name == rules[order[k] as int].name_spec()
            &&& forall|j: int|
                0 <= j < k ==> (#[trigger] rules[order[j] as int]).is_match_spec(numbers, count)
        }
    ||| rules_match(rules, numbers, count) && exists|k: int|
        {
            &&& 0 <= k < excludes.len()
            &&& !(#[trigger] excludes[k]).is_excluded_spec(numbers, count)
            &&& name == exclusion_key(excludes[k].exclude_name_spec())
            &&& forall|j: int|
                0 <= j < k ==> (#[trigger] excludes[j]).is_excluded_spec(numbers, count)
        }
}

/// Whether `kind`, `priority` and `name` are what a failed check of an
/// unfinished sequence reports: the kind of violation, the name of the rule
/// or exclusion that found it, and the name under which it is counted. The
/// first rule in the order `order` that objects is reported, or, where none
/// does, the first exclusion.
pub open spec fn names_within_failure(
    rules: Seq<Rule>,
    order: Seq<usize>,
    excludes: Seq<ExcludeRule>,
    numbers: Seq<usize>,
    count: usize,
    kind: IsWithinErrorType,
    priority: Seq<char>,
    name: Seq<char>,
) -> bool {
    ||| exists|k: int|
        {
            &&& 0 <= k < order.len()
            &&& (#[trigger] rules[order[k] as int]).within_range_spec(numbers, count) == Some(kind)
            &&& name == rules[order[k] as int].name_spec()
            &&& priority == name
            &&& forall|j: int|
                0 <= j < k ==> (#[trigger] rules[order[j] as int]).within_range_spec(
                    numbers,
                    count,
                ) is None
        }
    ||| rules_within(rules, numbers, count) && exists|k: int|
        {
            &&& 0 <= k < excludes.len()
            &&& (#[trigger] excludes[k]).within_excluded_range_spec(numbers, count) == Some(kind)
            &&& priority == excludes[k].exclude_name_spec()
            &&& name == exclusion_key(priority)
            &&& forall|j: int|
                0 <= j < k ==> (#[trigger] excludes[j]).within_excluded_range_spec(
                    numbers,
                    count,
                ) is None
        }
}

/// Rules that all accept in some arrangement all accept.
proof fn lemma_order_covers(rules: Seq<Rule>, order: Seq<usize>, numbers: Seq<usize>, count: usize)
    requires
        is_order(order, rules.len()),
    ensures
        (forall|k: int|
            0 <= k < order.len() ==> (#[trigger] rules[order[k] as int]).is_match_spec(
                numbers,
                count,
            )) ==> rules_match(rules, numbers, count),
        (forall|k: int|
            0 <= k < order.len() ==> (#[trigger] rules[order[k] as int]).within_range_spec(
                numbers,
                count,
            ) is None) ==> rules_within(rules, numbers, count),
{
    if forall|k: int|
        0 <= k < order.len() ==> (#[trigger] rules[order[k] as int]).is_match_spec(numbers, count) {
        assert forall|i: int| 0 <= i < rules.len() implies (#[trigger] rules[i]).is_match_spec(
            numbers,
            count,
        ) by {
            assert(names_position(order, i));
            let k = choose|k: int| 0 <= k < order.len() && #[trigger] order[k] == i;
            assert(rules[order[k] as int].is_match_spec(numbers, count));
        }
    }
    if forall|k: int|
        0 <= k < order.len() ==> (#[trigger] rules[order[k] as int]).within_range_spec(
            numbers,
            count,
        ) is None {
        assert forall|i: int| 0 <= i < rules.len() implies (#[trigger] rules[i]).within_range_spec(
            numbers,
            count,
        ) is None by {
            assert(names_position(order, i));
            let k = choose|k: int| 0 <= k < order.len() && #[trigger] order[k] == i;
            assert(rules[order[k] as int].within_range_spec(numbers, count) is None);
        }
    }
}

/// Logs which rule or exclusion failed.
fn log_failed(logs: &mut Vec<Log>, kind: &str, name: &str, text: &str)
    ensures
        final(logs)@.len() == old(logs)@.len() + 1,
        log_extends(old(logs)@, final(logs)@),
{
    let mut m = String::from_str(kind);
    m.append(" - ");
    m.append(name);
    m.append(" - ");
    m.append(text);
    let entry = Log::Info { msg: m };
    proof {
        lemma_log_push(logs@, entry);
    }
    logs.push(entry);
}

/// Checks a full sequence: every rule, in the order `order`, then every
/// exclusion. The first that fails is logged and ends the check; its message
/// comes back with the name under which the failure is counted.
fn is_match_check(
    expected_rules: &Vec<Rule>,
    order: &Vec<usize>,
    exclude_rules: &Option<Vec<ExcludeRule>>,
    _settings: &Settings,
    current_data: &CurrentData,
    logs: &mut Vec<Log>,
) -> (r: Result<(), (String, String)>)
    requires
        is_order(order@, expected_rules@.len()),
    ensures
        r is Ok <==> rules_match(
            expected_rules@,
            current_data.numbers(),
            current_data.spec_count(),
        ) && excludes_pass(
            listed(exclude_rules),
            current_data.numbers(),
            current_data.spec_count(),
        ),
        r matches Err(e) ==> names_match_failure(
            expected_rules@,
            order@,
            listed(exclude_rules),
            current_data.numbers(),
            current_data.spec_count(),
            e.1@,
        ),
        log_extends(old(logs)@, final(logs)@),
        final(logs)@.len() == old(logs)@.len() + if r is Ok {
            0int
        } else {
            1int
        },
{
    let ghost numbers = current_data.numbers();
    let ghost count = current_data.spec_count();
    let mut k: usize = 0;
    while k < order.len()
        invariant
            k <= order@.len(),
            is_order(order@, expected_rules@.len()),
            numbers == current_data.numbers(),
            count == current_data.spec_count(),
            logs@ == old(logs)@,
            forall|j: int|
                0 <= j < k ==> (#[trigger] expected_rules@[order@[j] as int]).is_match_spec(
                    numbers,
                    count,
                ),
        decreases order@.len() - k,
    {
        let expected_rule = &expected_rules[order[k]];
        match expected_rule.is_match(current_data) {
            Ok(_) => {},
            Err(e) => {
                let name = expected_rule.name();
                let text = RuleTrait::to_string(expected_rule);
                log_failed(logs, "Expected Rule", name.as_str(), text.as_str());
                proof {
                    assert(!expected_rules@[order@[k as int] as int].is_match_spec(numbers, count));
                    assert(!rules_match(expected_rules@, numbers, count));
                }
                return Err((e, name));
            },
        }
        k += 1;
    }
    proof {
        lemma_order_covers(expected_rules@, order@, numbers, count);
    }
    if let Some(exc_rules) = exclude_rules {
        let mut j: usize = 0;
        while j < exc_rules.len()
            invariant
                j <= exc_rules@.len(),
                exc_rules@ == listed(exclude_rules),
                numbers == current_data.numbers(),
                count == current_data.spec_count(),
                logs@ == old(logs)@,
                rules_match(expected_rules@, numbers, count),
                forall|i: int|
                    0 <= i < j ==> (#[trigger] exc_rules@[i]).is_excluded_spec(numbers, count),
            decreases exc_rules@.len() - j,
        {
            let exclude_rule = &exc_rules[j];
            match exclude_rule.is_excluded(current_data) {
                Ok(_) => {},
                Err(e) => {
                    let name = exclude_rule.exclude_name();
                    let text = ExcludeRuleTrait::to_string(exclude_rule);
                    log_failed(logs, "Exclude Rule", name.as_str(), text.as_str());
                    let mut rule_name = String::from_str("exr-");
                    rule_name.append(name.as_str());
                    proof {
                        assert(!exc_rules@[j as int].is_excluded_spec(numbers, count));
                    }
                    return Err((e, rule_name));
                },
            }
            j += 1;
        }
    }
    Ok(())
}

/// Checks an unfinished sequence: every rule, in the order `order`, then
/// every exclusion. The first that objects is logged and ends the check; the
/// kind of violation and its message come back with the name of the rule or
/// exclusion and the name under which the failure is counted.
fn is_within_range_check(
    expected_rules: &Vec<Rule>,
    order: &Vec<usize>,
    exclude_rules: &Option<Vec<ExcludeRule>>,
    _settings: &Settings,
    current_data: &CurrentData,
    logs: &mut Vec<Log>,
) -> (r: Result<(), (IsWithinErrorType, String, String, String)>)
    requires
        is_order(order@, expected_rules@.len()),
    ensures
        r is Ok <==> rules_within(
            expected_rules@,
            current_data.numbers(),
            current_data.spec_count(),
        ) && excludes_within(
            listed(exclude_rules),
            current_data.numbers(),
            current_data.spec_count(),
        ),
        r matches Err(e) ==> names_within_failure(
            expected_rules@,
            order@,
            listed(exclude_rules),
            current_data.numbers(),
            current_data.spec_count(),
            e.0,
            e.2@,
            e.3@,
        ),
        log_extends(old(logs)@, final(logs)@),
        final(logs)@.len() == old(logs)@.len() + if r is Ok {
            0int
        } else {
            1int
        },
{
    let ghost numbers = current_data.numbers();
    let ghost count = current_data.spec_count();
    let mut k: usize = 0;
    while k < order.len()
        invariant
            k <= order@.len(),
            is_order(order@, expected_rules@.len()),
            numbers == current_data.numbers(),
            count == current_data.spec_count(),
            logs@ == old(logs)@,
            forall|j: int|
                0 <= j < k ==> (#[trigger] expected_rules@[order@[j] as int]).within_range_spec(
                    numbers,
                    count,
                ) is None,
        decreases order@.len() - k,
    {
        let expected_rule = &expected_rules[order[k]];
        match expected_rule.is_within_range(current_data) {
            Ok(_) => {},
            Err(e) => {
                let name = expected_rule.name();
                let text = RuleTrait::to_string(expected_rule);
                log_failed(logs, "Expected Rule", name.as_str(), text.as_str());
                proof {
                    assert(expected_rules@[order@[k as int] as int].within_range_spec(
                        numbers,
                        count,
                    ) == Some(e.0));
                    assert(!rules_within(expected_rules@, numbers, count));
                }
                let priority_rule_name = name.clone();
                return Err((e.0, e.1, priority_rule_name, name));
            },
        }
        k += 1;
    }
    proof {
        lemma_order_covers(expected_rules@, order@, numbers, count);
    }
    if let Some(exc_rules) = exclude_rules {
        let mut j: usize = 0;
        while j < exc_rules.len()
            invariant
                j <= exc_rules@.len(),
                exc_rules@ == listed(exclude_rules),
                numbers == current_data.numbers(),
                count == current_data.spec_count(),
                logs@ == old(logs)@,
                rules_within(expected_rules@, numbers, count),
                forall|i: int|
                    0 <= i < j ==> (#[trigger] exc_rules@[i]).within_excluded_range_spec(
                        numbers,
                        count,
                    ) is None,
            decreases exc_rules@.len() - j,
        {
            let exclude_rule = &exc_rules[j];
            match exclude_rule.is_within_excluded_range(current_data) {
                Ok(_) => {},
                Err(e) => {
                    let name = exclude_rule.exclude_name();
                    let text = ExcludeRuleTrait::to_string(exclude_rule);
                    log_failed(logs, "Exclude Rule", name.as_str(), text.as_str());
                    let mut rule_name = String::from_str("exr-");
                    rule_name.append(name.as_str());
                    proof {
                        assert(exc_rules@[j as int].within_excluded_range_spec(numbers, count)
                            == Some(e.0));
                    }
                    return Err((e.0, e.1, name, rule_name));
                },
            }
            j += 1;
        }
    }
    Ok(())
}

/// The positions of `n` rules in their configured order.
fn configured_order(n: usize) -> (order: Vec<usize>)
    ensures
        is_order(order@, n as nat),
        forall|k: int| 0 <= k < n ==> order@[k] == k,
{
    let mut order: Vec<usize> = Vec::new();
    let mut i: usize = 0;
    while i < n
        invariant
            i <= n,
            order@.len() == i,
            forall|k: int| 0 <= k < i ==> order@[k] == k,
        decreases n - i,
    {
        order.push(i);
        i += 1;
    }
    proof {
        assert forall|i: int| 0 <= i < n implies #[trigger] names_position(order@, i) by {
            assert(order@[i] == i);
        }
    }
    order
}

/// The name of the rule that asked for priority; empty where none did.
pub open spec fn wanted_name(key_to_make_priority: &Option<String>) -> Seq<char> {
    match key_to_make_priority {
        Some(v) => v@,
        None => Seq::empty(),
    }
}

/// Arranges the rules for a round: shuffles `order`, then, where a rule asked
/// for priority in the round before, exchanges the first rule with the first
/// one of that name.
fn order_rules(
    order: &mut Vec<usize>,
    rules: &Vec<Rule>,
    key_to_make_priority: &Option<String>,
    random: &dyn RandomTrait,
)
    requires
        is_order(old(order)@, rules@.len()),
    ensures
        is_order(final(order)@, rules@.len()),
        final(order)@.to_multiset() == old(order)@.to_multiset(),
        key_to_make_priority is Some && crate::settings::has_rule_named(
            rules@,
            wanted_name(key_to_make_priority),
        ) ==> rules@[final(order)@[0] as int].name_spec() == wanted_name(key_to_make_priority),
{
    shuffle_vec(order, random);
    proof {
        lemma_order_kept(old(order)@, order@, rules@.len());
    }
    if let Some(v) = key_to_make_priority {
        let mut k: usize = 0;
        while k < order.len()
            invariant
                k <= order@.len(),
                is_order(order@, rules@.len()),
                order@.to_multiset() == old(order)@.to_multiset(),
                wanted_name(key_to_make_priority) == v@,
                forall|j: int|
                    0 <= j < k ==> (#[trigger] rules@[order@[j] as int]).name_spec() != v@,
            decreases order@.len() - k,
        {
            if rules[order[k]].name() == *v {
                let a = order[0];
                let b = order[k];
                proof {
                    lemma_swapped_multiset(order@, 0, k as int);
                    lemma_order_kept(order@, swapped(order@, 0, k as int), rules@.len());
                }
                order.set(0, b);
                order.set(k, a);
                assert(order@[0] == b);
                return ;
            }
            k += 1;
        }
        proof {
            if crate::settings::has_rule_named(rules@, v@) {
                let i = choose|i: int|
                    0 <= i < rules@.len() && (#[trigger] rules@[i]).name_spec() == v@;
                assert(names_position(order@, i));
                let k2 = choose|k2: int| 0 <= k2 < order@.len() && #[trigger] order@[k2] == i;
                assert(rules@[order@[k2] as int].name_spec() == v@);
            }
        }
    }
}

/// Whether `shared` holds what the rules publish for the sequence in
/// `current_data`: under each key the facts of a rule of that name, and a key
/// for each rule that publishes facts.
pub open spec fn shares(rules: Seq<Rule>, current_data: &CurrentData, shared: &SharedData) -> bool {
    &&& forall|key: Seq<char>| #[trigger]
        shared@.contains_key(key) ==> exists|i: int|
            0 <= i < rules.len() && (#[trigger] rules[i]).name_spec() == key
                && rules[i].share_data_spec(current_data, Some(shared@[key]))
    &&& forall|i: int|
        0 <= i < rules.len() && !(#[trigger] rules[i]).share_data_spec(current_data, None)
            ==> shared@.contains_key(rules[i].name_spec())
}

/// Asks every rule, in the order `order`, for the facts that it publishes,
/// and keeps them under the rule's name. Of two rules with one name the one
/// asked later counts.
fn collect_shared_data(rules: &Vec<Rule>, order: &Vec<usize>, current_data: &CurrentData) -> (shared:
    SharedData)
    requires
        is_order(order@, rules@.len()),
    ensures
        shares(rules@, current_data, &shared),
{
    let mut shared: SharedData = StringMap::new();
    let mut k: usize = 0;
    while k < order.len()
        invariant
            k <= order@.len(),
            is_order(order@, rules@.len()),
            forall|key: Seq<char>| #[trigger]
                shared@.contains_key(key) ==> exists|i: int|
                    0 <= i < rules@.len() && (#[trigger] rules@[i]).name_spec() == key
                        && rules@[i].share_data_spec(current_data, Some(shared@[key])),
            forall|j: int|
                0 <= j < k && !(#[trigger] rules@[order@[j] as int]).share_data_spec(
                    current_data,
                    None,
                ) ==> shared@.contains_key(rules@[order@[j] as int].name_spec()),
        decreases order@.len() - k,
    {
        let expected_rule = &rules[order[k]];
        if let Some(actual_rule_shared_data) = expected_rule.share_data(current_data) {
            let ghost before = shared@;
            let name = expected_rule.name();
            shared.insert(name, actual_rule_shared_data);
            proof {
                assert forall|key: Seq<char>| #[trigger] shared@.contains_key(key) implies exists|
                    i: int,
                |
                    0 <= i < rules@.len() && (#[trigger] rules@[i]).name_spec() == key
                        && rules@[i].share_data_spec(current_data, Some(shared@[key])) by {
                    if key == expected_rule.name_spec() {
                        assert(rules@[order@[k as int] as int].name_spec() == key);
                    } else {
                        assert(before.contains_key(key));
                    }
                }
            }
        }
        k += 1;
    }
    proof {
        assert forall|i: int|
            0 <= i < rules@.len() && !(#[trigger] rules@[i]).share_data_spec(
                current_data,
                None,
            ) implies shared@.contains_key(rules@[i].name_spec()) by {
            assert(names_position(order@, i));
            let k2 = choose|k2: int| 0 <= k2 < order@.len() && #[trigger] order@[k2] == i;
            assert(rules@[order@[k2] as int] == rules@[i]);
        }
    }
    shared
}

/// Whether `rule` may answer a request for numbers with an error, be it the
/// word with which it declines.
pub open spec fn declined(rule: Rule, current_data: &CurrentData) -> bool {
    exists|e: String| #[trigger] rule.get_numbers_spec(current_data, Err(e))
}

/// Whether no rule of `rules` may answer a request for numbers with another
/// error than the word with which it declines.
pub open spec fn quiet(rules: Seq<Rule>, current_data: &CurrentData) -> bool {
    forall|i: int, e: String|
        0 <= i < rules.len() && #[trigger] rules[i].get_numbers_spec(current_data, Err(e)) ==> e@
            == crate::rules::rule_trait::skip_text()
}

/// Asks the rules, in the order `order`, for numbers to append, up to the
/// first that proposes some: its name and its numbers come back. A rule that
/// declines is passed over; one that reports an error has the error
/// recorded, which may start the search over.
fn propose(
    rules: &Vec<Rule>,
    order: &Vec<usize>,
    current_data: &CurrentData,
    logs: &mut Vec<Log>,
    err_tracker: &mut StringMap<usize>,
    attempts: usize,
    numbers: &mut Vec<usize>,
    settings: &Settings,
    clear_err_tracker: &mut Vec<usize>,
) -> (r: Option<(String, Vec<usize>)>)
    requires
        is_order(order@, rules@.len()),
    ensures
        r matches Some(p) ==> exists|k: int|
            0 <= k < order@.len() && (#[trigger] rules@[order@[k] as int]).get_numbers_spec(
                current_data,
                Ok(p.1),
            ) && p.0@ == rules@[order@[k] as int].name_spec(),
        r is None ==> forall|k: int|
            0 <= k < order@.len() ==> declined(#[trigger] rules@[order@[k] as int], current_data),
        quiet(rules@, current_data) ==> final(numbers)@ == old(numbers)@ && final(clear_err_tracker)@ == old(clear_err_tracker)@ && final(err_tracker)@ == old(err_tracker)@,
        log_extends(old(logs)@, final(logs)@),
        clears_extend(old(clear_err_tracker)@, final(clear_err_tracker)@, attempts),
        final(numbers)@ == old(numbers)@ || final(numbers)@.len() == 0,
{
    let mut k: usize = 0;
    while k < order.len()
        invariant
            k <= order@.len(),
            is_order(order@, rules@.len()),
            log_extends(old(logs)@, logs@),
            clears_extend(old(clear_err_tracker)@, clear_err_tracker@, attempts),
            numbers@ == old(numbers)@ || numbers@.len() == 0,
            forall|j: int|
                0 <= j < k ==> declined(#[trigger] rules@[order@[j] as int], current_data),
            quiet(rules@, current_data) ==> numbers@ == old(numbers)@ && clear_err_tracker@
                == old(clear_err_tracker)@ && err_tracker@ == old(err_tracker)@,
        decreases order@.len() - k,
    {
        let expected_rule = &rules[order[k]];
        match expected_rule.get_numbers(current_data) {
            Ok(v) => {
                return Some((expected_rule.name(), v));
            },
            Err(e) => {
                proof {
                    assert(rules@[order@[k as int] as int].get_numbers_spec(current_data, Err(e)));
                    assert(declined(rules@[order@[k as int] as int], current_data));
                }
                if !is_skip(&e) {
                    proof {
                        assert(!quiet(rules@, current_data));
                    }
                    let mut key = String::from_str("gn-");
                    let name = expected_rule.name();
                    key.append(name.as_str());
                    halt_from_error(
                        key.as_str(),
                        e.as_str(),
                        logs,
                        err_tracker,
                        attempts,
                        numbers,
                        settings,
                        clear_err_tracker,
                    );
                }
            },
        }
        k += 1;
    }
    None
}

/// The name under which a sequence that grew too long is counted, and its
/// message.
pub open spec fn too_many_text() -> Seq<char> {
    "Too Many Numbers Selected."@
}

/// Judges the numbers `potential_numbers` that a rule proposed behind
/// `numbers`. A sequence that reaches the target length is checked as a
/// finished one and, where every rule accepts it, is the result. A shorter
/// one is checked as an unfinished one and, where every rule lets it pass,
/// becomes the new sequence. Every failure is recorded, which may start the
/// search over; a full sequence that failed as often as the configuration
/// allows empties the sequence; a rule that asks for priority is noted for
/// the next round.
///
/// The answer says whether the result is found; `numbers` then holds it.
/// Checks of a full sequence are counted, and the count starts anew when the
/// sequence is emptied for its sake.
fn judge(
    rules: &Vec<Rule>,
    order: &Vec<usize>,
    settings: &Settings,
    numbers: &mut Vec<usize>,
    potential_numbers: &Vec<usize>,
    gen_type: &String,
    shared_data: &SharedData,
    logs: &mut Vec<Log>,
    err_tracker: &mut StringMap<usize>,
    attempts: usize,
    clear_err_tracker: &mut Vec<usize>,
    is_match_attempts: &mut usize,
    key_to_make_priority: &mut Option<String>,
) -> (done: bool)
    requires
        is_order(order@, rules@.len()),
        rules@ == settings.rules(),
        *old(is_match_attempts) < attempts,
    ensures
        done <==> settings.accepts(old(numbers)@ + potential_numbers@),
        done ==> final(numbers)@ == old(numbers)@ + potential_numbers@,
        !done && (old(numbers)@ + potential_numbers@).len() < settings.spec_count()
            && settings.within_range(old(numbers)@ + potential_numbers@) ==> final(numbers)@
            == old(numbers)@ + potential_numbers@,
        !done && !((old(numbers)@ + potential_numbers@).len() < settings.spec_count()
            && settings.within_range(old(numbers)@ + potential_numbers@)) ==> final(numbers)@
            == old(numbers)@ || final(numbers)@.len() == 0,
        log_extends(old(logs)@, final(logs)@),
        clears_extend(old(clear_err_tracker)@, final(clear_err_tracker)@, attempts),
        *final(is_match_attempts) <= attempts,
        done ==> final(clear_err_tracker)@ == old(clear_err_tracker)@,
        !done && (old(numbers)@ + potential_numbers@).len() < settings.spec_count()
            && settings.within_range(old(numbers)@ + potential_numbers@) ==> final(clear_err_tracker)@ == old(clear_err_tracker)@,
        (old(numbers)@ + potential_numbers@).len() != settings.spec_count() ==> *final(is_match_attempts) == *old(is_match_attempts),
        done ==> *final(is_match_attempts) == *old(is_match_attempts) + 1,
        (old(numbers)@ + potential_numbers@).len() >= settings.spec_count() || settings.within_range(
            old(numbers)@ + potential_numbers@,
        ) ==> *final(key_to_make_priority) == *old(key_to_make_priority),
        (old(numbers)@ + potential_numbers@).len() < settings.spec_count()
            && !settings.within_range(old(numbers)@ + potential_numbers@) ==> exists|
            kind: IsWithinErrorType,
            priority: Seq<char>,
            name: Seq<char>,
        |
            {
                &&& #[trigger] names_within_failure(
                    rules@,
                    order@,
                    settings.excludes(),
                    old(numbers)@ + potential_numbers@,
                    settings.spec_count(),
                    kind,
                    priority,
                    name,
                )
                &&& kind == IsWithinErrorType::MakePriority ==> *final(key_to_make_priority) is Some
                    && wanted_name(&*final(key_to_make_priority)) == priority
                &&& kind == IsWithinErrorType::Regular ==> *final(key_to_make_priority) == *old(key_to_make_priority)
            },
        !done && (old(numbers)@ + potential_numbers@).len() == settings.spec_count() ==> {
            if *old(is_match_attempts) + 1 == settings.spec_max_is_match_attempts() {
                *final(is_match_attempts) == 0 && final(numbers)@.len() == 0
            } else {
                *final(is_match_attempts) == *old(is_match_attempts) + 1
            }
        },
{
    let mut temp_numbers: Vec<usize> = copy_numbers(numbers.as_slice());
    let mut added = copy_numbers(potential_numbers.as_slice());
    temp_numbers.append(&mut added);
    let ghost combined = old(numbers)@ + potential_numbers@;
    assert(temp_numbers@ =~= combined);
    let current_data_with_potential_numbers = CurrentData::new(
        &temp_numbers,
        settings,
        shared_data,
    );
    let mut m = String::from_str("GEN_TYPE - ");
    m.append(gen_type.as_str());
    m.append("; P - ");
    push_list(&mut m, potential_numbers);
    m.append("; A&P - ");
    push_list(&mut m, &temp_numbers);
    let entry = Log::Info { msg: m };
    proof {
        lemma_log_push(logs@, entry);
    }
    logs.push(entry);
    if temp_numbers.len() > settings.count() {
        halt_from_error(
            "Too Many Numbers Selected.",
            "Too Many Numbers Selected.",
            logs,
            err_tracker,
            attempts,
            numbers,
            settings,
            clear_err_tracker,
        );
        return false;
    }
    if temp_numbers.len() == settings.count() {
        *is_match_attempts += 1;
        match is_match_check(
            rules,
            order,
            settings.exclude_rules(),
            settings,
            &current_data_with_potential_numbers,
            logs,
        ) {
            Ok(_) => {
                set_numbers(numbers, settings, temp_numbers.as_slice());
                proof {
                    assert(settings.accepts(combined));
                }
                return true;
            },
            Err(e) => {
                let mut key = String::from_str("imc-");
                key.append(e.1.as_str());
                let mut text = String::from_str("is_match_check failed. ");
                text.append(e.0.as_str());
                halt_from_error(
                    key.as_str(),
                    text.as_str(),
                    logs,
                    err_tracker,
                    attempts,
                    numbers,
                    settings,
                    clear_err_tracker,
                );
                if *is_match_attempts == settings.max_is_match_attempts() {
                    clear_numbers(logs, numbers, settings);
                    *is_match_attempts = 0;
                    let entry = Log::Info { msg: "Clear - Reached Is Match Attempts".to_owned() };
                    proof {
                        lemma_log_push(logs@, entry);
                    }
                    logs.push(entry);
                }
                proof {
                    assert(!settings.accepts(combined));
                }
                return false;
            },
        }
    }
    match is_within_range_check(
        rules,
        order,
        settings.exclude_rules(),
        settings,
        &current_data_with_potential_numbers,
        logs,
    ) {
        Ok(_) => {
            set_numbers(numbers, settings, temp_numbers.as_slice());
            proof {
                assert(settings.within_range(combined));
            }
        },
        Err(e) => {
            let ghost kind = e.0;
            let ghost priority = e.2@;
            let ghost name = e.3@;
            if e.0 == IsWithinErrorType::MakePriority {
                *key_to_make_priority = Some(e.2);
            }
            assert(names_within_failure(
                rules@,
                order@,
                settings.excludes(),
                combined,
                settings.spec_count(),
                kind,
                priority,
                name,
            ));
            let mut key = String::from_str("iwrc-");
            key.append(e.3.as_str());
            halt_from_error(
                key.as_str(),
                e.1.as_str(),
                logs,
                err_tracker,
                attempts,
                numbers,
                settings,
                clear_err_tracker,
            );
            proof {
                assert(!settings.within_range(combined));
            }
        },
    }
    false
}

/// `n` times the value `v`.
pub open spec fn repeated(v: usize, n: nat) -> Seq<usize> {
    Seq::new(n, |i: int| v)
}

/// Where the configuration holds nothing but a range rule with room at every
/// position, the rules share the range of the next position, no rule reports
/// an error, the fallback rule does not decline, and whatever a rule proposes
/// is one number within that range.
proof fn lemma_ranged_proposal(
    settings: &Settings,
    range: NumberRange,
    before: &CurrentData,
    shared: &SharedData,
    current_data: &CurrentData,
)
    requires
        settings.sole_range() == Some(range),
        shares(settings.rules(), before, shared),
        current_data.shared() == shared,
        before.numbers().len() < settings.spec_count(),
    ensures
        quiet(settings.rules(), current_data),
        !declined(settings.rules()[1], current_data),
        forall|i: int, p: Vec<usize>|
            0 <= i < 2 && #[trigger] settings.rules()[i].get_numbers_spec(current_data, Ok(p))
                ==> p@.len() == 1 && !range.fails_at(before.numbers().len() as int, p@[0], false),
{
    reveal_strlit("NumberRange");
    reveal_strlit("RandomNumber");
    reveal_strlit("min");
    reveal_strlit("max");
    let rules = settings.rules();
    let key = "NumberRange"@;
    let next = before.numbers().len() as int;
    assert(range.has_room_at(next));
    assert(rules[0].name_spec() == key);
    assert(rules[1].name_spec() != key) by {
        assert(rules[1].name_spec().len() == 12);
        assert(key.len() == 11);
    }
    assert(!rules[0].share_data_spec(before, None));
    assert(shared@.contains_key(rules[0].name_spec()));
    let i = choose|i: int|
        0 <= i < rules.len() && (#[trigger] rules[i]).name_spec() == key
            && rules[i].share_data_spec(before, Some(shared@[key]));
    assert(i == 0);
    let facts = shared@[key];
    assert("min"@ != "max"@) by {
        assert("min"@[1] == 'i');
        assert("max"@[1] == 'a');
    }
    assert(facts@.contains_key("min"@));
    assert(facts@.contains_key("max"@));
    assert(min_max_spec(shared, key) == range.ranges()[range.key_for(next)]);
    assert forall|i: int, p: Vec<usize>|
        0 <= i < 2 && #[trigger] settings.rules()[i].get_numbers_spec(
            current_data,
            Ok(p),
        ) implies p@.len() == 1 && !range.fails_at(next, p@[0], false) by {
        assert(i == 1);
    }
}

/// Where the configuration holds nothing but a range rule, a sequence whose
/// numbers lie within their ranges passes as an unfinished sequence, and is
/// accepted at the target length.
proof fn lemma_ranged_accepts(settings: &Settings, range: NumberRange, numbers: Seq<usize>)
    requires
        settings.sole_range() == Some(range),
        range.passes(numbers, false),
    ensures
        settings.within_range(numbers),
        numbers.len() == settings.spec_count() ==> settings.accepts(numbers),
{
    let rules = settings.rules();
    assert forall|i: int| 0 <= i < rules.len() implies (#[trigger] rules[i]).within_range_spec(
        numbers,
        settings.spec_count(),
    ) is None && rules[i].is_match_spec(numbers, settings.spec_count()) by {}
}

/// A configuration whose one range is collapsed to a value for every position
/// is a configuration with room at every position, and a sequence within that
/// range holds the value alone.
proof fn lemma_collapsed_is_ranged(settings: &Settings, v: usize, numbers: Seq<usize>)
    requires
        settings.collapsed_value() == Some(v),
    ensures
        settings.sole_range() is Some,
        settings.sole_range().unwrap().passes(numbers, false) ==> numbers == repeated(
            v,
            numbers.len(),
        ),
{
    match settings.rules()[0] {
        Rule::NumberRange(r) => {
            assert forall|idx: int| 0 <= idx < settings.spec_count() implies #[trigger] r.has_room_at(
                idx,
            ) by {}
            if r.passes(numbers, false) {
                assert forall|i: int| 0 <= i < numbers.len() implies numbers[i] == v by {
                    assert(!r.fails_at(i, numbers[i], false));
                }
                assert(numbers =~= repeated(v, numbers.len()));
            }
        },
        _ => {},
    }
}

/// Generates a sequence that the configuration `settings` accepts.
///
/// Round by round the rules are arranged anew, publish their facts, and are
/// asked for numbers to append; what the first of them proposes is judged,
/// and is kept where every rule lets it pass. The search ends with the first
/// sequence of the target length that every rule accepts and every exclusion
/// lets pass, or fails after the configured number of rounds.
///
/// A success holds such a sequence. A failure holds no numbers and ran every
/// round. Every noted restart lies in a round that ran, and the log begins
/// with the entry of the empty sequence.
///
/// Where the configuration holds nothing but one range rule, with a range
/// that holds a number for every position, and allows as many rounds as the
/// target length, the generation succeeds in exactly that many rounds, with
/// every number within the range of its position and without a restart. With
/// a range collapsed to a single value for every position, the result holds
/// that value at every position.
pub fn random_numbers(settings: &Settings) -> (result: RandomResult)
    ensures
        result.spec_status() != RandomResultType::BadRequest,
        result.spec_status() == RandomResultType::Success ==> settings.accepts(
            result.spec_numbers(),
        ),
        result.spec_status() == RandomResultType::Success ==> result.spec_numbers().len()
            == settings.spec_count(),
        result.spec_status() == RandomResultType::Success ==> 1 <= result.spec_attempts()
            <= settings.spec_max_tries(),
        result.spec_status() == RandomResultType::Failed ==> result.spec_numbers().len() == 0
            && result.spec_attempts() == if settings.spec_max_tries() == 0 {
            1
        } else {
            settings.spec_max_tries()
        },
        forall|i: int|
            0 <= i < result.spec_clears().len() ==> 1 <= #[trigger] result.spec_clears()[i]
                <= result.spec_attempts(),
        forall|i: int, j: int|
            0 <= i <= j < result.spec_clears().len() ==> result.spec_clears()[i]
                <= result.spec_clears()[j],
        result.spec_logs().len() > 0,
        log_views(result.spec_logs())[0] == LogView::Info(clear_text()),
        settings.sole_range() matches Some(range) ==> 1 <= settings.spec_count()
            <= settings.spec_max_tries() ==> {
            &&& result.spec_status() == RandomResultType::Success
            &&& range.passes(result.spec_numbers(), false)
            &&& result.spec_attempts() == settings.spec_count()
            &&& result.spec_clears().len() == 0
        },
        settings.collapsed_value() matches Some(v) ==> 1 <= settings.spec_count()
            <= settings.spec_max_tries() ==> {
            &&& result.spec_status() == RandomResultType::Success
            &&& result.spec_numbers() == repeated(v, settings.spec_count() as nat)
            &&& result.spec_attempts() == settings.spec_count()
            &&& result.spec_clears().len() == 0
        },
{
    let ghost ranged = settings.sole_range() is Some && 1 <= settings.spec_count()
        <= settings.spec_max_tries();
    let ghost range = settings.sole_range().unwrap();
    proof {
        if settings.collapsed_value() is Some {
            lemma_collapsed_is_ranged(settings, settings.collapsed_value().unwrap(), Seq::empty());
        }
    }
    let mut numbers: Vec<usize> = Vec::new();
    let mut is_match_attempts: usize = 0;
    let mut err_tracker: StringMap<usize> = StringMap::new();
    let mut attempts: usize = 0;
    let mut logs: Vec<Log> = Vec::new();
    let mut clear_err_tracker: Vec<usize> = Vec::new();
    let rules = settings.expected_rules();
    let mut order: Vec<usize> = configured_order(rules.len());
    let mut key_to_make_priority: Option<String> = None;
    clear_numbers(&mut logs, &mut numbers, settings);
    let max_tries = settings.max_tries();
    while attempts < max_tries
        invariant
            attempts <= max_tries,
            max_tries == settings.spec_max_tries(),
            rules@ == settings.rules(),
            is_order(order@, rules@.len()),
            is_match_attempts <= attempts,
            logs@.len() > 0,
            log_views(logs@)[0] == LogView::Info(clear_text()),
            forall|i: int|
                0 <= i < clear_err_tracker@.len() ==> 1 <= #[trigger] clear_err_tracker@[i]
                    <= attempts,
            forall|i: int, j: int|
                0 <= i <= j < clear_err_tracker@.len() ==> clear_err_tracker@[i]
                    <= clear_err_tracker@[j],
            ranged == (settings.sole_range() is Some && 1 <= settings.spec_count()
                <= settings.spec_max_tries()),
            ranged ==> settings.sole_range() == Some(range),
            ranged ==> numbers@.len() == attempts && range.passes(numbers@, false) && attempts
                < settings.spec_count() && clear_err_tracker@.len() == 0,
        decreases max_tries - attempts,
    {
        attempts += 1;
        let mut m = String::from_str("Attempt - ");
        push_number(&mut m, attempts);
        let entry = Log::Info { msg: m };
        proof {
            lemma_log_push(logs@, entry);
        }
        logs.push(entry);
        let ghost logs_before = logs@;
        let ghost clears_before = clear_err_tracker@;
        let current_data_numbers: Vec<usize> = copy_numbers(numbers.as_slice());
        let current_data_shared_data: SharedData = StringMap::new();
        let current_data_selected_numbers_sd = CurrentData::new(
            &current_data_numbers,
            settings,
            &current_data_shared_data,
        );
        order_rules(&mut order, rules, &key_to_make_priority, settings.random());
        key_to_make_priority = None;
        let shared_data = collect_shared_data(rules, &order, &current_data_selected_numbers_sd);
        let current_data_selected_numbers_gn = CurrentData::from_current_data(
            &current_data_selected_numbers_sd,
            &shared_data,
        );
        proof {
            if ranged {
                lemma_ranged_proposal(
                    settings,
                    range,
                    &current_data_selected_numbers_sd,
                    &shared_data,
                    &current_data_selected_numbers_gn,
                );
            }
        }
        let ghost numbers_before = numbers@;
        let proposal = propose(
            rules,
            &order,
            &current_data_selected_numbers_gn,
            &mut logs,
            &mut err_tracker,
            attempts,
            &mut numbers,
            settings,
            &mut clear_err_tracker,
        );
        proof {
            if ranged {
                assert(numbers@ == numbers_before);
                if proposal is None {
                    assert(names_position(order@, 1));
                    let k = choose|k: int| 0 <= k < order@.len() && #[trigger] order@[k] == 1;
                    assert(declined(rules@[order@[k] as int], &current_data_selected_numbers_gn));
                }
            }
        }
        if let Some((gen_type, potential_numbers)) = proposal {
            proof {
                if ranged {
                    let k = choose|k: int|
                        0 <= k < order@.len() && (#[trigger] rules@[order@[k] as int]).get_numbers_spec(
                            &current_data_selected_numbers_gn,
                            Ok(potential_numbers),
                        );
                    let combined = numbers@ + potential_numbers@;
                    assert(combined.len() == attempts);
                    assert forall|i: int| 0 <= i < combined.len() implies !range.fails_at(
                        i,
                        #[trigger] combined[i],
                        false,
                    ) by {
                        if i < numbers@.len() {
                            assert(combined[i] == numbers@[i]);
                        } else {
                            assert(combined[i] == potential_numbers@[0]);
                        }
                    }
                    lemma_ranged_accepts(settings, range, combined);
                }
            }
            if potential_numbers.len() > 0 {
                let done = judge(
                    rules,
                    &order,
                    settings,
                    &mut numbers,
                    &potential_numbers,
                    &gen_type,
                    &shared_data,
                    &mut logs,
                    &mut err_tracker,
                    attempts,
                    &mut clear_err_tracker,
                    &mut is_match_attempts,
                    &mut key_to_make_priority,
                );
                if done {
                    proof {
                        if settings.collapsed_value() is Some {
                            lemma_collapsed_is_ranged(
                                settings,
                                settings.collapsed_value().unwrap(),
                                numbers@,
                            );
                        }
                    }
                    return RandomResult {
                        status: RandomResultType::Success,
                        numbers,
                        attempts,
                        logs,
                        clear_err_tracker,
                    };
                }
            }
        }
    }
    RandomResult {
        status: RandomResultType::Failed,
        numbers: Vec::new(),
        attempts: if attempts == 0 {
            1
        } else {
            attempts
        },
        logs,
        clear_err_tracker,
    }
}

} // verus!
