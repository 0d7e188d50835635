//! The rule on runs of consecutive numbers.

use vstd::prelude::*;
use vstd::string::*;
use crate::random::{empty_range_text, lemma_empty_range_is_no_skip, CurrentData};
use crate::random_trait::{get_random_vec_item, RandomTrait};
use crate::rules::rule_trait::{
    count_message,
    count_text,
    min_max_spec,
    skip,
    skip_text,
    FactMap,
    IsWithinErrorType,
    RuleTrait,
};
use crate::sets::{copy_numbers, same_numbers};
use crate::sorting::{ascending, lemma_ascending, sort_numbers};
use crate::text::{decimal, list_text, push_list, push_number};

verus! {

/// The length of the run of consecutive numbers that the last number of `s`
/// ends: 0 where the number before it is not its predecessor, else 2 for a
/// pair and one more for every further number of the run.
pub open spec fn open_run(s: Seq<usize>) -> nat
    decreases s.len(),
{
    if s.len() < 2 || s[s.len() - 2] + 1 != s[s.len() - 1] {
        0
    } else if open_run(s.drop_last()) == 0 {
        2
    } else {
        open_run(s.drop_last()) + 1
    }
}

/// The lengths of the runs of `s` that end before its last number, in the
/// order in which they occur.
pub open spec fn closed_runs(s: Seq<usize>) -> Seq<usize>
    decreases s.len(),
{
    if s.len() < 2 {
        Seq::empty()
    } else if s[s.len() - 2] + 1 != s[s.len() - 1] && open_run(s.drop_last()) > 0 {
        closed_runs(s.drop_last()).push(open_run(s.drop_last()) as usize)
    } else {
        closed_runs(s.drop_last())
    }
}

/// The lengths of the runs of consecutive numbers of `s`, in the order in
/// which they occur. A number that occurs twice ends a run.
pub open spec fn runs(s: Seq<usize>) -> Seq<usize> {
    if open_run(s) > 0 {
        closed_runs(s).push(open_run(s) as usize)
    } else {
        closed_runs(s)
    }
}

/// The sum of `s`.
pub open spec fn sum(s: Seq<usize>) -> nat
    decreases s.len(),
{
    if s.len() == 0 {
        0
    } else {
        sum(s.drop_last()) + s.last() as nat
    }
}

/// The sum grows by what is appended.
pub proof fn lemma_sum_push(s: Seq<usize>, x: usize)
    ensures
        sum(s.push(x)) == sum(s) + x,
{
    assert(s.push(x).drop_last() =~= s);
}

/// The runs of a sequence hold no more numbers than the sequence.
pub proof fn lemma_runs_bound(s: Seq<usize>)
    requires
        s.len() <= usize::MAX,
    ensures
        s.len() > 0 ==> sum(closed_runs(s)) + if open_run(s) == 0 {
            1nat
        } else {
            open_run(s)
        } <= s.len(),
        sum(closed_runs(s)) + open_run(s) <= s.len(),
        open_run(s) <= s.len(),
        sum(runs(s)) <= s.len(),
        sum(runs(s)) == sum(closed_runs(s)) + open_run(s),
    decreases s.len(),
{
    if s.len() >= 2 {
        let p = s.drop_last();
        lemma_runs_bound(p);
        if s[s.len() - 2] + 1 != s[s.len() - 1] && open_run(p) > 0 {
            lemma_sum_push(closed_runs(p), open_run(p) as usize);
        }
    }
    if open_run(s) > 0 {
        lemma_sum_push(closed_runs(s), open_run(s) as usize);
    }
}

/// The position of the first `x` in `s`.
pub open spec fn first_position(s: Seq<usize>, x: usize) -> int {
    choose|i: int| 0 <= i < s.len() && s[i] == x && forall|j: int| 0 <= j < i ==> s[j] != x
}

/// The position of the first `x` in `v`, if it holds one.
fn position_of(v: &Vec<usize>, x: usize) -> (r: Option<usize>)
    ensures
        match r {
            Some(k) => k < v@.len() && v@[k as int] == x && v@.contains(x) && forall|j: int|
                0 <= j < k ==> v@[j] != x,
            None => !v@.contains(x),
        },
{
    let mut k: usize = 0;
    while k < v.len()
        invariant
            k <= v@.len(),
            forall|j: int| 0 <= j < k ==> v@[j] != x,
        decreases v@.len() - k,
    {
        if v[k] == x {
            return Some(k);
        }
        k += 1;
    }
    None
}

/// `s` without its first `x`, or `s` where it holds none.
pub open spec fn without_first(s: Seq<usize>, x: usize) -> Seq<usize> {
    if s.contains(x) {
        s.remove(first_position(s, x))
    } else {
        s
    }
}

/// What is left of the wanted run lengths `target` when, for each length of
/// `actual` in turn, the first equal one is taken away.
pub open spec fn unmet(target: Seq<usize>, actual: Seq<usize>) -> Seq<usize>
    decreases actual.len(),
{
    if actual.len() == 0 {
        target
    } else {
        without_first(unmet(target, actual.drop_last()), actual.last())
    }
}

/// `n` consecutive numbers from `start`.
pub open spec fn consecutive(start: int, n: int) -> Seq<usize> {
    Seq::new(
        if n > 0 {
            n as nat
        } else {
            0
        },
        |i: int| (start + i) as usize,
    )
}

/// Whether `v` completes a run of `k` numbers: the whole run from `num`
/// where it is `fresh`, else the numbers that follow `num`.
pub open spec fn run_proposal(v: Seq<usize>, k: usize, num: usize, fresh: bool) -> bool {
    &&& k > 0
    &&& num + k - 1 <= usize::MAX
    &&& v == if fresh {
        consecutive(num as int, k as int)
    } else {
        consecutive(num + 1, k - 1)
    }
}

/// Whether a run of `k` numbers from `num` ends beyond the largest number.
pub open spec fn too_far(num: usize, k: usize) -> bool {
    num + k - 1 > usize::MAX
}

/// The run lengths written out as `,SEQ1:2,SEQ2:3`.
pub open spec fn counts_text(counts: Seq<usize>) -> Seq<char>
    decreases counts.len(),
{
    if counts.len() == 0 {
        Seq::empty()
    } else {
        counts_text(counts.drop_last()) + ",SEQ"@ + decimal(counts.len()) + ":"@ + decimal(
            counts.last() as nat,
        )
    }
}

/// What is reported of a sequence whose runs are not the expected ones.
pub open spec fn profile_text(
    not: usize,
    counts: Seq<usize>,
    act_not: usize,
    act_counts: Seq<usize>,
) -> Seq<char> {
    "Expected Not: "@ + decimal(not as nat) + " and Seq_Counts: "@ + list_text(counts)
        + ".  Actual Not: "@ + decimal(act_not as nat) + " and Seq_Counts: "@ + list_text(
        act_counts,
    ) + "."@
}

/// What is reported of a run that would pass the largest number.
pub open spec fn no_room_text() -> Seq<char> {
    "The run does not fit below the largest number"@
}

/// How many numbers belong to no run, and the lengths of the runs of
/// consecutive numbers: what a sequence must show, or what one does show.
#[derive(Clone, Debug)]
pub struct Sequential {
    not: usize,
    seq_counts: Vec<usize>,
}

/// The run lengths of `numbers` in ascending order of the numbers: by
/// occurrence where `seq_order_matters`, else ascending.
pub open spec fn run_counts(numbers: Seq<usize>, seq_order_matters: bool) -> Seq<usize> {
    if seq_order_matters {
        runs(ascending(numbers))
    } else {
        ascending(runs(ascending(numbers)))
    }
}

/// How many of `numbers` belong to no run.
pub open spec fn not_in_runs(numbers: Seq<usize>) -> nat {
    (numbers.len() - sum(runs(ascending(numbers)))) as nat
}

impl Sequential {
    /// How many numbers belong to no run.
    pub closed spec fn spec_not(&self) -> usize {
        self.not
    }

    /// The lengths of the runs.
    pub closed spec fn counts(&self) -> Seq<usize> {
        self.seq_counts@
    }

    /// `not` numbers in no run, and runs of the lengths `seq_counts`.
    pub fn new(not: usize, seq_counts: &[usize]) -> (r: Sequential)
        ensures
            r.spec_not() == not,
            r.counts() == seq_counts@,
    {
        Sequential { not, seq_counts: copy_numbers(seq_counts) }
    }

    /// What the sequence in `current_data` shows: the lengths of its runs,
    /// in the order in which they occur in the ascending sequence where
    /// `seq_order_matters`, else ascending, and how many numbers belong to
    /// no run.
    pub fn from_numbers(current_data: &CurrentData, seq_order_matters: bool) -> (r: Sequential)
        ensures
            r.counts() == run_counts(current_data.numbers(), seq_order_matters),
            r.spec_not() == not_in_runs(current_data.numbers()),
    {
        let sorted = current_data.selected_numbers_sorted();
        let len = current_data.selected_numbers().len();
        let mut seq_counts: Vec<usize> = Vec::new();
        let mut seq_count: usize = 0;
        let mut closed: usize = 0;
        proof {
            lemma_ascending(current_data.numbers());
        }
        if sorted.len() >= 2 {
            let mut idx: usize = 1;
            while idx < sorted.len()
                invariant
                    1 <= idx <= sorted@.len(),
                    seq_counts@ == closed_runs(sorted@.take(idx as int)),
                    seq_count == open_run(sorted@.take(idx as int)),
                    closed == sum(seq_counts@),
                    closed + seq_count <= idx,
                decreases sorted@.len() - idx,
            {
                proof {
                    let s = sorted@.take(idx + 1);
                    assert(s.drop_last() =~= sorted@.take(idx as int));
                    assert(s[s.len() - 1] == sorted@[idx as int]);
                    assert(s[s.len() - 2] == sorted@[idx - 1]);
                }
                if sorted[idx - 1] < sorted[idx] && sorted[idx] - sorted[idx - 1] == 1 {
                    if seq_count == 0 {
                        seq_count += 2;
                    } else {
                        seq_count += 1;
                    }
                    proof {
                        lemma_runs_bound(sorted@.take(idx + 1));
                    }
                } else if seq_count > 0 {
                    proof {
                        lemma_sum_push(seq_counts@, seq_count);
                    }
                    seq_counts.push(seq_count);
                    closed += seq_count;
                    seq_count = 0;
                }
                idx += 1;
            }
            assert(sorted@.take(sorted@.len() as int) =~= sorted@);
        }
        if seq_count > 0 {
            proof {
                lemma_sum_push(seq_counts@, seq_count);
            }
            seq_counts.push(seq_count);
            closed += seq_count;
        }
        proof {
            lemma_runs_bound(sorted@);
            assert(seq_counts@ == runs(sorted@));
        }
        if !seq_order_matters {
            sort_numbers(&mut seq_counts);
        }
        Sequential { not: len - closed, seq_counts }
    }

    /// The lengths of the runs.
    pub fn seq_counts(&self) -> (r: &Vec<usize>)
        ensures
            r@ == self.counts(),
    {
        &self.seq_counts
    }

    /// How many numbers belong to no run.
    pub fn not(&self) -> (r: usize)
        ensures
            r == self.spec_not(),
    {
        self.not
    }

    /// The run lengths that `other` asks for and `self` does not show.
    pub open spec fn lacking(&self, other: &Self, count: usize) -> Seq<usize> {
        if other.spec_not() == count {
            Seq::empty()
        } else {
            unmet(other.counts(), self.counts())
        }
    }

    /// The length of a run that `other` asks for and `self` does not show
    /// yet, drawn from `random` among those lengths; 0 where there is none,
    /// or where `other` asks for `count` numbers in no run.
    pub fn needs_seq(&self, other: &Self, count: usize, random: &dyn RandomTrait) -> (r: usize)
        ensures
            self.lacking(other, count).len() == 0 ==> r == 0,
            self.lacking(other, count).len() > 0 ==> self.lacking(other, count).contains(r),
    {
        if other.not == count {
            return 0;
        }
        let mut other_seq_counts: Vec<usize> = copy_numbers(other.seq_counts.as_slice());
        let mut i: usize = 0;
        assert(self.seq_counts@.take(0) =~= Seq::empty());
        while i < self.seq_counts.len()
            invariant
                i <= self.seq_counts@.len(),
                other_seq_counts@ == unmet(other.seq_counts@, self.seq_counts@.take(i as int)),
            decreases self.seq_counts@.len() - i,
        {
            let seq_count = self.seq_counts[i];
            proof {
                let t = self.seq_counts@.take(i + 1);
                assert(t.drop_last() =~= self.seq_counts@.take(i as int));
                assert(t.last() == seq_count);
            }
            let ghost before = other_seq_counts@;
            match position_of(&other_seq_counts, seq_count) {
                Some(k) => {
                    assert(first_position(before, seq_count) == k);
                    other_seq_counts.remove(k);
                },
                None => {},
            }
            i += 1;
        }
        assert(self.seq_counts@.take(self.seq_counts@.len() as int) =~= self.seq_counts@);
        if other_seq_counts.len() > 0 {
            return *get_random_vec_item(other_seq_counts.as_slice(), random);
        }
        0
    }

    /// The counts written out as `NOT:3,SEQ1:2,SEQ2:2`.
    pub open spec fn text(&self) -> Seq<char> {
        "NOT:"@ + decimal(self.spec_not() as nat) + counts_text(self.counts())
    }

    /// The counts written out as `NOT:3,SEQ1:2,SEQ2:2`.
    pub fn to_string(&self) -> (r: String)
        ensures
            r@ == self.text(),
    {
        let mut tail = String::new();
        let mut idx: usize = 0;
        assert(self.seq_counts@.take(0) =~= Seq::empty());
        while idx < self.seq_counts.len()
            invariant
                idx <= self.seq_counts@.len(),
                tail@ == counts_text(self.seq_counts@.take(idx as int)),
            decreases self.seq_counts@.len() - idx,
        {
            proof {
                let t = self.seq_counts@.take(idx + 1);
                assert(t.drop_last() =~= self.seq_counts@.take(idx as int));
                assert(t.last() == self.seq_counts@[idx as int]);
            }
            tail.append(",SEQ");
            push_number(&mut tail, idx + 1);
            tail.append(":");
            push_number(&mut tail, self.seq_counts[idx]);
            idx += 1;
        }
        assert(self.seq_counts@.take(self.seq_counts@.len() as int) =~= self.seq_counts@);
        let mut s = String::from_str("NOT:");
        push_number(&mut s, self.not);
        s.append(tail.as_str());
        s
    }

    /// The expected run lengths that a sequence of `numbers` does not show
    /// yet; none where `count` numbers are expected in no run.
    pub open spec fn wanted(&self, numbers: Seq<usize>, count: usize) -> Seq<usize> {
        if self.spec_not() == count {
            Seq::empty()
        } else {
            unmet(self.counts(), run_counts(numbers, false))
        }
    }

    /// Whether `v` is the numbers of a run that a sequence of `numbers` does
    /// not show yet: a whole run from a number of `min..=max`, or the numbers
    /// that follow a selected number.
    pub open spec fn completes_run(
        &self,
        numbers: Seq<usize>,
        count: usize,
        min: usize,
        max: usize,
        v: Seq<usize>,
    ) -> bool {
        ||| exists|k: usize, num: usize|
            {
                &&& self.wanted(numbers, count).contains(k)
                &&& #[trigger] run_proposal(v, k, num, true)
                &&& min <= num <= max
            }
        ||| exists|k: usize, num: usize|
            {
                &&& self.wanted(numbers, count).contains(k)
                &&& #[trigger] run_proposal(v, k, num, false)
                &&& numbers.contains(num)
            }
    }

    /// Whether a run that a sequence of `numbers` does not show yet, begun at
    /// a number of `min..=max` or at a selected number, ends beyond the
    /// largest number.
    pub open spec fn run_passes_end(
        &self,
        numbers: Seq<usize>,
        count: usize,
        min: usize,
        max: usize,
    ) -> bool {
        exists|k: usize, num: usize|
            self.wanted(numbers, count).contains(k) && k > 0 && (min <= num <= max
                || numbers.contains(num)) && #[trigger] too_far(num, k)
    }

    /// Whether a sequence with the profile of `numbers` shows a run that is
    /// longer than the one expected in its place.
    pub open spec fn run_too_long(&self, numbers: Seq<usize>) -> bool {
        exists|i: int|
            0 <= i < self.counts().len() && 0 <= i < run_counts(numbers, false).len()
                && #[trigger] run_counts(numbers, false)[i] > self.counts()[i]
    }

    /// The profile of a failed check, written out.
    fn profile_message(&self, other: &Sequential) -> (m: String)
        ensures
            m@ == profile_text(self.spec_not(), self.counts(), other.spec_not(), other.counts()),
    {
        let mut m = String::from_str("Expected Not: ");
        push_number(&mut m, self.not);
        m.append(" and Seq_Counts: ");
        push_list(&mut m, &self.seq_counts);
        m.append(".  Actual Not: ");
        push_number(&mut m, other.not);
        m.append(" and Seq_Counts: ");
        push_list(&mut m, &other.seq_counts);
        m.append(".");
        m
    }
}

/// The report of a run without room is not the word with which a rule
/// declines.
proof fn lemma_no_room_is_no_skip()
    ensures
        no_room_text() != skip_text(),
{
    reveal_strlit("The run does not fit below the largest number");
    reveal_strlit("Skip");
    assert(no_room_text().len() > 4);
    assert(skip_text().len() == 4);
}

impl RuleTrait for Sequential {
    open spec fn name_spec(&self) -> Seq<char> {
        "Sequential"@
    }

    open spec fn rule_text(&self) -> Seq<char> {
        self.text()
    }

    /// The rule is broken where more numbers belong to no run than expected,
    /// or a run is longer than the one expected in its place.
    open spec fn within_range_spec(&self, numbers: Seq<usize>, count: usize) -> Option<
        IsWithinErrorType,
    > {
        if not_in_runs(numbers) > self.spec_not() || self.run_too_long(numbers) {
            Some(IsWithinErrorType::Regular)
        } else {
            None
        }
    }

    open spec fn is_match_spec(&self, numbers: Seq<usize>, count: usize) -> bool {
        self.spec_not() == not_in_runs(numbers) && self.counts() == run_counts(numbers, false)
    }

    open spec fn check_count_spec(&self, count: usize) -> bool {
        self.spec_not() + sum(self.counts()) <= count
    }

    open spec fn check_count_text(&self, count: usize) -> Seq<char> {
        count_text("Sequential"@, (self.spec_not() + sum(self.counts())) as nat, count)
    }

    open spec fn share_data_spec(&self, current_data: &CurrentData, facts: Option<FactMap>) -> bool {
        facts is None
    }

    /// Declines where no expected run is missing, or the missing run that
    /// was drawn has length 0. Else the numbers of a missing run: a whole run
    /// from a number of the shared range, or the numbers that follow a
    /// selected number. That the run would pass the largest number is reported
    /// only where a missing run, begun at a number of the shared range or at a
    /// selected number, does pass it; an empty shared range is reported only
    /// where the range is empty.
    open spec fn get_numbers_spec(
        &self,
        current_data: &CurrentData,
        result: Result<Vec<usize>, String>,
    ) -> bool {
        let numbers = current_data.numbers();
        let (min, max) = min_max_spec(current_data.shared(), "NumberRange"@);
        let rest = self.wanted(numbers, current_data.spec_count());
        match result {
            Ok(v) => self.completes_run(numbers, current_data.spec_count(), min, max, v@),
            Err(m) => if m@ == skip_text() {
                rest.len() == 0 || rest.contains(0)
            } else {
                rest.len() > 0 && ((m@ == no_room_text() && self.run_passes_end(
                    numbers,
                    current_data.spec_count(),
                    min,
                    max,
                )) || (m@ == empty_range_text() && min > max))
            },
        }
    }

    fn is_within_range(&self, current_data: &CurrentData) -> (r: Result<
        (),
        (IsWithinErrorType, String),
    >) {
        let other = Sequential::from_numbers(current_data, false);
        if other.not > self.not {
            return Err((IsWithinErrorType::Regular, self.profile_message(&other)));
        }
        let mut idx: usize = 0;
        while idx < self.seq_counts.len() && idx < other.seq_counts.len()
            invariant
                idx <= self.seq_counts@.len(),
                idx <= other.seq_counts@.len(),
                other.counts() == run_counts(current_data.numbers(), false),
                forall|i: int| 0 <= i < idx ==> other.seq_counts@[i] <= self.seq_counts@[i],
            decreases self.seq_counts@.len() - idx,
        {
            if other.seq_counts[idx] > self.seq_counts[idx] {
                let mut m = self.profile_message(&other);
                m.append(" IDX:");
                push_number(&mut m, idx);
                assert(self.run_too_long(current_data.numbers()));
                return Err((IsWithinErrorType::Regular, m));
            }
            idx += 1;
        }
        Ok(())
    }

    fn is_match(&self, current_data: &CurrentData) -> (r: Result<(), String>)
        ensures
            r matches Err(m) ==> m@ == profile_text(
                self.spec_not(),
                self.counts(),
                not_in_runs(current_data.numbers()) as usize,
                run_counts(current_data.numbers(), false),
            ),
    {
        let other = Sequential::from_numbers(current_data, false);
        if self.not == other.not && same_numbers(
            self.seq_counts.as_slice(),
            other.seq_counts.as_slice(),
        ) {
            return Ok(());
        }
        Err(self.profile_message(&other))
    }

    fn get_numbers(&self, current_data: &CurrentData) -> (r: Result<Vec<usize>, String>) {
        let act_seq = Sequential::from_numbers(current_data, false);
        let seq_count_needed = act_seq.needs_seq(self, current_data.count(), current_data.random());
        let ghost rest = self.wanted(current_data.numbers(), current_data.spec_count());
        assert(rest == act_seq.lacking(self, current_data.spec_count()));
        if seq_count_needed > 0 {
            let selected = current_data.selected_numbers();
            let fresh = selected.len() == 0 || !current_data.random().get_bool();
            let num = if fresh {
                match current_data.get_number_within_number_range() {
                    Ok(v) => v[0],
                    Err(e) => {
                        proof {
                            lemma_empty_range_is_no_skip();
                        }
                        return Err(e);
                    },
                }
            } else {
                *get_random_vec_item(selected.as_slice(), current_data.random())
            };
            let ghost mm = min_max_spec(current_data.shared(), "NumberRange"@);
            if seq_count_needed - 1 > usize::MAX - num {
                proof {
                    lemma_no_room_is_no_skip();
                    assert(rest.contains(seq_count_needed));
                    assert(mm.0 <= num <= mm.1 || current_data.numbers().contains(num));
                    assert(too_far(num, seq_count_needed));
                    assert(self.run_passes_end(
                        current_data.numbers(),
                        current_data.spec_count(),
                        mm.0,
                        mm.1,
                    ));
                }
                return Err("The run does not fit below the largest number".to_owned());
            }
            proof {
                assert(rest.contains(seq_count_needed));
                if !fresh {
                    assert(current_data.numbers().contains(num));
                }
            }
            if !fresh && seq_count_needed == 1 {
                let none: Vec<usize> = Vec::new();
                proof {
                    assert(none@ =~= consecutive(num + 1, seq_count_needed - 1));
                    assert(run_proposal(none@, seq_count_needed, num, false));
                    assert(self.completes_run(
                        current_data.numbers(),
                        current_data.spec_count(),
                        mm.0,
                        mm.1,
                        none@,
                    ));
                }
                return Ok(none);
            }
            let first = if fresh {
                num
            } else {
                num + 1
            };
            let last = num + (seq_count_needed - 1);
            let mut seq_digits: Vec<usize> = Vec::new();
            let mut seq_digit = first;
            loop
                invariant_except_break
                    first <= seq_digit <= last,
                    seq_digits@ == consecutive(first as int, seq_digit - first),
                ensures
                    seq_digits@ == consecutive(first as int, last - first + 1),
                decreases last - seq_digit,
            {
                seq_digits.push(seq_digit);
                assert(seq_digits@ =~= consecutive(first as int, seq_digit - first + 1));
                if seq_digit == last {
                    break;
                }
                seq_digit += 1;
            }
            proof {
                assert(run_proposal(seq_digits@, seq_count_needed, num, fresh));
                assert(self.completes_run(
                    current_data.numbers(),
                    current_data.spec_count(),
                    mm.0,
                    mm.1,
                    seq_digits@,
                ));
            }
            return Ok(seq_digits);
        }
        Err(skip())
    }

    fn share_data(&self, current_data: &CurrentData) -> (r: Option<FactMap>) {
        None
    }

    fn check_count(&self, count: usize) -> (r: Result<bool, String>) {
        let mut this_count: usize = self.not;
        let mut beyond = false;
        let mut i: usize = 0;
        assert(self.seq_counts@.take(0) =~= Seq::empty());
        while i < self.seq_counts.len()
            invariant
                i <= self.seq_counts@.len(),
                !beyond ==> this_count == self.not + sum(self.seq_counts@.take(i as int)),
                beyond ==> self.not + sum(self.seq_counts@.take(i as int)) > usize::MAX,
            decreases self.seq_counts@.len() - i,
        {
            proof {
                let t = self.seq_counts@.take(i + 1);
                assert(t.drop_last() =~= self.seq_counts@.take(i as int));
                assert(t.last() == self.seq_counts@[i as int]);
            }
            if !beyond {
                if self.seq_counts[i] > usize::MAX - this_count {
                    beyond = true;
                } else {
                    this_count += self.seq_counts[i];
                }
            }
            i += 1;
        }
        assert(self.seq_counts@.take(self.seq_counts@.len() as int) =~= self.seq_counts@);
        if !beyond && this_count <= count {
            return Ok(true);
        }
        Err(
            count_message(
                "Sequential",
                if beyond {
                    None
                } else {
                    Some(this_count)
                },
                count,
            ),
        )
    }

    fn name(&self) -> (r: String) {
        "Sequential".to_owned()
    }

    fn to_string(&self) -> (r: String) {
        Sequential::to_string(self)
    }
}

} // verus!
