//! The rule that forbids whole sequences.

use vstd::prelude::*;
use vstd::string::*;
use crate::random::CurrentData;
use crate::rules::exclude_rule_trait::{is_excluded_helper, ExcludeRuleTrait};
use crate::rules::rule_trait::{skip, skip_text, FactMap, IsWithinErrorType, RuleTrait};
use crate::sets::{copy_numbers, same_numbers};
use crate::text::{list_text, push_list};

verus! {

/// The numbers that stand for the characters of `text`, one for one.
pub open spec fn codes(text: Seq<char>) -> Seq<usize> {
    Seq::new(text.len(), |i: int| text[i] as usize)
}

/// What is reported of a finished sequence that is forbidden.
pub open spec fn found_text(numbers: Seq<usize>) -> Seq<char> {
    "Excluded Number Set found: "@ + list_text(numbers)
}

/// `s` without the sequences that occur in it before: of equal sequences the
/// first stays.
pub open spec fn without_repeats(s: Seq<Seq<usize>>) -> Seq<Seq<usize>>
    decreases s.len(),
{
    if s.len() == 0 {
        Seq::empty()
    } else if without_repeats(s.drop_last()).contains(s.last()) {
        without_repeats(s.drop_last())
    } else {
        without_repeats(s.drop_last()).push(s.last())
    }
}

/// `without_repeats(s)` holds what `s` holds, and nothing twice; a list that
/// holds nothing twice stays as it is.
pub proof fn lemma_without_repeats(s: Seq<Seq<usize>>)
    ensures
        without_repeats(s).no_duplicates(),
        forall|x: Seq<usize>| without_repeats(s).contains(x) <==> s.contains(x),
        s.no_duplicates() ==> without_repeats(s) == s,
    decreases s.len(),
{
    if s.len() > 0 {
        let p = s.drop_last();
        let w = without_repeats(p);
        lemma_without_repeats(p);
        assert(s =~= p.push(s.last()));
        assert forall|x: Seq<usize>| without_repeats(s).contains(x) <==> s.contains(x) by {
            if s.contains(x) {
                let k = choose|k: int| 0 <= k < s.len() && s[k] == x;
                if k < p.len() {
                    assert(p[k] == x);
                    assert(p.contains(x));
                    assert(w.contains(x));
                    let m = choose|m: int| 0 <= m < w.len() && w[m] == x;
                    assert(without_repeats(s)[m] == x);
                } else if !w.contains(s.last()) {
                    assert(without_repeats(s)[w.len() as int] == x);
                }
            }
            if without_repeats(s).contains(x) {
                let m = choose|m: int| 0 <= m < without_repeats(s).len() && without_repeats(s)[m]
                    == x;
                if m < w.len() {
                    assert(w[m] == x);
                    assert(p.contains(x));
                    let k = choose|k: int| 0 <= k < p.len() && p[k] == x;
                    assert(s[k] == x);
                } else {
                    assert(s[s.len() - 1] == x);
                }
            }
        }
        if s.no_duplicates() {
            assert(p.no_duplicates());
            if w.contains(s.last()) {
                let k = choose|k: int| 0 <= k < p.len() && p[k] == s.last();
                assert(s[k] == s[s.len() - 1]);
            }
        }
    }
}

/// What a list of sequences holds, one for one.
pub open spec fn views(v: Seq<Vec<usize>>) -> Seq<Seq<usize>> {
    Seq::new(v.len(), |i: int| v[i]@)
}

/// A list of forbidden sequences, none twice. The rule accepts a finished
/// sequence that is none of them.
#[derive(Debug)]
pub struct ExcludeNumberSets {
    excluded_number_sets: Vec<Vec<usize>>,
}

impl Clone for ExcludeNumberSets {
    /// A rule with the same forbidden sequences.
    fn clone(&self) -> (r: ExcludeNumberSets)
        ensures
            r.sets() == self.sets(),
    {
        proof {
            use_type_invariant(self);
            lemma_without_repeats(self.sets());
        }
        ExcludeNumberSets::new(&self.excluded_number_sets)
    }
}

/// Whether `sets` holds the sequence `numbers`.
fn holds(sets: &Vec<Vec<usize>>, numbers: &Vec<usize>) -> (r: bool)
    ensures
        r == views(sets@).contains(numbers@),
{
    let mut i: usize = 0;
    while i < sets.len()
        invariant
            i <= sets@.len(),
            forall|j: int| 0 <= j < i ==> views(sets@)[j] != numbers@,
        decreases sets@.len() - i,
    {
        if same_numbers(sets[i].as_slice(), numbers.as_slice()) {
            assert(views(sets@)[i as int] == numbers@);
            return true;
        }
        i += 1;
    }
    false
}

/// The numbers that stand for the characters of `text`.
pub fn codes_of(text: &str) -> (r: Vec<usize>)
    ensures
        r@ == codes(text@),
{
    let n = text.unicode_len();
    let mut r: Vec<usize> = Vec::new();
    let mut i: usize = 0;
    while i < n
        invariant
            i <= n,
            n == text@.len(),
            r@ == codes(text@).take(i as int),
        decreases n - i,
    {
        let c = text.get_char(i);
        r.push(c as usize);
        assert(r@ =~= codes(text@).take(i + 1));
        i += 1;
    }
    assert(r@ =~= codes(text@));
    r
}

impl ExcludeNumberSets {
    /// The forbidden sequences.
    pub closed spec fn sets(&self) -> Seq<Seq<usize>> {
        Seq::new(self.excluded_number_sets@.len(), |i: int| self.excluded_number_sets@[i]@)
    }

    #[verifier::type_invariant]
    spec fn nothing_twice(&self) -> bool {
        self.sets().no_duplicates()
    }

    /// Forbids each sequence of `excluded_number_sets`. A sequence that is
    /// listed twice is kept once.
    pub fn new(excluded_number_sets: &Vec<Vec<usize>>) -> (r: ExcludeNumberSets)
        ensures
            r.sets() == without_repeats(views(excluded_number_sets@)),
            r.sets().no_duplicates(),
    {
        let ghost given = views(excluded_number_sets@);
        let mut sets: Vec<Vec<usize>> = Vec::new();
        let mut i: usize = 0;
        assert(given.take(0) =~= Seq::empty());
        assert(views(sets@) =~= Seq::empty());
        while i < excluded_number_sets.len()
            invariant
                i <= excluded_number_sets@.len(),
                given == views(excluded_number_sets@),
                views(sets@) == without_repeats(given.take(i as int)),
            decreases excluded_number_sets@.len() - i,
        {
            let item = copy_numbers(excluded_number_sets[i].as_slice());
            proof {
                let t = given.take(i + 1);
                assert(t.drop_last() =~= given.take(i as int));
                assert(t.last() == item@);
            }
            if !holds(&sets, &item) {
                let ghost before = views(sets@);
                sets.push(item);
                assert(views(sets@) =~= before.push(item@));
            }
            i += 1;
        }
        proof {
            assert(given.take(given.len() as int) =~= given);
            lemma_without_repeats(given);
        }
        let r = ExcludeNumberSets { excluded_number_sets: sets };
        assert(r.sets() =~= views(sets@));
        r
    }

    /// Forbids each text of `excluded_sets`, taken as the sequence of the
    /// numbers of its characters. A text that is listed twice is kept once.
    pub fn new_string(excluded_sets: &Vec<String>) -> (r: ExcludeNumberSets)
        ensures
            r.sets() == without_repeats(
                Seq::new(excluded_sets@.len(), |i: int| codes(excluded_sets@[i]@)),
            ),
            r.sets().no_duplicates(),
    {
        let ghost given = Seq::new(excluded_sets@.len(), |i: int| codes(excluded_sets@[i]@));
        let mut sets: Vec<Vec<usize>> = Vec::new();
        let mut i: usize = 0;
        assert(given.take(0) =~= Seq::empty());
        assert(views(sets@) =~= Seq::empty());
        while i < excluded_sets.len()
            invariant
                i <= excluded_sets@.len(),
                given == Seq::new(excluded_sets@.len(), |i: int| codes(excluded_sets@[i]@)),
                views(sets@) == without_repeats(given.take(i as int)),
            decreases excluded_sets@.len() - i,
        {
            let item = codes_of(excluded_sets[i].as_str());
            proof {
                let t = given.take(i + 1);
                assert(t.drop_last() =~= given.take(i as int));
                assert(t.last() == item@);
            }
            if !holds(&sets, &item) {
                let ghost before = views(sets@);
                sets.push(item);
                assert(views(sets@) =~= before.push(item@));
            }
            i += 1;
        }
        proof {
            assert(given.take(given.len() as int) =~= given);
            lemma_without_repeats(given);
        }
        let r = ExcludeNumberSets { excluded_number_sets: sets };
        assert(r.sets() =~= views(sets@));
        r
    }

    /// The forbidden sequences, none twice.
    pub fn excluded_number_sets(&self) -> (r: &Vec<Vec<usize>>)
        ensures
            views(r@) == self.sets(),
            self.sets().no_duplicates(),
    {
        proof {
            use_type_invariant(self);
        }
        &self.excluded_number_sets
    }

    /// Whether `numbers` is one of the forbidden sequences.
    pub fn forbids(&self, numbers: &Vec<usize>) -> (r: bool)
        ensures
            r == self.sets().contains(numbers@),
    {
        let mut i: usize = 0;
        while i < self.excluded_number_sets.len()
            invariant
                i <= self.excluded_number_sets@.len(),
                forall|j: int| 0 <= j < i ==> self.sets()[j] != numbers@,
            decreases self.excluded_number_sets@.len() - i,
        {
            if same_numbers(self.excluded_number_sets[i].as_slice(), numbers.as_slice()) {
                assert(self.sets()[i as int] == numbers@);
                return true;
            }
            i += 1;
        }
        false
    }

    /// The rule's settings, written out: its name, without the list.
    pub open spec fn text(&self) -> Seq<char> {
        "ExcludeNumberSets"@
    }

    /// The rule's settings, written out.
    pub fn to_string(&self) -> (r: String)
        ensures
            r@ == self.text(),
    {
        "ExcludeNumberSets".to_owned()
    }
}

impl RuleTrait for ExcludeNumberSets {
    open spec fn name_spec(&self) -> Seq<char> {
        "ExcludeNumberSets"@
    }

    open spec fn rule_text(&self) -> Seq<char> {
        self.text()
    }

    open spec fn within_range_spec(&self, numbers: Seq<usize>, count: usize) -> Option<
        IsWithinErrorType,
    > {
        None
    }

    open spec fn is_match_spec(&self, numbers: Seq<usize>, count: usize) -> bool {
        !self.sets().contains(numbers)
    }

    open spec fn check_count_spec(&self, count: usize) -> bool {
        true
    }

    open spec fn check_count_text(&self, count: usize) -> Seq<char> {
        Seq::empty()
    }

    open spec fn share_data_spec(&self, current_data: &CurrentData, facts: Option<FactMap>) -> bool {
        facts is None
    }

    open spec fn get_numbers_spec(
        &self,
        current_data: &CurrentData,
        result: Result<Vec<usize>, String>,
    ) -> bool {
        result matches Err(e) && e@ == skip_text()
    }

    fn is_within_range(&self, current_data: &CurrentData) -> (r: Result<
        (),
        (IsWithinErrorType, String),
    >) {
        Ok(())
    }

    fn is_match(&self, current_data: &CurrentData) -> (r: Result<(), String>)
        ensures
            r matches Err(e) ==> e@ == found_text(current_data.numbers()),
    {
        if self.forbids(current_data.selected_numbers()) {
            let mut m = String::from_str("Excluded Number Set found: ");
            push_list(&mut m, current_data.selected_numbers());
            return Err(m);
        }
        Ok(())
    }

    fn get_numbers(&self, current_data: &CurrentData) -> (r: Result<Vec<usize>, String>) {
        Err(skip())
    }

    fn share_data(&self, current_data: &CurrentData) -> (r: Option<FactMap>) {
        None
    }

    fn check_count(&self, count: usize) -> (r: Result<bool, String>) {
        Ok(true)
    }

    fn name(&self) -> (r: String) {
        "ExcludeNumberSets".to_owned()
    }

    fn to_string(&self) -> (r: String) {
        ExcludeNumberSets::to_string(self)
    }
}

impl ExcludeRuleTrait for ExcludeNumberSets {
    open spec fn exclude_name_spec(&self) -> Seq<char> {
        "ExcludeNumberSets"@
    }

    open spec fn exclusion_text(&self) -> Seq<char> {
        self.text()
    }

    /// As an exclusion the rule is turned around: it lets a finished
    /// sequence pass where the sequence is one of the listed ones.
    open spec fn is_excluded_spec(&self, numbers: Seq<usize>, count: usize) -> bool {
        self.sets().contains(numbers)
    }

    open spec fn within_excluded_range_spec(&self, numbers: Seq<usize>, count: usize) -> Option<
        IsWithinErrorType,
    > {
        None
    }

    fn is_excluded(&self, current_data: &CurrentData) -> (r: Result<(), String>) {
        let text = ExcludeNumberSets::to_string(self);
        is_excluded_helper(&self.is_match(current_data), text.as_str())
    }

    fn is_within_excluded_range(&self, current_data: &CurrentData) -> (r: Result<
        (),
        (IsWithinErrorType, String),
    >) {
        Ok(())
    }

    fn exclude_name(&self) -> (r: String) {
        self.name()
    }

    fn to_string(&self) -> (r: String) {
        ExcludeNumberSets::to_string(self)
    }
}

} // verus!
