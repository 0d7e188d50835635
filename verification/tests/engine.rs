use random_rules::random::{
    halt_from_error, random_numbers, CurrentData, Log, RandomResultType,
};
use random_rules::random_trait::{get_random_trait, RandomTrait};
use random_rules::rules::no_duplicates::NoDuplicate;
use random_rules::rules::number_pool::{NumberPool, NumberPoolItem, PoolType};
use random_rules::rules::number_range::NumberRange;
use random_rules::rules::odd_even::OddEven;
use random_rules::rules::rule::{ExcludeRule, Rule};
use random_rules::rules::rule_trait::{MapAnyValue, RuleTrait, SharedData};
use random_rules::rules::sequential::Sequential;
use random_rules::settings::Settings;
use random_rules::string_map::StringMap;
use std::cell::Cell;
use std::collections::HashSet;
use std::iter::FromIterator;

/// Hands out the numbers of a list in turn, each brought into the range
/// asked for, and booleans by turns.
struct Listed {
    values: Vec<usize>,
    next: Cell<usize>,
}

impl Listed {
    fn new(values: &[usize]) -> Listed {
        Listed {
            values: values.to_vec(),
            next: Cell::new(0),
        }
    }
}

impl RandomTrait for Listed {
    fn get_number(&self, min: usize, max: usize) -> usize {
        let i = self.next.get();
        self.next.set(i + 1);
        let v = self.values[i % self.values.len()];
        if max - min == usize::MAX {
            v
        } else {
            min + v % (max - min + 1)
        }
    }

    fn get_bool(&self) -> bool {
        let i = self.next.get();
        self.next.set(i + 1);
        i % 2 == 0
    }
}

fn texts(logs: &Vec<Log>) -> Vec<String> {
    logs.iter().map(|l| l.to_string()).collect()
}

#[test]
fn collapsed_range_succeeds_in_as_many_rounds_as_numbers() {
    for value in [0usize, 1, 100, usize::MAX] {
        for length in [1usize, 2, 7] {
            let settings = Settings::new(
                vec![Rule::NumberRange(NumberRange::all(value, value))],
                length,
            );
            let result = random_numbers(&settings);
            assert_eq!(RandomResultType::Success, result.status());
            assert_eq!(&vec![value; length], result.numbers().unwrap());
            assert_eq!(length, result.attempts());
            assert!(result.clear_err_tracker().is_empty());
        }
    }
}

#[test]
fn sole_range_succeeds_in_as_many_rounds_as_numbers() {
    let collapsed = Settings::new(
        vec![Rule::NumberRange(NumberRange::from_map(&[
            (&[0], 1, 1),
            (&[1], 99, 99),
            (&[2], 4, 4),
            (&[3], 6, 6),
            (&[4], 7, 7),
        ]))],
        5,
    );
    for _ in 0..20 {
        let result = random_numbers(&collapsed);
        assert_eq!(RandomResultType::Success, result.status());
        assert_eq!(&vec![1, 99, 4, 6, 7], result.numbers().unwrap());
        assert_eq!(5, result.attempts());
        assert!(result.clear_err_tracker().is_empty());
    }
    let wide = Settings::new(
        vec![Rule::NumberRange(NumberRange::from_map(&[
            (&[0, 2], 10, 19),
            (&[1], 500, 501),
        ]))],
        3,
    );
    for _ in 0..50 {
        let result = random_numbers(&wide);
        assert_eq!(RandomResultType::Success, result.status());
        let numbers = result.numbers().unwrap();
        assert!(10 <= numbers[0] && numbers[0] <= 19);
        assert!(500 <= numbers[1] && numbers[1] <= 501);
        assert!(10 <= numbers[2] && numbers[2] <= 19);
        assert_eq!(3, result.attempts());
        assert!(result.clear_err_tracker().is_empty());
    }
}

#[test]
fn collapsed_range_needs_as_many_rounds_as_numbers() {
    let mut settings = Settings::new(vec![Rule::NumberRange(NumberRange::all(3, 3))], 4);
    settings.set_limits(3, 50, 100);
    let result = random_numbers(&settings);
    assert_eq!(RandomResultType::Failed, result.status());
    assert_eq!(3, result.attempts());
    assert_eq!(
        Err("Error! Please Check Logs!".to_owned()),
        result.numbers().map(|v| v.clone())
    );
}

#[test]
fn no_rounds_still_report_one_attempt() {
    let mut settings = Settings::new(vec![Rule::NumberRange(NumberRange::all(3, 3))], 4);
    settings.set_limits(0, 50, 100);
    let result = random_numbers(&settings);
    assert_eq!(RandomResultType::Failed, result.status());
    assert_eq!(1, result.attempts());
    assert_eq!(vec!["Info  : CLEAR - []".to_owned()], texts(result.logs()));
}

#[test]
fn success_has_target_length_and_lies_in_range() {
    for length in [1usize, 3, 12] {
        let settings = Settings::new(vec![Rule::NumberRange(NumberRange::all(40, 60))], length);
        let result = random_numbers(&settings);
        assert_eq!(RandomResultType::Success, result.status());
        let numbers = result.numbers().unwrap();
        assert_eq!(length, numbers.len());
        assert!(numbers.iter().all(|n| 40 <= *n && *n <= 60));
    }
}

#[test]
fn success_with_injected_source_is_what_the_source_gives() {
    let mut settings = Settings::new(vec![Rule::NumberRange(NumberRange::all(10, 19))], 3);
    // The first draw of a round arranges three rules (three draws); the
    // fallback rule then draws the number.
    settings.set_random_trait(Box::new(Listed::new(&[0, 0, 0, 4, 0, 0, 0, 5, 0, 0, 0, 6])));
    let result = random_numbers(&settings);
    assert_eq!(RandomResultType::Success, result.status());
    assert_eq!(3, result.attempts());
    let numbers = result.numbers().unwrap();
    assert_eq!(3, numbers.len());
    assert!(numbers.iter().all(|n| 10 <= *n && *n <= 19));
    let logs = texts(result.logs());
    assert_eq!("Info  : CLEAR - []", logs[0]);
    assert_eq!("Info  : Attempt - 1", logs[1]);
    assert!(logs[2].starts_with("Info  : GEN_TYPE - RandomNumber; P - ["));
}

#[test]
fn impossible_rules_fail_after_every_round() {
    let mut settings = Settings::new(
        vec![
            Rule::NumberRange(NumberRange::all(1, 1)),
            Rule::NoDuplicate(NoDuplicate {}),
        ],
        2,
    );
    settings.set_limits(60, 5, 3);
    let result = random_numbers(&settings);
    assert_eq!(RandomResultType::Failed, result.status());
    assert_eq!(60, result.attempts());
    assert!(result.numbers().is_err());
    assert_eq!(
        Err("Error! Please Check Logs!".to_owned()),
        result.string(false, &*get_random_trait())
    );
    let clears = result.clear_err_tracker();
    assert!(!clears.is_empty());
    assert!(clears.iter().all(|c| 1 <= *c && *c <= 60));
    assert!(clears.windows(2).all(|w| w[0] <= w[1]));
    let logs = texts(result.logs());
    assert!(logs.iter().any(|l| l == "Info  : Clear - Reached Is Match Attempts"));
    assert!(logs
        .iter()
        .any(|l| l.starts_with("Error : Reset Because Of Too Many Same Errors - imc-NoDuplicate: ")));
    assert!(logs
        .iter()
        .any(|l| l == "Error : is_match_check failed. Duplicate found in [1, 1]"));
    assert!(logs
        .iter()
        .any(|l| l == "Info  : Expected Rule - NoDuplicate - No Duplicate"));
}

#[test]
fn too_many_numbers_are_rejected() {
    // A run of three for a sequence of two: every proposal of the run rule
    // on an empty sequence is too long.
    let mut settings = Settings::new(
        vec![
            Rule::Sequential(Sequential::new(0, &[3])),
            Rule::NumberRange(NumberRange::all(1, 1)),
        ],
        3,
    );
    settings.set_limits(40, 50, 100);
    let result = random_numbers(&settings);
    let logs = texts(result.logs());
    if result.status() == RandomResultType::Success {
        assert_eq!(3, result.numbers().unwrap().len());
    } else {
        assert!(logs.iter().any(|l| l.starts_with("Error : ")));
    }
    let settings = Settings::new(vec![Rule::NumberRange(NumberRange::all(1, 9))], 0);
    let mut settings = settings;
    settings.set_limits(5, 50, 100);
    let result = random_numbers(&settings);
    assert_eq!(RandomResultType::Failed, result.status());
    let logs = texts(result.logs());
    assert!(logs.iter().any(|l| l == "Error : Too Many Numbers Selected."));
}

#[test]
fn no_duplicate_rule_and_its_exclusion() {
    for _ in 0..50 {
        let distinct = random_numbers(&Settings::new(
            vec![
                Rule::NoDuplicate(NoDuplicate {}),
                Rule::NumberRange(NumberRange::all(1, 6)),
            ],
            5,
        ));
        assert_eq!(RandomResultType::Success, distinct.status());
        let numbers = distinct.numbers().unwrap();
        assert_eq!(
            numbers.len(),
            numbers.iter().copied().collect::<HashSet<usize>>().len()
        );
        let repeated = random_numbers(&Settings::with_exclude_rules(
            vec![Rule::NumberRange(NumberRange::all(1, 6))],
            5,
            Some(vec![ExcludeRule::NoDuplicate(NoDuplicate {})]),
        ));
        assert_eq!(RandomResultType::Success, repeated.status());
        let numbers = repeated.numbers().unwrap();
        assert!(numbers.len() > numbers.iter().copied().collect::<HashSet<usize>>().len());
    }
}

#[test]
fn described_state_of_a_success_is_the_configured_one() {
    for _ in 0..50 {
        let result = random_numbers(&Settings::new(
            vec![
                Rule::OddEven(OddEven::new(2, 3)),
                Rule::NumberRange(NumberRange::all(1, 50)),
            ],
            5,
        ));
        assert_eq!(RandomResultType::Success, result.status());
        let described = OddEven::from_numbers(result.numbers().unwrap());
        assert_eq!((2, 3), (described.odd(), described.even()));

        let settings = Settings::new(
            vec![
                Rule::Sequential(Sequential::new(2, &[3])),
                Rule::NumberRange(NumberRange::all(1, 50)),
            ],
            5,
        );
        let result = random_numbers(&settings);
        assert_eq!(RandomResultType::Success, result.status());
        let shared: SharedData = StringMap::new();
        let current_data = CurrentData::new(result.numbers().unwrap(), &settings, &shared);
        let described = Sequential::from_numbers(&current_data, false);
        assert_eq!(2, described.not());
        assert_eq!(&vec![3], described.seq_counts());
    }
}

#[test]
fn excluded_ranges_are_avoided() {
    for _ in 0..50 {
        let result = random_numbers(&Settings::with_exclude_rules(
            vec![Rule::NumberRange(NumberRange::all(1, 10))],
            4,
            Some(vec![ExcludeRule::NumberRange(NumberRange::all(3, 8))]),
        ));
        assert_eq!(RandomResultType::Success, result.status());
        assert!(result.numbers().unwrap().iter().all(|n| *n < 3 || *n > 8));
    }
}

#[test]
fn pools_are_met_by_a_success() {
    for _ in 0..50 {
        let result = random_numbers(&Settings::new(
            vec![
                Rule::NumberPool(NumberPool::new(&[
                    NumberPoolItem::new("low", &PoolType::MinMax(1, 3), 3),
                    NumberPoolItem::new(
                        "high",
                        &PoolType::Values(HashSet::from_iter([90, 95])),
                        1,
                    ),
                ])),
                Rule::NumberRange(NumberRange::all(1, 100)),
            ],
            6,
        ));
        assert_eq!(RandomResultType::Success, result.status());
        let set: HashSet<usize> = result.numbers().unwrap().iter().copied().collect();
        assert!(set.contains(&1) && set.contains(&2) && set.contains(&3));
        assert_eq!(1, [90usize, 95].iter().filter(|n| set.contains(n)).count());
    }
}

#[test]
fn settings_hold_the_fallback_rule_once() {
    let settings = Settings::new(vec![Rule::NumberRange(NumberRange::all(1, 9))], 3);
    let names: Vec<String> = settings.expected_rules().iter().map(|r| r.name()).collect();
    assert_eq!(vec!["NumberRange".to_owned(), "RandomNumber".to_owned()], names);
    assert_eq!(3, settings.count());
    assert!(settings.exclude_rules().is_none());
    assert_eq!(10000, settings.max_tries());
    assert_eq!(50, settings.max_is_match_attempts());
    assert_eq!(100, settings.max_specific_error_count());

    let settings = Settings::with_exclude_rules(
        vec![
            Rule::RandomNumber(random_rules::rules::random_number::RandomNumber {}),
            Rule::NoDuplicate(NoDuplicate {}),
        ],
        3,
        Some(vec![ExcludeRule::NoDuplicate(NoDuplicate {})]),
    );
    let names: Vec<String> = settings.expected_rules().iter().map(|r| r.name()).collect();
    assert_eq!(vec!["RandomNumber".to_owned(), "NoDuplicate".to_owned()], names);
    assert_eq!(1, settings.exclude_rules().as_ref().unwrap().len());
    assert_eq!(Some(0), settings.rule_position(&"RandomNumber".to_owned()));
    assert_eq!(None, settings.rule_position(&"OddEven".to_owned()));
}

#[test]
fn checked_settings_refuse_rules_that_cannot_be_met() {
    let refused = Settings::checked(vec![Rule::OddEven(OddEven::new(12, 0))], 10, None);
    assert_eq!(
        Some("Odd count: 12 and Even count: 0 is greater than count: 10 ".to_owned()),
        refused.err()
    );
    let refused = Settings::checked(
        vec![
            Rule::NumberRange(NumberRange::all(1, 9)),
            Rule::Sequential(Sequential::new(3, &[2, 2])),
        ],
        5,
        None,
    );
    assert_eq!(
        Some("Sequential count: 7 is greater than count: 5 ".to_owned()),
        refused.err()
    );
    let refused = Settings::checked(
        vec![
            Rule::OddEven(OddEven::new(5, 5)),
            Rule::Sequential(Sequential::new(9, &[2])),
            Rule::OddEven(OddEven::new(12, 0)),
        ],
        10,
        None,
    );
    assert_eq!(
        Some("Sequential count: 11 is greater than count: 10 ".to_owned()),
        refused.err()
    );
    let taken = Settings::checked(vec![Rule::OddEven(OddEven::new(5, 5))], 10, None);
    assert_eq!(10, taken.ok().unwrap().count());
}

#[test]
fn shared_range_is_read_back() {
    let mut facts = StringMap::new();
    facts.insert("min".to_owned(), MapAnyValue::Usize(4));
    facts.insert("max".to_owned(), MapAnyValue::Usize(9));
    let mut shared: SharedData = StringMap::new();
    shared.insert("NumberRange".to_owned(), facts);
    assert_eq!((4, 9), Settings::get_min_max("NumberRange", &shared));
    assert_eq!((0, usize::MAX), Settings::get_min_max("OddEven", &shared));

    let mut texts = StringMap::new();
    texts.insert("min".to_owned(), MapAnyValue::String("4".to_owned()));
    let mut shared_texts: SharedData = StringMap::new();
    shared_texts.insert("NumberRange".to_owned(), texts);
    assert_eq!((0, usize::MAX), Settings::get_min_max("NumberRange", &shared_texts));

    let settings = Settings::new(vec![], 3);
    let numbers: Vec<usize> = vec![];
    let current_data = CurrentData::new(&numbers, &settings, &shared);
    for _ in 0..50 {
        let drawn = settings.get_number_within_number_range(&current_data).unwrap();
        assert_eq!(1, drawn.len());
        assert!(4 <= drawn[0] && drawn[0] <= 9);
        let drawn = current_data.get_number_within_number_range().unwrap();
        assert!(4 <= drawn[0] && drawn[0] <= 9);
    }

    let mut empty = StringMap::new();
    empty.insert("min".to_owned(), MapAnyValue::Usize(9));
    empty.insert("max".to_owned(), MapAnyValue::Usize(4));
    let mut shared_empty: SharedData = StringMap::new();
    shared_empty.insert("NumberRange".to_owned(), empty);
    let current_data = CurrentData::new(&numbers, &settings, &shared_empty);
    assert_eq!(
        Err("No number lies in the range that was shared".to_owned()),
        current_data.get_number_within_number_range()
    );
}

#[test]
fn current_data_keeps_its_views() {
    let settings = Settings::new(vec![], 5);
    let numbers: Vec<usize> = vec![9, 3, 9, 1];
    let first: SharedData = StringMap::new();
    let mut second: SharedData = StringMap::new();
    second.insert("NumberRange".to_owned(), StringMap::new());
    let current_data = CurrentData::new(&numbers, &settings, &first);
    let other = CurrentData::from_current_data(&current_data, &second);
    assert_eq!(&numbers, other.selected_numbers());
    assert_eq!(&vec![1, 3, 9, 9], other.selected_numbers_sorted());
    assert_eq!(
        &HashSet::<usize>::from_iter([1, 3, 9]),
        other.selected_numbers_set()
    );
    assert_eq!(5, other.count());
    assert_eq!(0, current_data.shared_data().len());
    assert_eq!(1, other.shared_data().len());
    let drawn = other.random().get_number(2, 2);
    assert_eq!(2, drawn);
}

#[test]
fn errors_are_counted_and_start_the_search_over() {
    let mut settings = Settings::new(vec![], 3);
    settings.set_limits(10, 5, 2);
    let mut logs: Vec<Log> = Vec::new();
    let mut tracker: StringMap<usize> = StringMap::new();
    let mut numbers: Vec<usize> = vec![4, 5];
    let mut clears: Vec<usize> = Vec::new();

    halt_from_error("key", "boom", &mut logs, &mut tracker, 1, &mut numbers, &settings, &mut clears);
    assert_eq!(Some(&1), tracker.get("key"));
    assert_eq!(vec![4, 5], numbers);
    assert!(clears.is_empty());
    assert_eq!(vec!["Error : boom".to_owned()], texts(&logs));

    halt_from_error("other", "bang", &mut logs, &mut tracker, 2, &mut numbers, &settings, &mut clears);
    halt_from_error("key", "boom", &mut logs, &mut tracker, 3, &mut numbers, &settings, &mut clears);
    assert_eq!(Some(&2), tracker.get("key"));
    assert_eq!(Some(&1), tracker.get("other"));
    assert_eq!(vec![4, 5], numbers);
    assert!(clears.is_empty());

    halt_from_error("key", "boom", &mut logs, &mut tracker, 7, &mut numbers, &settings, &mut clears);
    assert_eq!(None, tracker.get("key"));
    assert_eq!(None, tracker.get("other"));
    assert!(tracker.is_empty());
    assert!(numbers.is_empty());
    assert_eq!(vec![7], clears);
    assert_eq!(
        vec![
            "Error : boom".to_owned(),
            "Error : bang".to_owned(),
            "Error : boom".to_owned(),
            "Error : boom".to_owned(),
            "Error : Reset Because Of Too Many Same Errors - key: boom".to_owned(),
            "Info  : CLEAR - []".to_owned(),
        ],
        texts(&logs)
    );
}

#[test]
fn result_is_written_out() {
    let settings = Settings::new(vec![Rule::NumberRange(NumberRange::all(8, 8))], 2);
    let result = random_numbers(&settings);
    let text = result.to_string();
    assert!(text.starts_with(
        "\n\nStatus - Success\nNumbers - Ok([8, 8])\nAttempts - 2\nClear Errs - []\nInfo  : CLEAR - []\n\nInfo  : Attempt - 1\n"
    ));
    assert!(text.ends_with("A&P - [8, 8]"));
}

#[test]
fn failed_result_is_written_out() {
    let mut settings = Settings::new(vec![Rule::NumberRange(NumberRange::all(8, 8))], 2);
    settings.set_limits(1, 50, 100);
    let result = random_numbers(&settings);
    assert_eq!(
        "\n\nStatus - Failed\nNumbers - Err(\"Error! Please Check Logs!\")\nAttempts - 1\nClear Errs - []\nInfo  : CLEAR - []\n\nInfo  : Attempt - 1\nInfo  : GEN_TYPE - RandomNumber; P - [8]; A&P - [8]",
        result.to_string()
    );
    assert_eq!("Info  : Attempt", Log::Info { msg: "Attempt".to_owned() }.to_string());
    assert_eq!("Error : Attempt - 1", Log::Error { msg: "Attempt - 1".to_owned() }.to_string());
}

#[test]
fn text_of_a_result() {
    let settings = Settings::new(
        vec![Rule::NumberRange(NumberRange::from_map(&[
            (&[0], 72, 72),
            (&[1], 105, 105),
            (&[2], 233, 233),
        ]))],
        3,
    );
    let result = random_numbers(&settings);
    assert_eq!(Ok("Hi\u{e9}".to_owned()), result.string(false, &*get_random_trait()));
    let shuffled = result.string(true, &*get_random_trait()).unwrap();
    let mut chars: Vec<char> = shuffled.chars().collect();
    chars.sort();
    assert_eq!(vec!['H', 'i', '\u{e9}'], chars);
    let back = result.string(true, &Listed::new(&[2, 1, 0]));
    assert_eq!(Ok("\u{e9}Hi".to_owned()), back);

    for code in [0xD800usize, 0xDFFF, 0x110000, usize::MAX] {
        let settings = Settings::new(vec![Rule::NumberRange(NumberRange::all(code, code))], 1);
        let result = random_numbers(&settings);
        assert_eq!(RandomResultType::Success, result.status());
        assert_eq!(
            Err("Error! A number is not the number of a character.".to_owned()),
            result.string(false, &*get_random_trait())
        );
    }
    for code in [0usize, 0xD7FF, 0xE000, 0x10FFFF] {
        let settings = Settings::new(vec![Rule::NumberRange(NumberRange::all(code, code))], 1);
        let result = random_numbers(&settings);
        let text = result.string(false, &*get_random_trait()).unwrap();
        assert_eq!(vec![code], text.chars().map(|c| c as usize).collect::<Vec<usize>>());
    }
}
