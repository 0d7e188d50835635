use random_rules::default_random::DefaultRandom;
use random_rules::random::CurrentData;
use random_rules::random_trait::{get_random_trait, get_random_vec_item, shuffle_vec, RandomTrait};
use random_rules::rules::exclude_number_sets::{codes_of, ExcludeNumberSets};
use random_rules::rules::exclude_rule_trait::{is_excluded_helper, ExcludeRuleTrait};
use random_rules::rules::no_duplicates::NoDuplicate;
use random_rules::rules::number_pool::{
    np_alphabet_set, np_numeric_set, np_special_char_set, NumberPool, NumberPoolItem,
    NumberPoolItemFull, PoolType,
};
use random_rules::rules::number_pool_by_index::{NumberPoolByIndex, NumberPoolItemByIndex};
use random_rules::rules::number_range::NumberRange;
use random_rules::rules::number_space::{NumberSpace, NumberSpaceItem, NumberSpaceType};
use random_rules::rules::odd_even::{OddEven, OddEvenKey};
use random_rules::rules::odd_even_by_index::OddEvenByIndex;
use random_rules::rules::random_number::RandomNumber;
use random_rules::rules::rule::{ExcludeRule, Rule};
use random_rules::rules::rule_trait::{
    is_skip, skip, IsWithinErrorType, MapAnyValue, RuleTrait, SharedData,
};
use random_rules::rules::sequential::Sequential;
use random_rules::settings::Settings;
use random_rules::sets::{copy_set, count_common, count_within, members_of, set_of, sorted_keys};
use random_rules::sorting::{sort_numbers, sorted_copy};
use random_rules::string_map::StringMap;
use random_rules::text::{
    bool_to_string, char_of, list_to_string, text_of, usize_to_string,
};
use std::cell::Cell;
use std::collections::{HashMap, HashSet};
use std::iter::FromIterator;

/// Hands out the numbers of a list in turn, each brought into the range
/// asked for, and one fixed boolean.
struct Turns {
    values: Vec<usize>,
    next: Cell<usize>,
    flag: bool,
}

impl Turns {
    fn new(values: &[usize], flag: bool) -> Turns {
        Turns {
            values: values.to_vec(),
            next: Cell::new(0),
            flag,
        }
    }
}

impl RandomTrait for Turns {
    fn get_number(&self, min: usize, max: usize) -> usize {
        let i = self.next.get();
        self.next.set(i + 1);
        let v = self.values[i % self.values.len()];
        if max - min == usize::MAX {
            v
        } else {
            min + v % (max - min + 1)
        }
    }

    fn get_bool(&self) -> bool {
        self.flag
    }
}

fn settings_with(count: usize, source: Turns) -> Settings {
    let mut settings = Settings::new(vec![], count);
    settings.set_random_trait(Box::new(source));
    settings
}

fn range_facts(min: usize, max: usize) -> SharedData {
    let mut facts = StringMap::new();
    facts.insert("min".to_owned(), MapAnyValue::Usize(min));
    facts.insert("max".to_owned(), MapAnyValue::Usize(max));
    let mut shared: SharedData = StringMap::new();
    shared.insert("NumberRange".to_owned(), facts);
    shared
}

#[test]
fn numbers_are_written_in_decimal() {
    assert_eq!("0", usize_to_string(0));
    assert_eq!("7", usize_to_string(7));
    assert_eq!("10", usize_to_string(10));
    assert_eq!("1234567890", usize_to_string(1234567890));
    assert_eq!(usize::MAX.to_string(), usize_to_string(usize::MAX));
    assert_eq!("[]", list_to_string(&vec![]));
    assert_eq!("[5]", list_to_string(&vec![5]));
    assert_eq!("[1, 20, 300]", list_to_string(&vec![1, 20, 300]));
    assert_eq!("true", bool_to_string(true));
    assert_eq!("false", bool_to_string(false));
}

#[test]
fn characters_and_their_numbers() {
    assert_eq!(Some('A'), char_of(65));
    assert_eq!(Some('\u{10FFFF}'), char_of(0x10FFFF));
    assert_eq!(None, char_of(0xD800));
    assert_eq!(None, char_of(0x110000));
    assert_eq!(None, char_of(1 << 40));
    assert_eq!(Some("AZ09".to_owned()), text_of(&vec![65, 90, 48, 57]));
    assert_eq!(Some(String::new()), text_of(&vec![]));
    assert_eq!(None, text_of(&vec![65, 0xDABC]));
    assert_eq!(vec![65, 233, 48], codes_of("A\u{e9}0"));
    assert_eq!(52, np_alphabet_set().len());
    assert_eq!(vec!['0', '1', '2', '3', '4', '5', '6', '7', '8', '9'], np_numeric_set());
    assert_eq!("!@#$%^&*()-+=".chars().collect::<Vec<char>>(), np_special_char_set());
}

#[test]
fn string_map_keeps_first_place_and_last_value() {
    let mut map: StringMap<usize> = StringMap::new();
    assert!(map.is_empty());
    map.insert("b".to_owned(), 1);
    map.insert("a".to_owned(), 2);
    map.insert("b".to_owned(), 3);
    assert_eq!(2, map.len());
    assert_eq!("b", map.key_at(0));
    assert_eq!(&3, map.value_at(0));
    assert_eq!("a", map.key_at(1));
    assert_eq!(Some(&3), map.get("b"));
    assert_eq!(Some(&2), map.get("a"));
    assert_eq!(None, map.get("c"));
    assert_eq!(Some(1), map.position("a"));
    assert!(map.contains_key("a"));
    assert!(!map.contains_key(""));
    map.clear();
    assert_eq!(0, map.len());
    assert_eq!(None, map.get("b"));
}

#[test]
fn sets_and_sorting() {
    assert_eq!(vec![1, 2, 2, 9], sorted_copy(&[9, 2, 1, 2]));
    let mut v = vec![3, 1, 2];
    sort_numbers(&mut v);
    assert_eq!(vec![1, 2, 3], v);
    let set = set_of(&[4, 4, 7]);
    assert_eq!(HashSet::<usize>::from_iter([4, 7]), set);
    assert_eq!(set, copy_set(&set));
    let mut members = members_of(&set);
    members.sort();
    assert_eq!(vec![4, 7], members);
    assert_eq!(1, count_common(&set, &HashSet::from_iter([7, 8])));
    assert_eq!(2, count_within(&set, 4, 7));
    assert_eq!(1, count_within(&set, 5, 7));
    assert_eq!(0, count_within(&set, 7, 5));
    let map: HashMap<usize, bool> = HashMap::from_iter([(9, true), (2, false), (5, true)]);
    assert_eq!(vec![2, 5, 9], sorted_keys(&map));
}

#[test]
fn default_source_draws_within_the_range() {
    let source = DefaultRandom {};
    let mut seen = HashSet::new();
    let mut flags = HashSet::new();
    for _ in 0..400 {
        let n = source.get_number(10, 20);
        assert!(10 <= n && n <= 20);
        seen.insert(n);
        flags.insert(source.get_bool());
    }
    assert!(seen.len() > 1);
    assert_eq!(2, flags.len());
    assert_eq!(5, source.get_number(5, 5));
    assert_eq!(usize::MAX, source.get_number(usize::MAX, usize::MAX));
    let boxed = DefaultRandom::new();
    assert_eq!(3, boxed.get_number(3, 3));
    assert_eq!(0, get_random_trait().get_number(0, 0));
}

#[test]
fn items_are_picked_and_shuffled_by_the_source() {
    let items = vec!['a', 'b', 'c', 'd'];
    assert_eq!(&'c', get_random_vec_item(&items, &Turns::new(&[2], true)));
    assert_eq!(&'a', get_random_vec_item(&items, &Turns::new(&[4], true)));
    let mut v = vec![1, 2, 3, 4];
    shuffle_vec(&mut v, &Turns::new(&[0], true));
    assert_eq!(vec![1, 2, 3, 4], v);
    shuffle_vec(&mut v, &Turns::new(&[3, 0, 1, 0], true));
    assert_eq!(vec![4, 2, 1, 3], v);
    let mut none: Vec<usize> = vec![];
    shuffle_vec(&mut none, &Turns::new(&[0], true));
    assert!(none.is_empty());
    for _ in 0..20 {
        let mut w = vec![5, 6, 7, 7];
        shuffle_vec(&mut w, &DefaultRandom {});
        w.sort();
        assert_eq!(vec![5, 6, 7, 7], w);
    }
}

#[test]
fn pools() {
    let values = PoolType::Values(HashSet::from_iter([3, 5, 8]));
    let span = PoolType::MinMax(4, 7);
    let none = PoolType::MinMax(7, 4);
    let selected: HashSet<usize> = HashSet::from_iter([5, 6, 8, 20]);
    assert_eq!(2, values.has(&selected));
    assert_eq!(2, span.has(&selected));
    assert_eq!(0, none.has(&selected));
    assert_eq!(vec![3], values.difference(&selected));
    assert_eq!(vec![4, 7], span.difference(&selected));
    assert!(none.difference(&selected).is_empty());
    assert_eq!(vec![usize::MAX - 1, usize::MAX], PoolType::MinMax(usize::MAX - 1, usize::MAX).difference(&selected));
    assert!(values.contains(8) && !values.contains(4));
    assert!(span.contains(4) && span.contains(7) && !span.contains(8));
    assert!(!none.contains(5));
    assert_eq!((3, 4, 0), (values.len(), span.len(), none.len()));
    assert!(!values.is_empty() && !span.is_empty() && none.is_empty());
    assert!(span.len_is(4) && !span.len_is(3) && none.len_is(0));
    assert!(PoolType::MinMax(0, usize::MAX).len_is(0) == false);
    assert_eq!(5, values.random_number(&Turns::new(&[7], true)).min(5).max(5));
    assert_eq!(6, span.random_number(&Turns::new(&[2], true)));
    for _ in 0..50 {
        assert!(values.contains(values.random_number(&DefaultRandom {})));
    }
    let letters = PoolType::new(&"ab".chars().collect());
    assert!(letters.contains(97) && letters.contains(98) && letters.len() == 2);
    let copy = values.clone();
    assert_eq!(3, copy.len());
    assert!(copy.contains(3));
    assert_eq!(2, values.duplicate().has(&selected));
}

#[test]
fn number_pool_rule() {
    let rule = NumberPool::new(&[
        NumberPoolItem::new("low", &PoolType::MinMax(1, 3), 3),
        NumberPoolItem::new("high", &PoolType::Values(HashSet::from_iter([90, 95])), 1),
        NumberPoolItem::new("low", &PoolType::MinMax(1, 3), 2),
    ]);
    assert_eq!(2, rule.number_pool_items().len());
    assert_eq!(Some(2), rule.needs("low"));
    assert_eq!(Some(0), rule.has("low"));
    assert_eq!(Some(2), rule.missing("low"));
    assert_eq!(Some(1), rule.needs("high"));
    assert_eq!(None, rule.needs("middle"));
    assert!(rule.pool("high").unwrap().contains(95));
    assert!(rule.number_pool_item("none").is_none());
    assert!(rule.find_first_has_value().is_none());
    assert_eq!("{low: needs 2, has 0, missing 2, high: needs 1, has 0, missing 1}", rule.to_string());
    assert_eq!(rule.to_string(), rule.clone().to_string());
    assert_eq!("NumberPool", rule.name());
    assert_eq!(Ok(true), rule.check_count(3));
    assert_eq!(
        Err("NumberPool count: 3 is greater than count: 2 ".to_owned()),
        rule.check_count(2)
    );
    assert_eq!(rule.check_count(2), rule.check_count(2));
    let huge = NumberPool::new(&[
        NumberPoolItem::new("a", &PoolType::MinMax(1, 3), usize::MAX),
        NumberPoolItem::new("b", &PoolType::MinMax(1, 3), 1),
    ]);
    assert_eq!(
        Err(format!(
            "NumberPool count: more than {} is greater than count: 9 ",
            usize::MAX
        )),
        huge.check_count(9)
    );

    let judged = NumberPool::from_numbers(
        &[
            NumberPoolItem::new("low", &PoolType::MinMax(1, 3), 2),
            NumberPoolItem::new("high", &PoolType::Values(HashSet::from_iter([90, 95])), 1),
        ],
        &HashSet::from_iter([2, 3, 1, 50]),
        false,
    );
    assert_eq!((Some(2), Some(3), Some(0)), (judged.needs("low"), judged.has("low"), judged.missing("low")));
    assert_eq!((Some(1), Some(0), Some(1)), (judged.needs("high"), judged.has("high"), judged.missing("high")));
    assert_eq!(3, judged.find_first_has_value().unwrap().has());
    let described = NumberPool::from_numbers(
        &[NumberPoolItem::new("low", &PoolType::MinMax(1, 3), 2)],
        &HashSet::from_iter([2, 50]),
        true,
    );
    assert_eq!((Some(1), Some(1), Some(1)), (described.needs("low"), described.has("low"), described.missing("low")));
    let full = NumberPoolItemFull::new(&PoolType::MinMax(1, 3), 4, 5, 6);
    assert_eq!((4, 5, 6), (full.needs(), full.has(), full.missing()));
    assert!(full.pool().contains(2));
    let given = NumberPool::from_number_pool_item_full(&[("k", full)]);
    assert_eq!((Some(4), Some(5), Some(6)), (given.needs("k"), given.has("k"), given.missing("k")));

    let settings = settings_with(4, Turns::new(&[1], true));
    let shared: SharedData = StringMap::new();
    let numbers = vec![2, 50];
    let current_data = CurrentData::new(&numbers, &settings, &shared);
    assert_eq!(Ok(()), rule.is_within_range(&current_data));
    let short = settings_with(3, Turns::new(&[1], true));
    assert_eq!(
        Err((
            IsWithinErrorType::MakePriority,
            "Need to pull from number pool, \"missing\" 2 and there are 1 numbers left to pick"
                .to_owned()
        )),
        NumberPool::new(&[NumberPoolItem::new("low", &PoolType::MinMax(1, 3), 3)])
            .is_within_range(&CurrentData::new(&numbers, &short, &shared))
    );
    assert_eq!(
        Err("Expected--Pool:\"low\"--Needs:2. Actual Count:1".to_owned()),
        rule.is_match(&current_data)
    );
    assert!(ExcludeRuleTrait::is_excluded(&rule, &current_data).is_ok());
    let numbers = vec![1, 2, 3];
    let current_data = CurrentData::new(&numbers, &settings, &shared);
    assert_eq!(
        Err((
            IsWithinErrorType::Regular,
            "Too many from pool \"low\", \"needs\" is 2 and \"has\" 3 from this pool".to_owned()
        )),
        rule.is_within_range(&current_data)
    );
    let numbers = vec![1, 3, 90, 50];
    let current_data = CurrentData::new(&numbers, &settings, &shared);
    assert_eq!(Ok(()), rule.is_within_range(&current_data));
    assert_eq!(Ok(()), rule.is_match(&current_data));
    assert_eq!(Err(skip()), rule.get_numbers(&current_data));
    assert!(is_skip(&rule.get_numbers(&current_data).unwrap_err()));
    assert!(ExcludeRuleTrait::is_excluded(&rule, &current_data).is_err());
    assert_eq!(Ok(()), rule.is_within_excluded_range(&current_data));
    assert_eq!("NumberPool", rule.exclude_name());

    let repeated = vec![17, 17];
    let five = settings_with(5, Turns::new(&[1], true));
    let one_of_five = NumberPool::new(&[NumberPoolItem::new("some", &PoolType::MinMax(17, 21), 1)]);
    assert_eq!(
        Err((
            IsWithinErrorType::Regular,
            "Too many from pool \"some\", \"needs\" is 1 and \"has\" 2 from this pool".to_owned()
        )),
        one_of_five.is_within_range(&CurrentData::new(&repeated, &five, &shared))
    );
    let two_of_five = NumberPool::new(&[NumberPoolItem::new("some", &PoolType::MinMax(17, 21), 2)]);
    assert_eq!(Ok(()), two_of_five.is_within_range(&CurrentData::new(&repeated, &five, &shared)));
    assert_eq!(Ok(()), two_of_five.is_match(&CurrentData::new(&repeated, &five, &shared)));
    assert_eq!(
        Err(skip()),
        two_of_five.get_numbers(&CurrentData::new(&repeated, &five, &shared))
    );
    assert_eq!(2, PoolType::MinMax(17, 21).count(&[17, 17, 3]));
    assert_eq!(3, PoolType::Values(HashSet::from_iter([3, 17])).count(&[17, 17, 3, 4]));
    assert_eq!(0, PoolType::MinMax(21, 17).count(&[17, 18]));

    let numbers = vec![3];
    let current_data = CurrentData::new(&numbers, &settings, &shared);
    let forced = NumberPool::new(&[
        NumberPoolItem::new("low", &PoolType::MinMax(1, 3), 3),
        NumberPoolItem::new("high", &PoolType::MinMax(90, 95), 1),
    ]);
    assert_eq!(Ok(vec![1, 2, 91]), forced.get_numbers(&current_data));
    let empty = NumberPool::new(&[NumberPoolItem::new("none", &PoolType::MinMax(5, 4), 1)]);
    assert_eq!(
        Err("No unused number can be drawn from the pool none".to_owned()),
        empty.get_numbers(&current_data)
    );
    let used = NumberPool::new(&[NumberPoolItem::new("used", &PoolType::MinMax(3, 3), 2)]);
    assert_eq!(
        Err("No unused number can be drawn from the pool used".to_owned()),
        used.get_numbers(&current_data)
    );
    let free = NumberPool::new(&[NumberPoolItem::new("free", &PoolType::MinMax(3, 5), 2)]);
    for _ in 0..50 {
        let drawn = free.get_numbers(&current_data).unwrap();
        assert!(drawn == vec![4] || drawn == vec![5]);
    }
    assert_eq!(
        Some(4),
        PoolType::MinMax(3, 4).random_unused(&HashSet::from_iter([3]), &Turns::new(&[0], true))
    );
    assert_eq!(
        None,
        PoolType::MinMax(3, 4).random_unused(&HashSet::from_iter([3, 4]), &DefaultRandom {})
    );
}

#[test]
fn text_pools() {
    let rule = NumberPool::alphanumeric_specs(4, 3, 2);
    assert_eq!((Some(4), Some(3), Some(2)), (rule.needs("alpha_set"), rule.needs("numeric_set"), rule.needs("special_char_set")));
    assert!(rule.pool("alpha_set").unwrap().contains('q' as usize));
    assert!(rule.pool("numeric_set").unwrap().contains('7' as usize));
    assert!(rule.pool("special_char_set").unwrap().contains('#' as usize));
    assert!(!rule.pool("alpha_set").unwrap().contains('7' as usize));
    let rule = NumberPool::alphanumeric(9, true, &Turns::new(&[2], true));
    assert_eq!((Some(7), Some(1), Some(1)), (rule.needs("alpha_set"), rule.needs("numeric_set"), rule.needs("special_char_set")));
    let rule = NumberPool::alphanumeric(2, false, &Turns::new(&[2], true));
    assert_eq!((Some(1), Some(1), Some(0)), (rule.needs("alpha_set"), rule.needs("numeric_set"), rule.needs("special_char_set")));
    let rule = NumberPool::alphanumeric(10, true, &Turns::new(&[2, 1], true));
    assert_eq!((Some(5), Some(3), Some(2)), (rule.needs("alpha_set"), rule.needs("numeric_set"), rule.needs("special_char_set")));
    let rule = NumberPool::alphanumeric(12, false, &Turns::new(&[1], true));
    assert_eq!((Some(10), Some(2), Some(0)), (rule.needs("alpha_set"), rule.needs("numeric_set"), rule.needs("special_char_set")));
}

#[test]
fn pools_by_position() {
    let rule = NumberPoolByIndex::new(vec![
        NumberPoolItemByIndex::new("letters", &PoolType::MinMax(65, 90), &HashSet::from_iter([0, 2])),
        NumberPoolItemByIndex::new("digits", &PoolType::MinMax(48, 57), &HashSet::from_iter([1])),
        NumberPoolItemByIndex::new("none", &PoolType::MinMax(9, 1), &HashSet::from_iter([3])),
    ]);
    assert_eq!("[letters, digits, none]", rule.to_string());
    assert_eq!("NumberPoolByIndex", rule.name());
    assert_eq!(Ok(true), rule.check_count(0));
    let settings = settings_with(4, Turns::new(&[3], true));
    let shared: SharedData = StringMap::new();
    let numbers = vec![65, 50];
    let current_data = CurrentData::new(&numbers, &settings, &shared);
    assert_eq!(Ok(()), rule.is_within_range(&current_data));
    assert_eq!(Ok(()), rule.is_match(&current_data));
    assert_eq!(Ok(vec![68]), rule.get_numbers(&current_data));
    assert!(ExcludeRuleTrait::is_excluded(&rule, &current_data).is_err());
    let numbers = vec![65, 50, 5];
    let current_data = CurrentData::new(&numbers, &settings, &shared);
    assert_eq!(
        Err((
            IsWithinErrorType::Regular,
            "Selected number 5 at index 2 is not from pool letters. Numbers:[65, 50, 5]".to_owned()
        )),
        rule.is_within_range(&current_data)
    );
    assert!(ExcludeRuleTrait::is_excluded(&rule, &current_data).is_ok());
    assert_eq!(
        Err("No number can be drawn from the empty pool none".to_owned()),
        rule.get_numbers(&current_data)
    );
    let numbers = vec![65, 50, 66, 1];
    let current_data = CurrentData::new(&numbers, &settings, &shared);
    assert_eq!(Err(skip()), rule.get_numbers(&current_data));
    assert!(rule.is_match(&current_data).is_err());
}

#[test]
fn ranges() {
    let all = NumberRange::all(3, 5);
    assert_eq!((1, false), (all.len(), all.is_empty()));
    let by_position = NumberRange::from_map(&[(&[0, 2], 1, 2), (&[2, 5], 7, 9)]);
    assert_eq!(3, by_position.len());
    assert_eq!("[(0, (1, 2)), (2, (7, 9)), (5, (7, 9))]", by_position.to_string());
    assert!(NumberRange::from_map(&[]).is_empty());
    assert_eq!("[]", NumberRange::from_map(&[]).to_string());
    let settings = settings_with(4, Turns::new(&[3], true));
    let shared: SharedData = StringMap::new();
    let numbers = vec![2, 100, 8];
    let current_data = CurrentData::new(&numbers, &settings, &shared);
    assert_eq!(Ok(()), by_position.is_match(&current_data));
    assert_eq!(Err(skip()), by_position.get_numbers(&current_data));
    assert!(by_position.share_data(&current_data).is_none());
    assert_eq!(
        Err((
            IsWithinErrorType::Regular,
            "Exclude: true - Selected number 2 at index 0 is not within range of min: 1 and max: 2. Numbers:[2, 100, 8].  Map Index:0"
                .to_owned()
        )),
        by_position.is_within_excluded_range(&current_data)
    );
    assert!(ExcludeRuleTrait::is_excluded(&by_position, &current_data).is_err());
    assert_eq!(
        Err((
            IsWithinErrorType::Regular,
            "Exclude: false - Selected number 2 at index 0 is not within range of min: 3 and max: 5. Numbers:[2, 100, 8].  Map Index:0"
                .to_owned()
        )),
        all.is_within_range(&current_data)
    );
    let facts = all.share_data(&current_data).unwrap();
    assert!(matches!(facts.get("min"), Some(MapAnyValue::Usize(3))));
    assert!(matches!(facts.get("max"), Some(MapAnyValue::Usize(5))));
    assert_eq!(2, facts.len());
    let numbers = vec![2, 100];
    let current_data = CurrentData::new(&numbers, &settings, &shared);
    let facts = by_position.share_data(&current_data).unwrap();
    assert!(matches!(facts.get("min"), Some(MapAnyValue::Usize(7))));
    assert!(matches!(facts.get("max"), Some(MapAnyValue::Usize(9))));
    assert_eq!("NumberRange", all.name());
    assert_eq!("NumberRange", all.exclude_name());
    assert_eq!(Ok(true), all.check_count(0));
}

#[test]
fn parity() {
    assert!(OddEven::is_even(0) && OddEven::is_even(10) && !OddEven::is_even(7));
    assert!(OddEven::is_odd(7) && !OddEven::is_odd(usize::MAX - 1) && OddEven::is_odd(usize::MAX));
    let counts = OddEven::from_numbers(&[1, 2, 3, 5, 8]);
    assert_eq!((3, 2), (counts.odd(), counts.even()));
    assert_eq!("ODD:3,EVEN:2", counts.to_string());
    let target = OddEven::new(3, 4);
    assert!(counts.needs_even(&target) && !counts.needs_odd(&target));
    assert!(counts.needs_only_even(&target) && !counts.needs_only_odd(&target));
    assert!(OddEven::new(1, 4).needs_only_odd(&target));
    assert_eq!(Some(12), OddEven::even_number(10, 20, &Turns::new(&[1, 2], true)));
    assert_eq!(Some(11), OddEven::odd_number(10, 20, &Turns::new(&[0, 1], true)));
    assert_eq!(None, OddEven::even_number(10, 20, &Turns::new(&[1], true)));
    assert_eq!(None, OddEven::odd_number(10, 20, &Turns::new(&[0], true)));
    assert_eq!(None, OddEven::odd_number(20, 10, &Turns::new(&[0], true)));
    assert_eq!(None, OddEven::even_number(3, 3, &DefaultRandom {}));
    assert_eq!(Some(4), OddEven::even_number(4, 4, &DefaultRandom {}));
    assert_eq!(Some(7), OddEven::odd_number(7, 7, &DefaultRandom {}));
    assert_eq!(None, OddEven::odd_number(4, 4, &DefaultRandom {}));

    let shared = range_facts(10, 20);
    let numbers = vec![1, 2, 3, 5, 8];
    let settings = settings_with(7, Turns::new(&[0, 1, 2], true));
    let current_data = CurrentData::new(&numbers, &settings, &shared);
    assert_eq!(Ok(vec![12]), target.get_numbers(&current_data));
    assert_eq!(Ok(()), target.is_within_range(&current_data));
    assert_eq!(
        Err("Expected Odd: 3 and Even: 4.  Actual Odd: 3 and Even: 2.".to_owned()),
        target.is_match(&current_data)
    );
    assert_eq!(Err(skip()), counts.get_numbers(&current_data));
    assert_eq!(Ok(()), counts.is_match(&current_data));
    assert_eq!(
        Err((IsWithinErrorType::Regular, "Too Many Odds".to_owned())),
        OddEven::new(2, 2).is_within_range(&current_data)
    );
    assert_eq!(
        Err((IsWithinErrorType::Regular, "Too Many Evens".to_owned())),
        OddEven::new(3, 1).is_within_range(&current_data)
    );
    let settings = settings_with(7, Turns::new(&[1], true));
    let current_data = CurrentData::new(&numbers, &settings, &shared);
    assert_eq!(
        Err("Could not find an even number in range: 10-20".to_owned()),
        target.get_numbers(&current_data)
    );
    let one = range_facts(12, 12);
    let settings = settings_with(7, Turns::new(&[0], true));
    let current_data = CurrentData::new(&numbers, &settings, &one);
    assert_eq!(Ok(vec![12]), target.get_numbers(&current_data));
    assert_eq!(Ok(true), target.check_count(7));
    assert_eq!(
        Err("Odd count: 3 and Even count: 4 is greater than count: 6 ".to_owned()),
        target.check_count(6)
    );
    assert_eq!(target.check_count(6), target.check_count(6));
    assert!(OddEven::new(usize::MAX, 2).check_count(usize::MAX).is_err());
    assert_eq!("OddEven", target.name());
    assert_ne!(OddEvenKey::Odd, OddEvenKey::Even);
}

#[test]
fn parity_by_position() {
    let rule = OddEvenByIndex::new(&[0, 2, 3], &[1, 3]);
    assert_eq!("{0: Odd, 1: Even, 2: Odd, 3: Even}", rule.to_string());
    assert_eq!("{0: Odd, 1: Even}", OddEvenByIndex::from_numbers(&[7, 8]).to_string());
    let shared = range_facts(10, 20);
    let settings = settings_with(5, Turns::new(&[0, 1, 2], true));
    let numbers = vec![7, 8];
    let current_data = CurrentData::new(&numbers, &settings, &shared);
    assert_eq!(Ok(()), rule.is_within_range(&current_data));
    assert_eq!(Ok(()), rule.is_match(&current_data));
    assert_eq!(Ok(vec![11]), rule.get_numbers(&current_data));
    let numbers = vec![7, 8, 9, 9];
    let current_data = CurrentData::new(&numbers, &settings, &shared);
    assert_eq!(
        Err((
            IsWithinErrorType::Regular,
            "Selected number 9 at index 3 is not: Even. Numbers:[7, 8, 9, 9]".to_owned()
        )),
        rule.is_within_range(&current_data)
    );
    assert_eq!(Err(skip()), rule.get_numbers(&current_data));
    let numbers = vec![7];
    let settings = settings_with(5, Turns::new(&[1], true));
    let current_data = CurrentData::new(&numbers, &settings, &shared);
    assert_eq!(
        Err("Could not find an even number in range: 10-20".to_owned()),
        rule.get_numbers(&current_data)
    );
    let one = range_facts(14, 14);
    let current_data = CurrentData::new(&numbers, &settings, &one);
    assert_eq!(Ok(vec![14]), rule.get_numbers(&current_data));
    let numbers = vec![7, 8];
    let one = range_facts(15, 15);
    let current_data = CurrentData::new(&numbers, &settings, &one);
    assert_eq!(Ok(vec![15]), rule.get_numbers(&current_data));
    assert_eq!("OddEvenByIndex", rule.name());
    assert_eq!(Ok(true), rule.check_count(1));
}

#[test]
fn gaps() {
    assert!(NumberSpaceType::Lt(3).is_match(2) && !NumberSpaceType::Lt(3).is_match(3));
    assert!(NumberSpaceType::Lte(3).is_match(3) && !NumberSpaceType::Lte(3).is_match(4));
    assert!(NumberSpaceType::Eq(3).is_match(3) && !NumberSpaceType::Eq(3).is_match(2));
    assert!(NumberSpaceType::Gte(3).is_match(3) && !NumberSpaceType::Gte(3).is_match(2));
    assert!(NumberSpaceType::Gt(3).is_match(4) && !NumberSpaceType::Gt(3).is_match(3));
    assert!(NumberSpaceType::Between(2, 4).is_match(2) && NumberSpaceType::Between(2, 4).is_match(4));
    assert!(!NumberSpaceType::Between(2, 4).is_match(1) && !NumberSpaceType::Between(2, 4).is_match(5));
    assert_eq!(3, NumberSpaceType::Lte(2).has(&[1, 2, 3, 0]));
    assert_eq!(0, NumberSpaceType::Gt(9).has(&[]));
    assert_eq!("Lt:3", NumberSpaceType::Lt(3).to_string());
    assert_eq!("Lte:3", NumberSpaceType::Lte(3).to_string());
    assert_eq!("Eq:3", NumberSpaceType::Eq(3).to_string());
    assert_eq!("Gte:3", NumberSpaceType::Gte(3).to_string());
    assert_eq!("Gt:3", NumberSpaceType::Gt(3).to_string());
    assert_eq!("Gte:1-Lte:3", NumberSpaceType::Between(1, 3).to_string());
    assert_eq!("Lt(3)", NumberSpaceType::Lt(3).debug_string());
    assert_eq!("Lte(3)", NumberSpaceType::Lte(3).debug_string());
    assert_eq!("Eq(0)", NumberSpaceType::Eq(0).debug_string());
    assert_eq!("Gte(12)", NumberSpaceType::Gte(12).debug_string());
    assert_eq!("Gt(3)", NumberSpaceType::Gt(3).debug_string());
    assert_eq!("Between(1, 30)", NumberSpaceType::Between(1, 30).debug_string());

    let source = Turns::new(&[1], true);
    assert_eq!(9, NumberSpaceType::Lt(3).get_number(7, 40, &source));
    assert_eq!(9, NumberSpaceType::Lte(3).get_number(7, 40, &source));
    assert_eq!(10, NumberSpaceType::Eq(3).get_number(7, 40, &source));
    assert_eq!(12, NumberSpaceType::Gt(3).get_number(7, 40, &source));
    assert_eq!(11, NumberSpaceType::Gte(3).get_number(7, 40, &source));
    assert_eq!(10, NumberSpaceType::Between(2, 5).get_number(7, 40, &source));
    assert_eq!(0, NumberSpaceType::Lt(1).get_number(7, 40, &source));
    assert_eq!(0, NumberSpaceType::Lt(0).get_number(7, 40, &source));
    assert_eq!(0, NumberSpaceType::Lte(0).get_number(7, 40, &source));
    assert_eq!(0, NumberSpaceType::Gt(33).get_number(7, 40, &source));
    assert_eq!(40, NumberSpaceType::Gte(33).get_number(7, 40, &source));
    assert_eq!(0, NumberSpaceType::Gte(34).get_number(7, 40, &source));
    assert_eq!(0, NumberSpaceType::Between(5, 2).get_number(7, 40, &source));
    assert_eq!(0, NumberSpaceType::Eq(usize::MAX).get_number(7, 40, &source));
    assert_eq!(0, NumberSpaceType::Gt(usize::MAX).get_number(7, 40, &source));
    assert_eq!(0, NumberSpaceType::Lt(3).get_number(usize::MAX, 40, &source));
    assert_eq!(usize::MAX, NumberSpaceType::Lte(3).get_number(usize::MAX - 1, 40, &source));

    assert!(NumberSpaceItem::get_num_spaces(&[], false).is_empty());
    assert!(NumberSpaceItem::get_num_spaces(&[5], true).is_empty());
    assert_eq!(vec![0, 4], NumberSpaceItem::get_num_spaces(&[5, 9, 5], false));
    let item = NumberSpaceItem::new(&NumberSpaceType::Eq(2), 3);
    assert_eq!((3, 0, 0), (item.needs(), item.has(), item.missing()));
    assert_eq!(&NumberSpaceType::Eq(2), item.number_space_type());
    let item = NumberSpaceItem::new_full(&NumberSpaceType::Gt(2), 3, 4, 5);
    assert_eq!((3, 4, 5), (item.needs(), item.has(), item.missing()));
    assert_eq!("Gt:2=4", item.to_string());
    assert_eq!("", NumberSpace::new(&[]).to_string());

    let judged = NumberSpace::from_numbers(
        &[
            NumberSpaceItem::new(&NumberSpaceType::Eq(2), 3),
            NumberSpaceItem::new(&NumberSpaceType::Gt(2), 0),
        ],
        &[9, 1, 3, 5],
        false,
        false,
    );
    let items = judged.number_space_items();
    assert_eq!((3, 2, 1), (items[0].needs(), items[0].has(), items[0].missing()));
    assert_eq!((0, 1, 0), (items[1].needs(), items[1].has(), items[1].missing()));
    assert_eq!("Eq:2=2;Gt:2=1", judged.to_string());
    let described = NumberSpace::from_numbers(
        &[NumberSpaceItem::new(&NumberSpaceType::Eq(2), 3)],
        &[1, 3, 5, 9],
        true,
        true,
    );
    assert_eq!((2, 2, 1), (described.number_space_items()[0].needs(), described.number_space_items()[0].has(), described.number_space_items()[0].missing()));
}

#[test]
fn gap_rule() {
    let rule = NumberSpace::new(&[
        NumberSpaceItem::new(&NumberSpaceType::Eq(2), 2),
        NumberSpaceItem::new(&NumberSpaceType::Gte(5), 1),
    ]);
    assert_eq!("Eq:2=0;Gte:5=0", rule.to_string());
    assert_eq!("NumberSpace", rule.name());
    assert_eq!(Ok(true), rule.check_count(0));
    let shared = range_facts(1, 30);
    let settings = settings_with(4, Turns::new(&[3], true));
    let numbers = vec![20, 11, 13];
    let current_data = CurrentData::new(&numbers, &settings, &shared);
    assert_eq!(Ok(()), rule.is_within_range(&current_data));
    assert_eq!(
        Err("Expected--Pool:Eq(2)--Needs:2. Actual Count:1".to_owned()),
        rule.is_match(&current_data)
    );
    assert_eq!(Ok(vec![22]), rule.get_numbers(&current_data));
    assert!(ExcludeRuleTrait::is_excluded(&rule, &current_data).is_ok());
    let numbers = vec![20, 11, 13, 15];
    let current_data = CurrentData::new(&numbers, &settings, &shared);
    assert_eq!(Ok(()), rule.is_match(&current_data));
    assert_eq!(Err(skip()), rule.get_numbers(&current_data));
    assert!(ExcludeRuleTrait::is_excluded(&rule, &current_data).is_err());
    let numbers = vec![20, 11, 13, 15, 17];
    let current_data = CurrentData::new(&numbers, &settings, &shared);
    assert_eq!(
        Err((
            IsWithinErrorType::Regular,
            "Too many from pool Eq(2), \"needs\" is 2 and \"has\" 3 from this pool".to_owned()
        )),
        rule.is_within_range(&current_data)
    );
    let numbers = vec![20, 11, 12];
    let current_data = CurrentData::new(&numbers, &settings, &shared);
    assert_eq!(
        Err((
            IsWithinErrorType::MakePriority,
            "Need to pull from number pool, \"missing\" 2 and there are 1 numbers left to pick"
                .to_owned()
        )),
        rule.is_within_range(&current_data)
    );
    let numbers = vec![];
    let current_data = CurrentData::new(&numbers, &settings, &shared);
    assert_eq!(Ok(vec![6, 14]), rule.get_numbers(&current_data));
    let shared = range_facts(9, 1);
    let current_data = CurrentData::new(&numbers, &settings, &shared);
    assert_eq!(
        Err("No number lies in the range that was shared".to_owned()),
        rule.get_numbers(&current_data)
    );
}

#[test]
fn runs() {
    let settings = settings_with(6, Turns::new(&[0], true));
    let shared = range_facts(10, 20);
    let numbers = vec![9, 4, 5, 20, 3, 8, 8];
    let current_data = CurrentData::new(&numbers, &settings, &shared);
    let by_size = Sequential::from_numbers(&current_data, false);
    assert_eq!((2, &vec![2, 3]), (by_size.not(), by_size.seq_counts()));
    let by_place = Sequential::from_numbers(&current_data, true);
    assert_eq!((2, &vec![3, 2]), (by_place.not(), by_place.seq_counts()));
    assert_eq!("NOT:2,SEQ1:3,SEQ2:2", by_place.to_string());
    assert_eq!("NOT:0", Sequential::new(0, &[]).to_string());
    assert_eq!(Ok(()), by_size.is_match(&current_data));
    assert_eq!(
        Err("Expected Not: 2 and Seq_Counts: [3, 2].  Actual Not: 2 and Seq_Counts: [2, 3].".to_owned()),
        by_place.is_match(&current_data)
    );
    assert_eq!(
        Err((
            IsWithinErrorType::Regular,
            "Expected Not: 1 and Seq_Counts: [2, 3].  Actual Not: 2 and Seq_Counts: [2, 3].".to_owned()
        )),
        Sequential::new(1, &[2, 3]).is_within_range(&current_data)
    );
    assert_eq!(
        Err((
            IsWithinErrorType::Regular,
            "Expected Not: 2 and Seq_Counts: [2, 2].  Actual Not: 2 and Seq_Counts: [2, 3]. IDX:1".to_owned()
        )),
        Sequential::new(2, &[2, 2]).is_within_range(&current_data)
    );
    assert_eq!(Ok(()), Sequential::new(2, &[2, 4, 9]).is_within_range(&current_data));
    assert_eq!(Err(skip()), by_size.get_numbers(&current_data));

    let source = Turns::new(&[1], true);
    assert_eq!(0, by_size.needs_seq(&Sequential::new(6, &[5]), 6, &source));
    assert_eq!(0, by_size.needs_seq(&Sequential::new(0, &[3, 2]), 6, &source));
    assert_eq!(4, by_size.needs_seq(&Sequential::new(0, &[2, 4, 3]), 6, &source));
    assert_eq!(5, by_size.needs_seq(&Sequential::new(0, &[2, 2, 3, 5]), 6, &source));

    let target = Sequential::new(1, &[3]);
    let numbers = vec![15];
    let settings = settings_with(4, Turns::new(&[0], true));
    let current_data = CurrentData::new(&numbers, &settings, &shared);
    assert_eq!(Ok(vec![16, 17]), target.get_numbers(&current_data));
    let settings = settings_with(4, Turns::new(&[0, 2], false));
    let current_data = CurrentData::new(&numbers, &settings, &shared);
    assert_eq!(Ok(vec![12, 13, 14]), target.get_numbers(&current_data));
    let numbers = vec![];
    let settings = settings_with(4, Turns::new(&[0, 5], true));
    let current_data = CurrentData::new(&numbers, &settings, &shared);
    assert_eq!(Ok(vec![15, 16, 17]), target.get_numbers(&current_data));
    let empty = range_facts(20, 10);
    let current_data = CurrentData::new(&numbers, &settings, &empty);
    assert_eq!(
        Err("No number lies in the range that was shared".to_owned()),
        target.get_numbers(&current_data)
    );
    let numbers = vec![usize::MAX];
    let settings = settings_with(4, Turns::new(&[0], true));
    let current_data = CurrentData::new(&numbers, &settings, &shared);
    assert_eq!(
        Err("The run does not fit below the largest number".to_owned()),
        target.get_numbers(&current_data)
    );
    assert_eq!(Ok(true), target.check_count(4));
    assert_eq!(
        Err("Sequential count: 4 is greater than count: 3 ".to_owned()),
        target.check_count(3)
    );
    assert_eq!(target.check_count(3), target.check_count(3));
    assert!(Sequential::new(usize::MAX, &[1]).check_count(usize::MAX).is_err());
    assert_eq!("Sequential", target.name());
}

#[test]
fn forbidden_sequences_and_exclusions() {
    let rule = ExcludeNumberSets::new(&vec![vec![1, 2], vec![], vec![1, 2], vec![]]);
    assert_eq!(&vec![vec![1, 2], vec![]], rule.excluded_number_sets());
    assert_eq!(&vec![vec![1, 2], vec![]], rule.clone().excluded_number_sets());
    let twice = ExcludeNumberSets::new_string(&vec!["AB".to_owned(), "C".to_owned(), "AB".to_owned()]);
    assert_eq!(&vec![vec![65, 66], vec![67]], twice.excluded_number_sets());
    assert!(rule.forbids(&vec![1, 2]) && rule.forbids(&vec![]) && !rule.forbids(&vec![2, 1]));
    let texts = ExcludeNumberSets::new_string(&vec!["AB".to_owned()]);
    assert_eq!(&vec![vec![65, 66]], texts.excluded_number_sets());
    assert_eq!("ExcludeNumberSets", rule.to_string());
    let settings = settings_with(2, Turns::new(&[0], true));
    let shared: SharedData = StringMap::new();
    let numbers = vec![1, 2];
    let current_data = CurrentData::new(&numbers, &settings, &shared);
    assert_eq!(Ok(()), rule.is_within_range(&current_data));
    assert_eq!(
        Err("Excluded Number Set found: [1, 2]".to_owned()),
        rule.is_match(&current_data)
    );
    assert_eq!(Ok(()), ExcludeRuleTrait::is_excluded(&rule, &current_data));
    assert_eq!(Ok(()), texts.is_match(&current_data));
    assert_eq!(
        Err("Number Contains Rule ExcludeNumberSets, that should be excluded.".to_owned()),
        ExcludeRuleTrait::is_excluded(&texts, &current_data)
    );
    assert_eq!(Err(skip()), rule.get_numbers(&current_data));

    assert_eq!(
        Err("Number Contains Rule X, that should be excluded.".to_owned()),
        is_excluded_helper(&Ok(()), "X")
    );
    assert_eq!(Ok(()), is_excluded_helper(&Err("no".to_owned()), "X"));

    let none = NoDuplicate {};
    assert_eq!(
        Err("Number Contains Rule No Duplicate, that should be excluded.".to_owned()),
        ExcludeRuleTrait::is_excluded(&none, &current_data)
    );
    assert_eq!(Ok(()), none.is_match(&current_data));
    let numbers = vec![1, 2, 1];
    let current_data = CurrentData::new(&numbers, &settings, &shared);
    assert_eq!(
        Err((IsWithinErrorType::Regular, "Duplicate found in [1, 2, 1]".to_owned())),
        none.is_within_range(&current_data)
    );
    assert_eq!(Ok(()), ExcludeRuleTrait::is_excluded(&none, &current_data));
    assert_eq!("NoDuplicate", none.name());
    assert_eq!("No Duplicate", none.to_string());
}

#[test]
fn catalogue_decides_what_its_rule_decides() {
    let settings = settings_with(3, Turns::new(&[4], true));
    let shared = range_facts(10, 20);
    let numbers = vec![3, 3];
    let current_data = CurrentData::new(&numbers, &settings, &shared);
    let rule = Rule::NoDuplicate(NoDuplicate {});
    assert_eq!("NoDuplicate", rule.name());
    assert_eq!("No Duplicate", RuleTrait::to_string(&rule));
    assert!(rule.is_match(&current_data).is_err());
    assert!(rule.is_within_range(&current_data).is_err());
    assert_eq!(Err(skip()), rule.get_numbers(&current_data));
    assert!(rule.share_data(&current_data).is_none());
    assert_eq!(Ok(true), rule.check_count(0));
    let excluded = ExcludeRule::NoDuplicate(NoDuplicate {});
    assert_eq!(Ok(()), excluded.is_excluded(&current_data));
    assert_eq!(Ok(()), excluded.is_within_excluded_range(&current_data));
    assert_eq!("NoDuplicate", excluded.exclude_name());
    assert_eq!("No Duplicate", ExcludeRuleTrait::to_string(&excluded));
    let fallback = Rule::RandomNumber(RandomNumber {});
    assert_eq!(Ok(vec![14]), fallback.get_numbers(&current_data));
    assert_eq!(Ok(()), fallback.is_match(&current_data));
    assert_eq!("RandomNumber", fallback.name());
    assert!(matches!(
        Rule::OddEven(OddEven::new(9, 9)).check_count(3),
        Err(_)
    ));
}
