use random_rules::default_random::DefaultRandom;
use random_rules::random::random_numbers;
use random_rules::rules::exclude_number_sets::ExcludeNumberSets;
use random_rules::rules::no_duplicates::NoDuplicate;
use random_rules::rules::number_pool::{
    np_alphabet_set, np_special_char_set, NumberPool, NumberPoolItem, PoolType,
};
use random_rules::rules::number_pool_by_index::{NumberPoolByIndex, NumberPoolItemByIndex};
use random_rules::rules::number_range::NumberRange;
use random_rules::rules::number_space::{NumberSpace, NumberSpaceItem, NumberSpaceType};
use random_rules::rules::odd_even::OddEven;
use random_rules::rules::odd_even_by_index::OddEvenByIndex;
use random_rules::rules::rule::{ExcludeRule, Rule};
use random_rules::rules::sequential::Sequential;
use random_rules::settings::Settings;
use std::collections::HashSet;
use std::iter::FromIterator;

#[test]
fn uc_random_numbers() {
    //Create 10 random numbers between 1 and 20 (min and max numbers are inclusive)
    let random_result = random_numbers(&Settings::new(
        vec![Rule::NumberRange(NumberRange::all(1, 20))],
        10,
    ));
    match random_result.numbers() {
        Ok(numbers) => {
            assert!(numbers.len() == 10);
            assert!(numbers.iter().all(|x| *x >= 1 && *x <= 20));
            println!("{:?}", numbers);
        }
        _ => println!("{:?}", random_result.logs()),
    }
}

#[test]
fn uc_no_duplicate() {
    //Create 10 random numbers between 1 and 20 with no duplicates
    let random_result = random_numbers(&Settings::new(
        vec![
            Rule::NoDuplicate(NoDuplicate {}),
            Rule::NumberRange(NumberRange::all(1, 20)),
        ],
        10,
    ));
    match random_result.numbers() {
        Ok(numbers) => {
            assert!(numbers.len() == 10);
            assert!(numbers.len() == numbers.iter().copied().collect::<HashSet<usize>>().len());
            assert!(numbers.iter().all(|x| *x >= 1 && *x <= 20));
            println!("{:?}", numbers);
        }
        _ => println!("{:?}", random_result.logs()),
    }
}

#[test]
fn uc_has_duplicate() {
    //Create 10 random numbers between 1 and 20 with duplicates(or with repeating numbers)
    let random_result = random_numbers(&Settings::with_exclude_rules(
        vec![Rule::NumberRange(NumberRange::all(1, 20))],
        10,
        Some(vec![ExcludeRule::NoDuplicate(NoDuplicate {})]),
    ));
    match random_result.numbers() {
        Ok(numbers) => {
            println!("{:?}", numbers);
            assert!(numbers.len() == 10);
            assert!(numbers.len() > numbers.iter().copied().collect::<HashSet<usize>>().len());
            assert!(numbers.iter().all(|x| *x >= 1 && *x <= 20));
        }
        _ => println!("{:?}", random_result.logs()),
    }
}

#[test]
fn uc_number_range_1() {
    //Create random phone number
    let random_result = random_numbers(&Settings::new(
        vec![Rule::NumberRange(NumberRange::from_map(&[
            (&vec![0, 1], 100, 999),
            (&vec![2], 1000, 9999),
        ]))],
        3,
    ));
    match random_result.numbers() {
        Ok(numbers) => {
            assert!(numbers.len() == 3);
            assert!(numbers[0] >= 100 && numbers[0] <= 999);
            assert!(numbers[1] >= 100 && numbers[1] <= 999);
            assert!(numbers[2] >= 1000 && numbers[2] <= 9999);
            assert!(numbers.len() == 3);
            println!("{}-{}-{}", numbers[0], numbers[1], numbers[2]);
        }
        _ => println!("{:?}", random_result.logs()),
    }
}

#[test]
fn uc_number_range_2() {
    //Create 10 numbers between 1 and 100, excluding numbers 20 - 29 and 51 - 75, and with no duplicates
    let random_result = random_numbers(&Settings::with_exclude_rules(
        vec![
            Rule::NoDuplicate(NoDuplicate {}),
            Rule::NumberRange(NumberRange::all(1, 100)),
        ],
        10,
        Some(vec![
            ExcludeRule::NumberRange(NumberRange::all(20, 29)),
            ExcludeRule::NumberRange(NumberRange::all(51, 75)),
        ]),
    ));
    let mut excluded_numbers = HashSet::new();
    (20..=29).for_each(|x| {
        excluded_numbers.insert(x);
    });
    (51..=75).for_each(|x| {
        excluded_numbers.insert(x);
    });
    match random_result.numbers() {
        Ok(numbers) => {
            assert!(numbers.len() == 10);
            for number in numbers {
                assert!(
                    !excluded_numbers.contains(number),
                    "{:?}:: should not contain: {}",
                    numbers,
                    number
                );
            }
            println!("{:?}", numbers);
        }
        _ => println!("{:?}", random_result.logs()),
    }
}

#[test]
fn uc_number_pool_1() {
    //Create 10 numbers between 1 and 100 with no duplicates that doesn't contain the number 23, contains the numbers 1 and 4, and at least 3 numbers from 17, 18, 19, 20, 21
    let random_result = random_numbers(&Settings::new(
        vec![
            Rule::NoDuplicate(NoDuplicate {}),
            Rule::NumberPool(NumberPool::new(&[
                NumberPoolItem::new("exclude_23", &PoolType::Values(HashSet::from_iter([23])), 0),
                NumberPoolItem::new(
                    "must_contain_1_4",
                    &PoolType::Values(HashSet::from_iter([1, 4])),
                    2,
                ),
                NumberPoolItem::new(
                    "some_set",
                    &PoolType::Values(HashSet::from_iter([17, 18, 19, 20, 21])),
                    3,
                ),
            ])),
            Rule::NumberRange(NumberRange::all(1, 100)),
        ],
        10,
    ));
    match random_result.numbers() {
        Ok(numbers) => {
            assert!(numbers.len() == 10);
            let mut must_contain_count = 0;
            let mut some_set_count = 0;
            for number in numbers {
                assert_ne!(*number, 23);
            }
            for number in numbers {
                if *number == 1 || *number == 4 {
                    must_contain_count += 1;
                }
            }
            assert_eq!(must_contain_count, 2);
            for number in numbers {
                if *number == 17
                    || *number == 18
                    || *number == 19
                    || *number == 20
                    || *number == 21
                {
                    some_set_count += 1;
                }
            }
            assert_eq!(some_set_count, 3);
            println!("{:?}", numbers);
        }
        _ => println!("{:?}", random_result.logs()),
    }
}

#[test]
fn uc_odd_even_with_order_1() {
    //Create 5 numbers between 1 and 10 with no duplicates that are Odd, Even, Odd, Even, and Odd
    let random_result = random_numbers(&Settings::new(
        vec![
            Rule::NoDuplicate(NoDuplicate {}),
            Rule::NumberRange(NumberRange::all(1, 10)),
            Rule::OddEvenByIndex(OddEvenByIndex::new(&vec![0, 2, 4], &vec![1, 3])),
        ],
        5,
    ));
    match random_result.numbers() {
        Ok(numbers) => {
            assert!(numbers.len() == 5);
            assert!(numbers.len() == numbers.iter().copied().collect::<HashSet<usize>>().len());
            assert!(numbers[0] % 2 == 1);
            assert!(numbers[1] % 2 == 0);
            assert!(numbers[2] % 2 == 1);
            assert!(numbers[3] % 2 == 0);
            assert!(numbers[4] % 2 == 1);
            assert!(numbers.len() == 5);
            println!("{:?}", numbers);
        }
        _ => println!("{:?}", random_result.logs()),
    }
}

#[test]
fn uc_odd_even_with_order_2() {
    //Create 5 numbers between 1 and 10 with no duplicates where first 3 numbers are Even and the last 2 numbers are Odd
    let random_result = random_numbers(&Settings::new(
        vec![
            Rule::NoDuplicate(NoDuplicate {}),
            Rule::NumberRange(NumberRange::all(1, 10)),
            Rule::OddEvenByIndex(OddEvenByIndex::new(&vec![3, 4], &vec![0, 1, 2])),
        ],
        5,
    ));
    match random_result.numbers() {
        Ok(numbers) => {
            assert!(numbers.len() == 5);
            assert!(numbers.len() == numbers.iter().copied().collect::<HashSet<usize>>().len());
            assert!(numbers[0] % 2 == 0);
            assert!(numbers[1] % 2 == 0);
            assert!(numbers[2] % 2 == 0);
            assert!(numbers[3] % 2 == 1);
            assert!(numbers[4] % 2 == 1);
            assert!(numbers.len() == 5);
            println!("{:?}", numbers);
        }
        _ => println!("{:?}", random_result.logs()),
    }
}

#[test]
fn uc_odd_even_with_order_3() {
    //Create 5 numbers between 1 and 10 with no duplicates and the 5th number is odd
    let random_result = random_numbers(&Settings::new(
        vec![
            Rule::NoDuplicate(NoDuplicate {}),
            Rule::NumberRange(NumberRange::all(1, 10)),
            Rule::OddEvenByIndex(OddEvenByIndex::new(&vec![4], &vec![])),
        ],
        5,
    ));
    match random_result.numbers() {
        Ok(numbers) => {
            assert!(numbers.len() == 5);
            assert!(numbers.len() == numbers.iter().copied().collect::<HashSet<usize>>().len());
            assert!(numbers[4] % 2 == 1);
            assert!(numbers.len() == 5);
            println!("{:?}", numbers);
        }
        _ => println!("{:?}", random_result.logs()),
    }
}

#[test]
fn uc_odd_even_1() {
    //Create 10 numbers between 1 and 20 with no duplicates that has 5 odd and 5 even numbers
    let random_result = random_numbers(&Settings::new(
        vec![
            Rule::NoDuplicate(NoDuplicate {}),
            Rule::NumberRange(NumberRange::all(1, 20)),
            Rule::OddEven(OddEven::new(5, 5)),
        ],
        10,
    ));
    match random_result.numbers() {
        Ok(numbers) => {
            assert!(numbers.len() == 10);
            assert!(numbers.len() == numbers.iter().copied().collect::<HashSet<usize>>().len());
            assert_eq!(numbers.len(), 10);
            let odd_even = OddEven::from_numbers(numbers);
            let mut odd: usize = 0;
            let mut even: usize = 0;
            numbers.iter().for_each(|x| {
                if x % 2_usize == 0 {
                    even += 1
                } else {
                    odd += 1
                }
            });
            assert_eq!(odd_even.odd(), 5);
            assert_eq!(odd_even.even(), 5);
            assert_eq!(odd, 5);
            assert_eq!(even, 5);
            println!("{:?}", numbers);
        }
        _ => println!("{:?}", random_result.logs()),
    }
}

#[test]
fn uc_odd_even_2() {
    //Create 10 numbers between 1 and 20 that has all even numbers
    let random_result = random_numbers(&Settings::new(
        vec![
            Rule::NumberRange(NumberRange::all(1, 20)),
            Rule::OddEven(OddEven::new(0, 10)),
        ],
        10,
    ));
    match random_result.numbers() {
        Ok(numbers) => {
            assert_eq!(numbers.len(), 10);
            let odd_even = OddEven::from_numbers(numbers);
            let mut odd: usize = 0;
            let mut even: usize = 0;
            numbers.iter().for_each(|x| {
                if x % 2_usize == 0 {
                    even += 1
                } else {
                    odd += 1
                }
            });
            assert_eq!(odd_even.odd(), 0);
            assert_eq!(odd_even.even(), 10);
            assert_eq!(odd, 0);
            assert_eq!(even, 10);
            println!("{:?}", numbers);
        }
        _ => println!("{:?}", random_result.logs()),
    }
}

#[test]
fn uc_seq_1() {
    //Create 5 numbers between 1 and 10 with no duplicates that are all nonsequential
    let random_result = random_numbers(&Settings::new(
        vec![
            Rule::NoDuplicate(NoDuplicate {}),
            Rule::NumberRange(NumberRange::all(1, 10)),
            Rule::Sequential(Sequential::new(5, &[])),
        ],
        5,
    ));
    match random_result.numbers() {
        Ok(numbers) => {
            assert!(numbers.len() == 5);
            assert!(numbers.len() == numbers.iter().copied().collect::<HashSet<usize>>().len());
            for number in numbers.iter().copied() {
                for number2 in numbers.iter().copied() {
                    assert!((number - 1) != number2);
                    assert!((number + 1) != number2);
                }
            }
            println!("{:?}", numbers);
        }
        _ => println!("{:?}", random_result.logs()),
    }
}

#[test]
fn uc_seq_2() {
    //Create 5 numbers between 1 and 10 with no duplicates that has 3 nonsequential and has 1 sequential set of 2 numbers
    let random_result = random_numbers(&Settings::new(
        vec![
            Rule::NoDuplicate(NoDuplicate {}),
            Rule::NumberRange(NumberRange::all(1, 10)),
            Rule::Sequential(Sequential::new(3, &[2])),
        ],
        5,
    ));
    match random_result.numbers() {
        Ok(numbers) => {
            assert!(numbers.len() == 5);
            assert!(numbers.len() == numbers.iter().copied().collect::<HashSet<usize>>().len());
            println!("{:?}", numbers);
        }
        _ => println!("{:?}", random_result.logs()),
    }
}

#[test]
fn uc_seq_3() {
    //Create 5 numbers between 1 and 10 with no duplicates that has 1 nonsequential number and has 2 sequential sets of 2 numbers a piece
    let random_result = random_numbers(&Settings::new(
        vec![
            Rule::NoDuplicate(NoDuplicate {}),
            Rule::NumberRange(NumberRange::all(1, 10)),
            Rule::Sequential(Sequential::new(1, &[2, 2])),
        ],
        5,
    ));
    match random_result.numbers() {
        Ok(numbers) => {
            assert!(numbers.len() == 5);
            assert!(numbers.len() == numbers.iter().copied().collect::<HashSet<usize>>().len());
            println!("{:?}", numbers);
        }
        _ => println!("{:?}", random_result.logs()),
    }
}

#[test]
fn uc_random_string_1() {
    //Create a random 20 character string with no special characters
    let random_result = random_numbers(&Settings::new(
        vec![Rule::NumberPool(NumberPool::alphanumeric(20, false, &DefaultRandom {}))],
        20,
    ));
    match random_result.string(true, &DefaultRandom {}) {
        Ok(s) => {
            assert!(s.len() == 20);
            println!("{}", s)
        }
        _ => println!("{:?}", random_result.logs()),
    }
}

#[test]
fn uc_random_string_2() {
    //Create a random 22 character string with special characters
    let random_result = random_numbers(&Settings::new(
        vec![Rule::NumberPool(NumberPool::alphanumeric(20, true, &DefaultRandom {}))],
        20,
    ));
    match random_result.string(true, &DefaultRandom {}) {
        Ok(s) => {
            assert!(s.len() == 20);
            println!("{}", s)
        }
        _ => println!("{:?}", random_result.logs()),
    }
}

fn count_kinds(s: &str) -> (usize, usize, usize) {
    let mut number_count = 0;
    let mut char_count = 0;
    let mut special_char_count = 0;
    for c in s.chars() {
        if c.is_numeric() {
            number_count += 1;
        } else if np_special_char_set().contains(&c) {
            special_char_count += 1;
        } else if np_alphabet_set().contains(&c) {
            char_count += 1;
        }
    }
    (number_count, char_count, special_char_count)
}

#[test]
fn uc_random_string_3() {
    //Create a random 20 character string with 10 letters, 10 numbers, no special characters, and no duplicates
    let random_result = random_numbers(&Settings::new(
        vec![
            Rule::NoDuplicate(NoDuplicate {}),
            Rule::NumberPool(NumberPool::alphanumeric_specs(10, 10, 0)),
        ],
        20,
    ));
    match random_result.string(true, &DefaultRandom {}) {
        Ok(s) => {
            assert!(s.len() == 20);
            assert!(s.len() == s.chars().collect::<HashSet<char>>().len());
            let (number_count, char_count, special_char_count) = count_kinds(&s);
            assert_eq!(10, number_count);
            assert_eq!(10, char_count);
            assert_eq!(0, special_char_count);
            println!("{}", s)
        }
        _ => println!("{:?}", random_result.logs()),
    }
}

#[test]
fn uc_random_string_4() {
    //Create a random 25 character string with 10 letters, 10 numbers, and 5 special characters and not duplicates
    let random_result = random_numbers(&Settings::new(
        vec![
            Rule::NoDuplicate(NoDuplicate {}),
            Rule::NumberPool(NumberPool::alphanumeric_specs(10, 10, 5)),
        ],
        25,
    ));
    match random_result.string(true, &DefaultRandom {}) {
        Ok(s) => {
            assert!(s.len() == 25);
            assert!(s.len() == s.chars().collect::<HashSet<char>>().len());
            let (number_count, char_count, special_char_count) = count_kinds(&s);
            assert_eq!(10, number_count);
            assert_eq!(10, char_count);
            assert_eq!(5, special_char_count);
            println!("{}", s)
        }
        _ => println!("{:?}", random_result.logs()),
    }
}

#[test]
fn uc_random_string_5() {
    //Create random 15 character string from upper case characters, from numbers 3 6 5, and from special characters # *
    let random_result = random_numbers(&Settings::new(
        vec![Rule::NumberPool(NumberPool::new(&[
            NumberPoolItem::new(
                "upper_case_alpha_set",
                &PoolType::new(&"ABCDEFGHIJKLMNOPQRSTUVWXYZ".chars().collect()),
                11,
            ),
            NumberPoolItem::new("numeric_set", &PoolType::new(&"365".chars().collect()), 2),
            NumberPoolItem::new("special_char_set", &PoolType::new(&"#*".chars().collect()), 2),
        ]))],
        15,
    ));
    match random_result.string(true, &DefaultRandom {}) {
        Ok(s) => {
            assert!(s.len() == 15);
            let (number_count, char_count, special_char_count) = count_kinds(&s);
            assert_eq!(2, number_count);
            assert_eq!(11, char_count);
            assert_eq!(2, special_char_count);
            println!("{}", s)
        }
        _ => println!("{:?}", random_result.logs()),
    }
}

#[test]
fn uc_random_string_6() {
    //Create random license number that starts with 2 apha-characters followed by 7 numeric characters. Also excludes "AB1234567" and "CB1234567" because they are already assigned to someone.
    let uc_alpha_set: HashSet<char> = "ABCDEFGHIJKLMNOPQRSTUVWXYZ".chars().collect();
    let uc_alpha_list: Vec<char> = uc_alpha_set.iter().copied().collect();
    let random_result = random_numbers(&Settings::new(
        vec![
            Rule::ExcludeNumberSets(ExcludeNumberSets::new_string(&vec![
                String::from("AB1234567"),
                String::from("CB1234567"),
            ])),
            Rule::NumberPoolByIndex(NumberPoolByIndex::new(vec![
                NumberPoolItemByIndex::new(
                    "upper_case_alpha_set",
                    &PoolType::new(&uc_alpha_list),
                    &HashSet::from_iter(vec![0, 1]),
                ),
                NumberPoolItemByIndex::new(
                    "numeric_set",
                    &PoolType::new(&"1234567890".chars().collect()),
                    &HashSet::from_iter(vec![2, 3, 4, 5, 6, 7, 8]),
                ),
            ])),
        ],
        9,
    ));
    match random_result.string(false, &DefaultRandom {}) {
        Ok(s) => {
            assert!(s.len() == 9);
            let mut chars = s.chars();
            assert!(uc_alpha_set.contains(&chars.next().unwrap()));
            assert!(uc_alpha_set.contains(&chars.next().unwrap()));
            assert!(chars.next().unwrap().is_numeric());
            assert!(chars.next().unwrap().is_numeric());
            assert!(chars.next().unwrap().is_numeric());
            assert!(chars.next().unwrap().is_numeric());
            assert!(chars.next().unwrap().is_numeric());
            assert!(chars.next().unwrap().is_numeric());
            assert!(chars.next().unwrap().is_numeric());
            assert!(s != "AB1234567");
            assert!(s != "CB1234567");
            println!("{}", s)
        }
        _ => println!("{:?}", random_result.logs()),
    }
}

fn check_spaces(number_space_type: NumberSpaceType, holds: fn(usize) -> bool) {
    let random_result = random_numbers(&Settings::new(
        vec![
            Rule::NumberRange(NumberRange::all(1, 100)),
            Rule::NumberSpace(NumberSpace::new(&vec![NumberSpaceItem::new(
                &number_space_type,
                10,
            )])),
        ],
        10,
    ));
    match random_result.numbers() {
        Ok(numbers) => {
            let mut sorted_numbers: Vec<usize> = numbers.to_vec();
            sorted_numbers.sort_unstable();

            let mut i = 1;
            while i < sorted_numbers.len() {
                let num_space = sorted_numbers[i] - sorted_numbers[i - 1];
                assert!(
                    holds(num_space),
                    "i={}; sorted_numbers[i]={}; i-1={}; sorted_numbers[i-1]={}; num_space={}",
                    i,
                    sorted_numbers[i],
                    i - 1,
                    sorted_numbers[i - 1],
                    num_space
                );
                i += 1;
            }

            println!("{:?}", sorted_numbers);
        }
        _ => println!("{:?}", random_result.logs()),
    }
}

#[test]
fn uc_number_space_lt() {
    //Create 10 random numbers between 1 and 100 where the space between numbers is less than 3
    check_spaces(NumberSpaceType::Lt(3), |num_space| num_space < 3);
}

#[test]
fn uc_number_space_lte() {
    //Create 10 random numbers between 1 and 100 where the space between numbers is less than or equal to 3
    check_spaces(NumberSpaceType::Lte(3), |num_space| num_space <= 3);
}

#[test]
fn uc_number_space_equals() {
    //Create 10 random numbers between 1 and 100 where the space between numbers is 3
    check_spaces(NumberSpaceType::Eq(3), |num_space| num_space == 3);
}

#[test]
fn uc_number_space_gte() {
    //Create 10 random numbers between 1 and 100 where the space between numbers is greater than or equal to 3
    check_spaces(NumberSpaceType::Gte(3), |num_space| num_space >= 3);
}

#[test]
fn uc_number_space_gt() {
    //Create 10 random numbers between 1 and 100 where the space between numbers is greater than 3
    check_spaces(NumberSpaceType::Gt(3), |num_space| num_space > 3);
}

#[test]
fn uc_number_space_between() {
    //Create 10 random numbers between 1 and 100 where the space between numbers is between 3 and 6
    check_spaces(NumberSpaceType::Between(3, 6), |num_space| {
        num_space >= 3 && num_space <= 6
    });
}

#[test]
fn odd_even_with_order_2() {
    let random_result = random_numbers(&Settings::new(
        vec![Rule::OddEvenByIndex(OddEvenByIndex::new(
            &vec![0, 2, 4],
            &vec![1, 3],
        ))],
        5,
    ));
    match random_result.numbers() {
        Ok(s) => println!("{:?}", s),
        _ => println!("{:?}", random_result.logs()),
    }
}
