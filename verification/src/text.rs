//! Decimal and list renderings used by messages and descriptions.

use vstd::prelude::*;
use vstd::string::*;

verus! {

/// The character that writes the digit `d`.
pub open spec fn digit_char(d: nat) -> char {
    if d == 0 {
        '0'
    } else if d == 1 {
        '1'
    } else if d == 2 {
        '2'
    } else if d == 3 {
        '3'
    } else if d == 4 {
        '4'
    } else if d == 5 {
        '5'
    } else if d == 6 {
        '6'
    } else if d == 7 {
        '7'
    } else if d == 8 {
        '8'
    } else {
        '9'
    }
}

/// The decimal numeral of `n`, most significant digit first, without
/// leading zeros.
pub open spec fn decimal(n: nat) -> Seq<char>
    decreases n,
{
    if n < 10 {
        seq![digit_char(n)]
    } else {
        decimal(n / 10).push(digit_char(n % 10))
    }
}

/// The items of `s` in decimal, each one but the first preceded by `", "`.
pub open spec fn joined(s: Seq<usize>) -> Seq<char>
    decreases s.len(),
{
    if s.len() == 0 {
        Seq::empty()
    } else if s.len() == 1 {
        decimal(s[0] as nat)
    } else {
        joined(s.drop_last()) + seq![',', ' '] + decimal(s.last() as nat)
    }
}

/// A list of numbers as `[1, 2, 3]`.
pub open spec fn list_text(s: Seq<usize>) -> Seq<char> {
    seq!['['] + joined(s) + seq![']']
}

/// `true` or `false`, spelled out.
pub open spec fn bool_text(b: bool) -> Seq<char> {
    if b {
        seq!['t', 'r', 'u', 'e']
    } else {
        seq!['f', 'a', 'l', 's', 'e']
    }
}

fn digit_str(d: usize) -> (r: &'static str)
    requires
        d < 10,
    ensures
        r@ == seq![digit_char(d as nat)],
{
    proof {
        reveal_strlit("0");
        reveal_strlit("1");
        reveal_strlit("2");
        reveal_strlit("3");
        reveal_strlit("4");
        reveal_strlit("5");
        reveal_strlit("6");
        reveal_strlit("7");
        reveal_strlit("8");
        reveal_strlit("9");
    }
    let r = if d == 0 {
        "0"
    } else if d == 1 {
        "1"
    } else if d == 2 {
        "2"
    } else if d == 3 {
        "3"
    } else if d == 4 {
        "4"
    } else if d == 5 {
        "5"
    } else if d == 6 {
        "6"
    } else if d == 7 {
        "7"
    } else if d == 8 {
        "8"
    } else {
        "9"
    };
    assert(r@ =~= seq![digit_char(d as nat)]);
    r
}

/// Writes `n` in decimal.
pub fn usize_to_string(n: usize) -> (s: String)
    ensures
        s@ == decimal(n as nat),
    decreases n,
{
    if n < 10 {
        String::from_str(digit_str(n))
    } else {
        let mut s = usize_to_string(n / 10);
        s.append(digit_str(n % 10));
        assert(s@ =~= decimal((n / 10) as nat).push(digit_char((n % 10) as nat)));
        s
    }
}

/// Writes a list of numbers as `[1, 2, 3]`.
pub fn list_to_string(v: &Vec<usize>) -> (s: String)
    ensures
        s@ == list_text(v@),
{
    let mut s = String::from_str("[");
    let mut i: usize = 0;
    proof {
        reveal_strlit("[");
        reveal_strlit("]");
        reveal_strlit(", ");
        assert(s@ =~= seq!['['] + joined(v@.take(0)));
    }
    while i < v.len()
        invariant
            i <= v.len(),
            s@ == seq!['['] + joined(v@.take(i as int)),
            ", "@ == seq![',', ' '],
        decreases v.len() - i,
    {
        let d = usize_to_string(v[i]);
        proof {
            let p = v@.take(i as int);
            let q = v@.take(i + 1);
            assert(q.drop_last() =~= p);
            assert(q.last() == v@[i as int]);
        }
        if i > 0 {
            s.append(", ");
        }
        s.append(d.as_str());
        proof {
            let p = v@.take(i as int);
            let q = v@.take(i + 1);
            if i == 0 {
                assert(joined(p) =~= Seq::<char>::empty());
                assert(s@ =~= seq!['['] + joined(q));
            } else {
                assert(s@ =~= seq!['['] + joined(q));
            }
        }
        i += 1;
    }
    s.append("]");
    proof {
        assert(v@.take(v.len() as int) =~= v@);
        assert(s@ =~= list_text(v@));
    }
    s
}

/// Writes `true` or `false`.
pub fn bool_to_string(b: bool) -> (s: String)
    ensures
        s@ == bool_text(b),
{
    proof {
        reveal_strlit("true");
        reveal_strlit("false");
    }
    let s = if b {
        String::from_str("true")
    } else {
        String::from_str("false")
    };
    assert(s@ =~= bool_text(b));
    s
}

/// Whether `n` is the number of a character: a Unicode scalar value.
pub open spec fn is_char_code(n: usize) -> bool {
    n <= 0xD7FF || 0xE000 <= n <= 0x10FFFF
}

/// Calls `char::from_u32` of the standard library, which gives the character
/// with the number `n` where `n` is a Unicode scalar value, and nothing for
/// every other number.
#[verifier::external_body]
fn char_from_u32(n: usize) -> (r: Option<char>)
    requires
        n <= u32::MAX,
    ensures
        r is Some <==> is_char_code(n),
        r matches Some(c) ==> c as usize == n,
{
    char::from_u32(n as u32)
}

/// Calls `String::push` of the standard library, which appends the character
/// `c` to the text.
#[verifier::external_body]
fn push_char(s: &mut String, c: char)
    ensures
        final(s)@ == old(s)@.push(c),
{
    s.push(c);
}

/// The character with the number `n`, if there is one.
pub fn char_of(n: usize) -> (r: Option<char>)
    ensures
        r is Some <==> is_char_code(n),
        r matches Some(c) ==> c as usize == n,
{
    if n > 0x10FFFF {
        None
    } else {
        char_from_u32(n)
    }
}

/// The text whose characters have the numbers `numbers`, one for one; nothing
/// where one of them is the number of no character.
pub fn text_of(numbers: &Vec<usize>) -> (r: Option<String>)
    ensures
        r is Some <==> forall|i: int| 0 <= i < numbers@.len() ==> is_char_code(#[trigger] numbers@[i]),
        r matches Some(s) ==> s@.len() == numbers@.len() && forall|i: int|
            0 <= i < numbers@.len() ==> (#[trigger] s@[i]) as usize == numbers@[i],
{
    let mut s = String::new();
    let mut i: usize = 0;
    while i < numbers.len()
        invariant
            i <= numbers@.len(),
            s@.len() == i,
            forall|j: int| 0 <= j < i ==> is_char_code(#[trigger] numbers@[j]),
            forall|j: int| 0 <= j < i ==> (#[trigger] s@[j]) as usize == numbers@[j],
        decreases numbers@.len() - i,
    {
        match char_of(numbers[i]) {
            Some(c) => {
                push_char(&mut s, c);
            },
            None => {
                return None;
            },
        }
        i += 1;
    }
    Some(s)
}

/// Appends `n` in decimal.
pub fn push_number(s: &mut String, n: usize)
    ensures
        final(s)@ == old(s)@ + decimal(n as nat),
{
    let d = usize_to_string(n);
    s.append(d.as_str());
}

/// Appends a list of numbers as `[1, 2, 3]`.
pub fn push_list(s: &mut String, v: &Vec<usize>)
    ensures
        final(s)@ == old(s)@ + list_text(v@),
{
    let d = list_to_string(v);
    s.append(d.as_str());
}

/// Appends `true` or `false`.
pub fn push_bool(s: &mut String, b: bool)
    ensures
        final(s)@ == old(s)@ + bool_text(b),
{
    let d = bool_to_string(b);
    s.append(d.as_str());
}

} // verus!
