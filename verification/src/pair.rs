//! Reading a pair of numbers such as `80x40`.
//!
//! A number is written as an optional plus sign and one or more decimal
//! digits, and has to fit in 32 bits. A pair is two numbers with a separator
//! between them; the first separator of the text parts the two.

use vstd::prelude::*;

verus! {

/// Whether `c` is one of the ten decimal digits.
pub open spec fn is_digit(c: char) -> bool {
    '0' <= c <= '9'
}

/// The value of a decimal digit.
pub open spec fn digit_value(c: char) -> nat
    recommends
        is_digit(c),
{
    (c as int - '0' as int) as nat
}

/// Whether `digits` holds decimal digits only.
pub open spec fn all_digits(digits: Seq<char>) -> bool {
    forall|i: int| 0 <= i < digits.len() ==> is_digit(#[trigger] digits[i])
}

/// The number that a sequence of decimal digits denotes.
pub open spec fn decimal_value(digits: Seq<char>) -> nat
    decreases digits.len(),
{
    if digits.len() == 0 {
        0
    } else {
        decimal_value(digits.drop_last()) * 10 + digit_value(digits.last())
    }
}

/// The digits of a number: the text without the plus sign that may stand in
/// front of them.
pub open spec fn unsigned_part(text: Seq<char>) -> Seq<char> {
    if text.len() > 0 && text[0] == '+' {
        text.skip(1)
    } else {
        text
    }
}

/// The number that `text` denotes, if it denotes one that fits in 32 bits.
pub open spec fn number_of(text: Seq<char>) -> Option<u32> {
    let digits = unsigned_part(text);
    if digits.len() > 0 && all_digits(digits) && decimal_value(digits) <= u32::MAX {
        Some(decimal_value(digits) as u32)
    } else {
        None
    }
}

/// Whether the first `c` of `text` stands at position `index`.
pub open spec fn is_first_at(text: Seq<char>, c: char, index: int) -> bool {
    &&& 0 <= index < text.len()
    &&& text[index] == c
    &&& forall|j: int| 0 <= j < index ==> text[j] != c
}

/// The position of the first `c` of a text that holds one.
pub open spec fn first_index(text: Seq<char>, c: char) -> int
    recommends
        text.contains(c),
{
    choose|index: int| is_first_at(text, c, index)
}

/// The pair of numbers that `text` denotes: the number before its first
/// separator and the number after it. There is none where the text has no
/// separator, or where either side denotes no number.
pub open spec fn pair_of(text: Seq<char>, separator: char) -> Option<(u32, u32)> {
    if text.contains(separator) {
        let index = first_index(text, separator);
        match (number_of(text.take(index)), number_of(text.skip(index + 1))) {
            (Some(left), Some(right)) => Some((left, right)),
            _ => None,
        }
    } else {
        None
    }
}

/// The first `c` of a text stands at one position only.
pub proof fn lemma_first_index_unique(text: Seq<char>, c: char, index: int)
    requires
        is_first_at(text, c, index),
    ensures
        text.contains(c),
        first_index(text, c) == index,
{
    let chosen = first_index(text, c);
    assert(is_first_at(text, c, chosen));
    if chosen < index {
        assert(text[chosen] != c);
    } else if index < chosen {
        assert(text[index] != c);
    }
}

/// More digits never denote a smaller number.
pub proof fn lemma_decimal_value_grows(digits: Seq<char>, shorter: int)
    requires
        0 <= shorter <= digits.len(),
    ensures
        decimal_value(digits.take(shorter)) <= decimal_value(digits),
    decreases digits.len(),
{
    if shorter < digits.len() {
        lemma_decimal_value_grows(digits.drop_last(), shorter);
        assert(digits.drop_last().take(shorter) =~= digits.take(shorter));
    } else {
        assert(digits.take(shorter) =~= digits);
    }
}

/// The characters of `text`, in order.
pub fn chars_of(text: &str) -> (chars: Vec<char>)
    ensures
        chars@ == text@,
{
    let mut chars: Vec<char> = Vec::new();
    for c in iter: text.chars()
        invariant
            iter.seq() == text@,
            chars@ == iter.seq().take(iter.index() as int),
    {
        chars.push(c);
        assert(chars@ =~= iter.seq().take(iter.index() + 1));
    }
    assert(chars@ =~= text@);
    chars
}

/// Finds the first `c` of `text`.
pub fn find_first(text: &Vec<char>, c: char) -> (found: Option<usize>)
    ensures
        found matches Some(index) ==> is_first_at(text@, c, index as int),
        found is None ==> !text@.contains(c),
{
    let mut index: usize = 0;
    while index < text.len()
        invariant
            index <= text.len(),
            forall|j: int| 0 <= j < index ==> text@[j] != c,
        decreases text.len() - index,
    {
        if text[index] == c {
            return Some(index);
        }
        index = index + 1;
    }
    None
}

/// Reads the number that the characters of `text` from position `start` up
/// to, not including, position `end` denote.
pub fn parse_number(text: &Vec<char>, start: usize, end: usize) -> (number: Option<u32>)
    requires
        start <= end <= text@.len(),
    ensures
        number == number_of(text@.subrange(start as int, end as int)),
{
    let ghost whole = text@.subrange(start as int, end as int);
    let mut index: usize = start;
    if index < end && text[index] == '+' {
        index = index + 1;
    }
    let first: usize = index;
    let ghost digits = text@.subrange(first as int, end as int);
    assert(digits =~= unsigned_part(whole));
    if index == end {
        return None;
    }
    let mut value: u64 = 0;
    assert(digits.take(0) =~= Seq::<char>::empty());
    while index < end
        invariant
            start <= first <= index <= end <= text@.len(),
            whole == text@.subrange(start as int, end as int),
            digits == text@.subrange(first as int, end as int),
            digits == unsigned_part(whole),
            all_digits(digits.take(index - first)),
            value == decimal_value(digits.take(index - first)),
            value <= u32::MAX,
        decreases end - index,
    {
        let c: char = text[index];
        assert(c == digits[index - first]);
        if c < '0' || c > '9' {
            return None;
        }
        let digit: u64 = (c as u32 - '0' as u32) as u64;
        let ghost longer = digits.take(index - first + 1);
        assert(longer.drop_last() =~= digits.take(index - first));
        assert(longer.last() == c);
        value = value * 10 + digit;
        if value > u32::MAX as u64 {
            proof {
                lemma_decimal_value_grows(digits, index - first + 1);
            }
            return None;
        }
        assert(all_digits(longer)) by {
            assert forall|i: int| 0 <= i < longer.len() implies is_digit(#[trigger] longer[i]) by {
                if i < index - first {
                    assert(longer[i] == digits.take(index - first)[i]);
                }
            }
        }
        index = index + 1;
    }
    assert(digits.take(index - first) =~= digits);
    Some(value as u32)
}

/// Reads a pair of numbers with `separator` between them, such as `80x40`.
pub fn parse_pair(s: &str, separator: char) -> (pair: Option<(u32, u32)>)
    ensures
        pair == pair_of(s@, separator),
{
    let text = chars_of(s);
    match find_first(&text, separator) {
        None => None,
        Some(index) => {
            proof {
                lemma_first_index_unique(text@, separator, index as int);
                assert(text@.subrange(0, index as int) =~= text@.take(index as int));
                assert(text@.subrange(index + 1, text@.len() as int) =~= text@.skip(index + 1));
            }
            match (parse_number(&text, 0, index), parse_number(&text, index + 1, text.len())) {
                (Some(l), Some(r)) => Some((l, r)),
                _ => None,
            }
        },
    }
}

} // verus!
