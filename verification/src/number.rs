//! Decimal numerals.

use vstd::prelude::*;
use crate::text::chars_of;

verus! {

/// One of the characters `0` to `9`.
pub open spec fn is_digit(c: char) -> bool {
    '0' <= c <= '9'
}

/// The number that a digit stands for.
pub open spec fn digit_value(c: char) -> nat
    recommends
        is_digit(c),
{
    (c as u32 - '0' as u32) as nat
}

/// Every character is a digit.
pub open spec fn all_digits(text: Seq<char>) -> bool {
    forall|i: int| 0 <= i < text.len() ==> is_digit(#[trigger] text[i])
}

/// The number that a sequence of digits denotes in base ten; zero for the
/// empty sequence.
pub open spec fn decimal_value(digits: Seq<char>) -> nat
    decreases digits.len(),
{
    if digits.len() == 0 {
        0
    } else {
        10 * decimal_value(digits.drop_last()) + digit_value(digits.last())
    }
}

/// The text without a plus sign at its head.
pub open spec fn without_sign(text: Seq<char>) -> Seq<char> {
    if text.len() > 0 && text[0] == '+' {
        text.skip(1)
    } else {
        text
    }
}

/// The unsigned machine integer that `text` denotes: an optional plus sign
/// followed by at least one digit and nothing else, with a value that fits.
/// Blanks, a minus sign, separators and other scripts' digits are no part of
/// a numeral.
pub open spec fn spec_parse_usize(text: Seq<char>) -> Option<usize> {
    let digits = without_sign(text);
    if digits.len() > 0 && all_digits(digits) && decimal_value(digits) <= usize::MAX {
        Some(decimal_value(digits) as usize)
    } else {
        None
    }
}

/// A numeral denotes at least what any of its heads denotes.
pub proof fn lemma_decimal_value_grows(digits: Seq<char>, k: int)
    requires
        0 <= k <= digits.len(),
    ensures
        decimal_value(digits.take(k)) <= decimal_value(digits),
    decreases digits.len() - k,
{
    if k == digits.len() {
        assert(digits.take(k) =~= digits);
    } else {
        lemma_decimal_value_grows(digits.drop_last(), k);
        assert(digits.drop_last().take(k) =~= digits.take(k));
    }
}

/// The unsigned machine integer that `text` denotes, if it denotes one.
pub fn parse_usize(text: &str) -> (parsed: Option<usize>)
    ensures
        parsed == spec_parse_usize(text@),
{
    let chars = chars_of(text);
    let first: usize = if chars.len() > 0 && chars[0] == '+' {
        1
    } else {
        0
    };
    let ghost digits = without_sign(text@);
    if chars.len() == first {
        return None;
    }
    let mut value: usize = 0;
    for i in first..chars.len()
        invariant
            first <= 1,
            first <= chars.len(),
            chars@ == text@,
            digits == without_sign(text@),
            digits == chars@.skip(first as int),
            all_digits(digits.take(i - first)),
            value == decimal_value(digits.take(i - first)),
    {
        let c = chars[i];
        let ghost head = digits.take(i - first + 1);
        proof {
            assert(digits[i - first] == c);
            assert(head.drop_last() =~= digits.take(i - first));
            assert(head.last() == c);
            lemma_decimal_value_grows(digits, i - first + 1);
        }
        if c < '0' || c > '9' {
            return None;
        }
        let digit: usize = (c as u32 - '0' as u32) as usize;
        let scaled = match value.checked_mul(10) {
            Some(scaled) => scaled,
            None => return None,
        };
        value = match scaled.checked_add(digit) {
            Some(sum) => sum,
            None => return None,
        };
        proof {
            assert forall|j: int| 0 <= j < head.len() implies is_digit(#[trigger] head[j]) by {
                if j < head.len() - 1 {
                    assert(head[j] == digits.take(i - first)[j]);
                }
            }
        }
    }
    proof {
        assert(digits.take(chars.len() - first) =~= digits);
    }
    Some(value)
}

} // verus!
