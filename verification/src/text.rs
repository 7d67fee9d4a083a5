//! Integers as decimal text: reading them from the upstream API and from
//! query parameters, and writing them into query filters.

use vstd::prelude::*;

verus! {

/// Whether a character is one of the ten decimal digits.
pub open spec fn is_digit(c: char) -> bool {
    '0' <= c <= '9'
}

/// Whether a text consists of decimal digits, at least one.
pub open spec fn all_digits(text: Seq<char>) -> bool {
    text.len() > 0 && forall|i: int| 0 <= i < text.len() ==> is_digit(#[trigger] text[i])
}

/// The number that a run of decimal digits denotes.
pub open spec fn digits_value(text: Seq<char>) -> int
    decreases text.len(),
{
    if text.len() == 0 {
        0
    } else {
        digits_value(text.drop_last()) * 10 + (text.last() as int - '0' as int)
    }
}

/// The number that a text denotes: decimal digits, with `+` or `-` before
/// them or without a sign, and nothing else.
pub open spec fn signed_value(text: Seq<char>) -> Option<int> {
    if text.len() > 0 && text[0] == '-' {
        if all_digits(text.drop_first()) {
            Some(-digits_value(text.drop_first()))
        } else {
            None
        }
    } else if text.len() > 0 && text[0] == '+' {
        if all_digits(text.drop_first()) {
            Some(digits_value(text.drop_first()))
        } else {
            None
        }
    } else if all_digits(text) {
        Some(digits_value(text))
    } else {
        None
    }
}

/// The integer that a text denotes, if it denotes one that `i64` holds.
pub open spec fn parsed_integer(text: Seq<char>) -> Option<i64> {
    match signed_value(text) {
        Some(value) => if i64::MIN <= value <= i64::MAX {
            Some(value as i64)
        } else {
            None
        },
        None => None,
    }
}

/// The text that formatting an `i64` with `{}` writes.
pub uninterp spec fn decimal_text(value: i64) -> Seq<char>;

/// Calls `str::parse::<i64>` and drops the kind of error.
///
/// Trusted: the standard library accepts an optional `+` or `-` followed by
/// decimal digits only, at least one, and gives the integer they denote; an
/// empty text, any other character and an integer beyond `i64` are errors.
#[verifier::external_body]
pub(crate) fn parse_integer(text: &str) -> (value: Option<i64>)
    ensures
        value == parsed_integer(text@),
{
    text.parse::<i64>().ok()
}

/// Formats an `i64` with `{}`.
///
/// Trusted: the text depends on the value alone, so it is named
/// `decimal_text` of the value. Nothing is claimed of its characters.
#[verifier::external_body]
pub(crate) fn format_integer(value: i64) -> (text: String)
    ensures
        text@ == decimal_text(value),
{
    format!("{}", value)
}

/// The value of a field that was read, zero where the text was malformed.
pub open spec fn value_or_zero(parsed: Option<i64>) -> i64 {
    match parsed {
        Some(value) => value,
        None => 0,
    }
}

/// The value of a 32-bit field that was read, zero where the text was
/// malformed or the integer does not fit.
pub open spec fn small_value_or_zero(parsed: Option<i64>) -> i32 {
    match parsed {
        Some(value) => if i32::MIN <= value <= i32::MAX {
            value as i32
        } else {
            0
        },
        None => 0,
    }
}

/// Takes what was read of a numeric field, with zero for a malformed one.
pub fn or_zero(parsed: Option<i64>) -> (value: i64)
    ensures
        value == value_or_zero(parsed),
{
    match parsed {
        Some(value) => value,
        None => 0,
    }
}

/// Takes what was read of a 32-bit numeric field, with zero for a malformed
/// one and for an integer beyond 32 bits.
pub fn small_or_zero(parsed: Option<i64>) -> (value: i32)
    ensures
        value == small_value_or_zero(parsed),
{
    match parsed {
        Some(value) => {
            if value >= -2147483648 && value <= 2147483647 {
                value as i32
            } else {
                0
            }
        },
        None => 0,
    }
}

/// Reads a numeric field of the upstream API: a decimal integer in text, zero
/// where the text is malformed.
pub fn integer_or_zero(text: &str) -> (value: i64)
    ensures
        value == value_or_zero(parsed_integer(text@)),
{
    or_zero(parse_integer(text))
}

/// Reads a 32-bit numeric field of the upstream API, zero where the text is
/// malformed or the integer does not fit.
pub fn small_integer_or_zero(text: &str) -> (value: i32)
    ensures
        value == small_value_or_zero(parsed_integer(text@)),
{
    small_or_zero(parse_integer(text))
}

/// Whether two texts hold the same characters.
pub fn same_text(left: &str, right: &str) -> (same: bool)
    ensures
        same == (left@ == right@),
{
    let a: String = left.to_owned();
    let b: String = right.to_owned();
    a == b
}

} // verus!
