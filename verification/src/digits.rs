//! Reading single decimal digits at fixed positions of a character span.
use vstd::prelude::*;
use vstd::string::StrSliceExecFns;

verus! {

/// The number a character stands for when it is read as a decimal digit:
/// the low eight bits of its code, less the code of `'0'`, wrapping within
/// eight bits. For `'0'..='9'` this is `0..=9`; any other character still
/// yields a definite number below 256.
pub open spec fn digit_value(c: char) -> nat {
    (((c as int) - 48) % 256) as nat
}

/// Whether `c` is one of the decimal digits `'0'` to `'9'`.
pub open spec fn is_decimal(c: char) -> bool {
    '0' <= c <= '9'
}

/// The number that a decimal digit writes.
pub open spec fn decimal_value(c: char) -> nat
    recommends
        is_decimal(c),
{
    (c as int - '0' as int) as nat
}

/// On decimal digits, [`digit_value`] is the number that the digit writes.
pub proof fn lemma_digit_value_of_decimal(c: char)
    requires
        is_decimal(c),
    ensures
        digit_value(c) == decimal_value(c),
        digit_value(c) <= 9,
{
}

/// The digit at position `pos` of `span`, or `None` past its end.
pub open spec fn digit_at_opt(span: Seq<char>, pos: int) -> Option<nat> {
    if 0 <= pos < span.len() {
        Some(digit_value(span[pos]))
    } else {
        None
    }
}

/// The digit at position `pos` of `span`, with `0` standing in for a
/// position past its end.
pub open spec fn digit_at(span: Seq<char>, pos: int) -> nat {
    match digit_at_opt(span, pos) {
        Some(d) => d,
        None => 0,
    }
}

/// Computes [`digit_value`] of one character.
pub fn char_digit(c: char) -> (d: u32)
    ensures
        d == digit_value(c),
{
    let low: u8 = ((c as u32) % 256) as u8;
    let d: u8 = low.wrapping_sub(48u8);
    d as u32
}

/// Reads the digit at character position `digit_pos` of `string_val`.
pub fn get_number_digit_val_from_string(string_val: &str, digit_pos: usize) -> (r: Option<u32>)
    ensures
        r.is_some() == (digit_pos < string_val@.len()),
        r.is_some() ==> r.unwrap() == digit_value(string_val@[digit_pos as int]),
        r.is_some() ==> r.unwrap() <= 255,
{
    if digit_pos < string_val.unicode_len() {
        Some(char_digit(string_val.get_char(digit_pos)))
    } else {
        None
    }
}

/// Reads the digit at character position `pos` of `span`, taking a position
/// past the end of `span` as the digit 0.
pub fn digit_or_zero(span: &str, pos: usize) -> (d: u32)
    ensures
        d == digit_at(span@, pos as int),
        d <= 255,
{
    match get_number_digit_val_from_string(span, pos) {
        Some(d) => d,
        None => 0,
    }
}

} // verus!
