//! Decoding a `YYYY-MM-DD HH:MM:SS` span into six numbers and an ordinal.
//!
//! Only the fourteen digit positions of the layout are read. The characters
//! between them are never looked at, and a character that is no digit is
//! not rejected: it contributes whatever [`crate::digits::digit_value`] makes
//! of it.
use vstd::prelude::*;
use crate::calendar::{
    days_before_month, days_in_month, lemma_days_before_month_bound,
    lemma_days_before_month_ordered, DayTable,
};
use crate::digits::{
    decimal_value, digit_at, digit_or_zero, is_decimal, lemma_digit_value_of_decimal,
};

verus! {

/// Number of characters in a complete timestamp.
pub const TIMESTAMP_LEN: usize = 19;

/// The number written by the two digits at `pos` and `pos + 1`.
pub open spec fn two_digits(span: Seq<char>, pos: int) -> nat {
    digit_at(span, pos) * 10 + digit_at(span, pos + 1)
}

/// The year: the four digits at positions 0 to 3.
pub open spec fn span_year(span: Seq<char>) -> nat {
    digit_at(span, 0) * 1000 + digit_at(span, 1) * 100 + digit_at(span, 2) * 10 + digit_at(
        span,
        3,
    )
}

/// The month: the digits at positions 5 and 6.
pub open spec fn span_month(span: Seq<char>) -> nat {
    two_digits(span, 5)
}

/// The day of the month: the digits at positions 8 and 9.
pub open spec fn span_day(span: Seq<char>) -> nat {
    two_digits(span, 8)
}

/// The hour: the digits at positions 11 and 12.
pub open spec fn span_hour(span: Seq<char>) -> nat {
    two_digits(span, 11)
}

/// The minute: the digits at positions 14 and 15.
pub open spec fn span_minute(span: Seq<char>) -> nat {
    two_digits(span, 14)
}

/// The second: the digits at positions 17 and 18.
pub open spec fn span_second(span: Seq<char>) -> nat {
    two_digits(span, 17)
}

/// The ordinal of six timestamp fields under a month table.
///
/// A year is worth 365 blocks of 31 days, far more than it lasts. That
/// keeps the ordinals of different years well apart, and it makes the
/// ordinal a relative measure: the difference of two ordinals of one file
/// counts seconds, while a single ordinal is no calendar time.
pub open spec fn ordinal_of(
    table: DayTable,
    year: nat,
    month: nat,
    day: nat,
    hour: nat,
    minute: nat,
    second: nat,
) -> nat {
    year * 365 * 31 * 24 * 60 * 60 + days_before_month(table, month) * 24 * 60 * 60 + day * 24
        * 60 * 60 + hour * 60 * 60 + minute * 60 + second
}

/// The ordinal of the timestamp written in `span`, under a month table.
///
/// Proofs about scanning compare ordinals without looking into them, so the
/// body is opaque; `reveal(span_ordinal)` brings the formula in.
#[verifier::opaque]
pub open spec fn span_ordinal(span: Seq<char>, table: DayTable) -> nat {
    ordinal_of(
        table,
        span_year(span),
        span_month(span),
        span_day(span),
        span_hour(span),
        span_minute(span),
        span_second(span),
    )
}

/// Whether `pos` is one of the fourteen positions that decoding reads.
pub open spec fn is_digit_position(pos: int) -> bool {
    pos == 0 || pos == 1 || pos == 2 || pos == 3 || pos == 5 || pos == 6 || pos == 8 || pos == 9
        || pos == 11 || pos == 12 || pos == 14 || pos == 15 || pos == 17 || pos == 18
}

/// Whether `span` holds a decimal digit at every position that decoding
/// reads.
pub open spec fn has_digits(span: Seq<char>) -> bool {
    &&& span.len() >= TIMESTAMP_LEN
    &&& forall|pos: int| is_digit_position(pos) ==> is_decimal(#[trigger] span[pos])
}

/// Whether the fields of `span` name a month of the year, a day of that
/// month under `table`, and a time of day.
pub open spec fn is_calendar_time(span: Seq<char>, table: DayTable) -> bool {
    &&& 1 <= span_month(span) <= 12
    &&& 1 <= span_day(span) <= days_in_month(table, span_month(span))
    &&& span_hour(span) < 24
    &&& span_minute(span) < 60
    &&& span_second(span) < 60
}

/// Whether `a` names an earlier moment of the year than `b`: the fields from
/// month to second, compared in that order.
pub open spec fn earlier_in_year(a: Seq<char>, b: Seq<char>) -> bool {
    ||| span_month(a) < span_month(b)
    ||| span_month(a) == span_month(b) && span_day(a) < span_day(b)
    ||| span_month(a) == span_month(b) && span_day(a) == span_day(b) && span_hour(a) < span_hour(
        b,
    )
    ||| span_month(a) == span_month(b) && span_day(a) == span_day(b) && span_hour(a) == span_hour(
        b,
    ) && span_minute(a) < span_minute(b)
    ||| span_month(a) == span_month(b) && span_day(a) == span_day(b) && span_hour(a) == span_hour(
        b,
    ) && span_minute(a) == span_minute(b) && span_second(a) < span_second(b)
}

/// Decoding reads the digits as written: where the digit positions of
/// `span` hold decimal digits, each field is the decimal number that its
/// digits spell.
pub proof fn lemma_fields_are_written_digits(span: Seq<char>)
    requires
        has_digits(span),
    ensures
        span_year(span) == decimal_value(span[0]) * 1000 + decimal_value(span[1]) * 100
            + decimal_value(span[2]) * 10 + decimal_value(span[3]),
        span_month(span) == decimal_value(span[5]) * 10 + decimal_value(span[6]),
        span_day(span) == decimal_value(span[8]) * 10 + decimal_value(span[9]),
        span_hour(span) == decimal_value(span[11]) * 10 + decimal_value(span[12]),
        span_minute(span) == decimal_value(span[14]) * 10 + decimal_value(span[15]),
        span_second(span) == decimal_value(span[17]) * 10 + decimal_value(span[18]),
        span_year(span) <= 9999,
        span_month(span) <= 99,
        span_day(span) <= 99,
        span_hour(span) <= 99,
        span_minute(span) <= 99,
        span_second(span) <= 99,
{
    lemma_digit_value_of_decimal(span[0]);
    lemma_digit_value_of_decimal(span[1]);
    lemma_digit_value_of_decimal(span[2]);
    lemma_digit_value_of_decimal(span[3]);
    lemma_digit_value_of_decimal(span[5]);
    lemma_digit_value_of_decimal(span[6]);
    lemma_digit_value_of_decimal(span[8]);
    lemma_digit_value_of_decimal(span[9]);
    lemma_digit_value_of_decimal(span[11]);
    lemma_digit_value_of_decimal(span[12]);
    lemma_digit_value_of_decimal(span[14]);
    lemma_digit_value_of_decimal(span[15]);
    lemma_digit_value_of_decimal(span[17]);
    lemma_digit_value_of_decimal(span[18]);
}

/// Decoding does not depend on the separators: two spans that agree at the
/// fourteen digit positions decode to the same fields and the same ordinal,
/// whatever stands at their other positions.
pub proof fn lemma_decoding_ignores_separators(a: Seq<char>, b: Seq<char>, table: DayTable)
    requires
        a.len() >= TIMESTAMP_LEN,
        b.len() >= TIMESTAMP_LEN,
        forall|pos: int| is_digit_position(pos) ==> #[trigger] a[pos] == b[pos],
    ensures
        span_year(a) == span_year(b),
        span_month(a) == span_month(b),
        span_day(a) == span_day(b),
        span_hour(a) == span_hour(b),
        span_minute(a) == span_minute(b),
        span_second(a) == span_second(b),
        span_ordinal(a, table) == span_ordinal(b, table),
{
    reveal(span_ordinal);
}

/// Within one year the ordinal grows with time: of two calendar times of
/// the same year, decoded under one table in whose calendar both exist, the
/// earlier has the smaller ordinal. This holds in particular under the table
/// of their own year.
pub proof fn lemma_ordinal_grows_within_year(a: Seq<char>, b: Seq<char>, table: DayTable)
    requires
        span_year(a) == span_year(b),
        is_calendar_time(a, table),
        is_calendar_time(b, table),
        earlier_in_year(a, b),
    ensures
        span_ordinal(a, table) < span_ordinal(b, table),
{
    reveal(span_ordinal);
    if span_month(a) < span_month(b) {
        lemma_days_before_month_ordered(table, span_month(a), span_month(b));
    }
}

/// Years stay apart: a timestamp written in digits has a smaller ordinal
/// than any timestamp of a later year, under either table.
pub proof fn lemma_ordinal_grows_across_years(a: Seq<char>, b: Seq<char>, table: DayTable)
    requires
        has_digits(a),
        span_year(a) < span_year(b),
    ensures
        span_ordinal(a, table) < span_ordinal(b, table),
{
    reveal(span_ordinal);
    lemma_fields_are_written_digits(a);
    lemma_days_before_month_bound(table, span_month(a));
}

/// The six numbers read from a timestamp, and the ordinal derived from them.
#[derive(Clone, Copy, Debug, PartialEq, Eq, Structural)]
pub struct ParsedTimestamp {
    pub year: u32,
    pub month: u32,
    pub day: u32,
    pub hour: u32,
    pub minute: u32,
    pub second: u32,
    pub ordinal: u64,
}

impl ParsedTimestamp {
    /// Whether this value is what `span` decodes to under `table`.
    pub open spec fn decodes(self, span: Seq<char>, table: DayTable) -> bool {
        &&& self.year == span_year(span)
        &&& self.month == span_month(span)
        &&& self.day == span_day(span)
        &&& self.hour == span_hour(span)
        &&& self.minute == span_minute(span)
        &&& self.second == span_second(span)
        &&& self.ordinal == span_ordinal(span, table)
    }
}

/// Reads the two-digit number at `pos` of `span`.
fn read_two_digits(span: &str, pos: usize) -> (n: u32)
    requires
        pos < 100,
    ensures
        n == two_digits(span@, pos as int),
        n <= 2805,
{
    digit_or_zero(span, pos) * 10 + digit_or_zero(span, pos + 1)
}

/// Reads the year that `span` opens with.
pub fn read_year(span: &str) -> (year: u32)
    ensures
        year == span_year(span@),
        year <= 283305,
{
    let mut year: u32 = digit_or_zero(span, 0) * 1000;
    year += digit_or_zero(span, 1) * 100;
    year += digit_or_zero(span, 2) * 10;
    year += digit_or_zero(span, 3);
    year
}

/// Decodes the timestamp in `span` into its fields and its ordinal.
///
/// There is no failure: positions past the end of `span` read as the digit
/// 0, and a month outside 1 to 12 counts no days before it.
pub fn parse_timestamp(span: &str, table: DayTable) -> (ts: ParsedTimestamp)
    ensures
        ts.decodes(span@, table),
{
    let year = read_year(span);
    let month = read_two_digits(span, 5);
    let day = read_two_digits(span, 8);
    let hour = read_two_digits(span, 11);
    let minute = read_two_digits(span, 14);
    let second = read_two_digits(span, 17);
    let days_before: u64 = table.days_before_month(month) as u64;
    proof {
        reveal(span_ordinal);
    }
    let mut ordinal: u64 = (year as u64 * 365 * 31 * 24 * 60 * 60) + (days_before * 24 * 60 * 60);
    ordinal += (day as u64 * 24 * 60 * 60) + (hour as u64 * 60 * 60) + (minute as u64 * 60)
        + second as u64;
    ParsedTimestamp { year, month, day, hour, minute, second, ordinal }
}

/// Decodes the timestamp in `span` to its ordinal under `table`.
pub fn decode_timestamp(span: &str, table: DayTable) -> (ordinal: u64)
    ensures
        ordinal == span_ordinal(span@, table),
{
    parse_timestamp(span, table).ordinal
}

} // verus!
