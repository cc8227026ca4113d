//! The leap-year rule and the two tables of days elapsed before each month.
use vstd::prelude::*;

verus! {

/// Days of a common year that lie before each month, January first.
pub const DAYS_BEFORE_MONTH: [u32; 12] = [0, 31, 59, 90, 120, 151, 181, 212, 243, 273, 304, 334];

/// Days of a leap year that lie before each month, January first.
pub const DAYS_BEFORE_MONTH_LEAP: [u32; 12] = [0, 31, 60, 91, 121, 152, 182, 213, 244, 274, 305, 335];

/// Whether `year` has a 29th of February.
pub open spec fn leap_year(year: nat) -> bool {
    (year % 400 == 0 || year % 100 != 0) && year % 4 == 0
}

/// Which of the two month tables a scan works with.
#[derive(Clone, Copy, Debug, PartialEq, Eq, Structural)]
pub enum DayTable {
    /// February has 28 days.
    Common,
    /// February has 29 days.
    Leap,
}

/// Number of days that `month` (1 to 12) has under `table`.
pub open spec fn days_in_month(table: DayTable, month: nat) -> nat {
    if month == 2 {
        if table == DayTable::Leap {
            29
        } else {
            28
        }
    } else if month == 4 || month == 6 || month == 9 || month == 11 {
        30
    } else {
        31
    }
}

/// Days of the year that lie before the first of `month` (1 to 12) under
/// `table`: the lengths of the months before it, added up. A month outside
/// 1 to 12 has no entry in a table and counts as 0 days.
pub open spec fn days_before_month(table: DayTable, month: nat) -> nat
    decreases month,
{
    if 2 <= month <= 12 {
        days_before_month(table, (month - 1) as nat) + days_in_month(table, (month - 1) as nat)
    } else {
        0
    }
}

/// The two tables hold, month by month, the days that lie before the month.
pub proof fn lemma_tables_count_days_before_month(month: nat)
    requires
        1 <= month <= 12,
    ensures
        DAYS_BEFORE_MONTH[month - 1] == days_before_month(DayTable::Common, month),
        DAYS_BEFORE_MONTH_LEAP[month - 1] == days_before_month(DayTable::Leap, month),
        days_before_month(DayTable::Leap, month) == days_before_month(DayTable::Common, month) + (
        if month >= 3 {
            1nat
        } else {
            0nat
        }),
{
    reveal_with_fuel(days_before_month, 13);
}

/// No month has more than 335 days before it.
pub proof fn lemma_days_before_month_bound(table: DayTable, month: nat)
    ensures
        days_before_month(table, month) <= 335,
{
    if 1 <= month <= 12 {
        lemma_tables_count_days_before_month(month);
    }
}

/// Within a table, a later month starts no earlier than an earlier month
/// ends.
pub proof fn lemma_days_before_month_ordered(table: DayTable, earlier: nat, later: nat)
    requires
        1 <= earlier < later <= 12,
    ensures
        days_before_month(table, earlier) + days_in_month(table, earlier) <= days_before_month(
            table,
            later,
        ),
    decreases later,
{
    if earlier + 1 < later {
        lemma_days_before_month_ordered(table, earlier, (later - 1) as nat);
    }
}

/// Computes [`leap_year`].
pub fn is_leap_year(year: u32) -> (leap: bool)
    ensures
        leap == leap_year(year as nat),
{
    (year % 400 == 0 || year % 100 != 0) && year % 4 == 0
}

impl DayTable {
    /// The table that the calendar of `year` calls for.
    pub open spec fn spec_for_year(year: nat) -> DayTable {
        if leap_year(year) {
            DayTable::Leap
        } else {
            DayTable::Common
        }
    }

    /// Picks the table for `year`.
    pub fn for_year(year: u32) -> (table: DayTable)
        ensures
            table == Self::spec_for_year(year as nat),
    {
        if is_leap_year(year) {
            DayTable::Leap
        } else {
            DayTable::Common
        }
    }

    /// Looks up the days before `month` in this table.
    pub fn days_before_month(self, month: u32) -> (days: u32)
        ensures
            days == days_before_month(self, month as nat),
            days <= 335,
    {
        if 1 <= month && month <= 12 {
            proof {
                lemma_tables_count_days_before_month(month as nat);
                lemma_days_before_month_bound(self, month as nat);
            }
            let i: usize = (month - 1) as usize;
            match self {
                DayTable::Common => DAYS_BEFORE_MONTH[i],
                DayTable::Leap => DAYS_BEFORE_MONTH_LEAP[i],
            }
        } else {
            0
        }
    }
}

} // verus!
