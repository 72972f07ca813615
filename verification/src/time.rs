//! Timestamps composed from the integer fields of a data line: a calendar
//! date plus a zero-based hour and a minute, valid exactly when the date
//! names a real proleptic Gregorian day in chrono's supported year range and
//! the clock fields are in range.
use vstd::prelude::*;

verus! {

pub open spec fn is_leap_year(y: int) -> bool {
    y % 4 == 0 && (y % 100 != 0 || y % 400 == 0)
}

pub open spec fn days_in_month(y: int, m: int) -> int {
    if m == 2 {
        if is_leap_year(y) {
            29
        } else {
            28
        }
    } else if m == 4 || m == 6 || m == 9 || m == 11 {
        30
    } else {
        31
    }
}

/// The calendar dates chrono's `NaiveDate` accepts: a real day of the
/// proleptic Gregorian calendar with the year between -262143 and 262142.
pub open spec fn valid_ymd(y: int, m: int, d: int) -> bool {
    -262143 <= y <= 262142 && 1 <= m <= 12 && 1 <= d <= days_in_month(y, m)
}

/// A calendar date with a zero-based hour of day and a minute, immutable
/// once composed.
#[derive(Clone, Copy, PartialEq, Eq, Structural, Debug)]
pub struct Timestamp {
    pub year: i32,
    pub month: u32,
    pub day: u32,
    /// Zero-based hour of day, already shifted down from the one-based
    /// 1-24 hour field of the source line.
    pub hour: u32,
    pub minute: u32,
}

impl Timestamp {
    /// A composed timestamp always names a real calendar date and a real
    /// clock time.
    pub open spec fn wf(self) -> bool {
        valid_ymd(self.year as int, self.month as int, self.day as int) && self.hour < 24
            && self.minute < 60
    }
}

/// Relies on chrono::NaiveDate::from_ymd_opt: it returns Some exactly when
/// year/month/day name a real proleptic Gregorian calendar day and the year
/// is within the range NaiveDate supports.
#[verifier::external_body]
pub(crate) fn date_exists(year: i32, month: u32, day: u32) -> (r: bool)
    ensures
        r == valid_ymd(year as int, month as int, day as int),
{
    chrono::NaiveDate::from_ymd_opt(year, month, day).is_some()
}

} // verus!
