//! Civil-calendar timestamps at hour resolution.
//!
//! Forecast init and valid times are UTC timestamps at hour resolution,
//! held directly in civil form (year, month, day, hour).  Stepping a date
//! by one day and shifting a timestamp by a bounded offset are the only
//! pieces of calendar arithmetic the library needs.

use vstd::prelude::*;

verus! {

/// A UTC timestamp at hour resolution, in civil form.
#[derive(Clone, Copy, Debug, PartialEq, Eq, Hash, Structural)]
pub struct ValidTime {
    pub year: i32,
    pub month: u32,
    pub day: u32,
    pub hour: u32,
}

/// Gregorian leap-year rule.
pub open spec fn is_leap_year(y: int) -> bool {
    y % 4 == 0 && (y % 100 != 0 || y % 400 == 0)
}

/// Days in a month, given whether the year is a leap year.
pub open spec fn days_in_month_of(leap: bool, m: int) -> int {
    if m == 2 {
        if leap {
            29
        } else {
            28
        }
    } else if m == 4 || m == 6 || m == 9 || m == 11 {
        30
    } else {
        31
    }
}

/// Days in a month of a concrete year.
pub open spec fn days_in_month_spec(y: int, m: int) -> int {
    days_in_month_of(is_leap_year(y), m)
}

/// Days of the year that precede month `m`.
pub open spec fn month_start_spec(leap: bool, m: int) -> int {
    let feb: int = if leap {
        29
    } else {
        28
    };
    if m == 1 {
        0
    } else if m == 2 {
        31
    } else if m == 3 {
        31 + feb
    } else if m == 4 {
        62 + feb
    } else if m == 5 {
        92 + feb
    } else if m == 6 {
        123 + feb
    } else if m == 7 {
        153 + feb
    } else if m == 8 {
        184 + feb
    } else if m == 9 {
        215 + feb
    } else if m == 10 {
        245 + feb
    } else if m == 11 {
        276 + feb
    } else {
        306 + feb
    }
}

/// Day of the year (1-based) of a (month, day) pair.
pub open spec fn day_of_year_spec(leap: bool, m: int, d: int) -> int {
    month_start_spec(leap, m) + d
}

/// A well-formed timestamp: a real calendar date with an in-range hour.
/// The year bounds leave room for the one-day steps the library takes.
pub open spec fn valid_time_wf(vt: ValidTime) -> bool {
    &&& 1 <= vt.year <= 9999
    &&& 1 <= vt.month <= 12
    &&& 1 <= vt.day <= days_in_month_spec(vt.year as int, vt.month as int)
    &&& vt.hour < 24
}

/// Lexicographic order on timestamps, which is chronological order.
pub open spec fn vt_le(a: ValidTime, b: ValidTime) -> bool {
    if a.year != b.year {
        a.year < b.year
    } else if a.month != b.month {
        a.month < b.month
    } else if a.day != b.day {
        a.day < b.day
    } else {
        a.hour <= b.hour
    }
}

/// The date one day after `vt`, with the hour kept.
pub open spec fn spec_next_day(vt: ValidTime) -> ValidTime {
    if vt.day < days_in_month_spec(vt.year as int, vt.month as int) {
        ValidTime { day: (vt.day + 1) as u32, ..vt }
    } else if vt.month < 12 {
        ValidTime { month: (vt.month + 1) as u32, day: 1, ..vt }
    } else {
        ValidTime { year: (vt.year + 1) as i32, month: 1, day: 1, ..vt }
    }
}

/// The date one day before `vt`, with the hour kept.
pub open spec fn spec_prev_day(vt: ValidTime) -> ValidTime {
    if vt.day > 1 {
        ValidTime { day: (vt.day - 1) as u32, ..vt }
    } else if vt.month > 1 {
        ValidTime {
            month: (vt.month - 1) as u32,
            day: days_in_month_spec(vt.year as int, vt.month as int - 1) as u32,
            ..vt
        }
    } else {
        ValidTime { year: (vt.year - 1) as i32, month: 12, day: 31, ..vt }
    }
}

/// Shifting a timestamp by a bounded offset in seconds, truncated back to
/// hour resolution: the day steps at most once in either direction.
pub open spec fn spec_add_offset(vt: ValidTime, offset_secs: int) -> ValidTime {
    let total = vt.hour * 3600 + offset_secs;
    if total < 0 {
        ValidTime { hour: ((total + 86400) / 3600) as u32, ..spec_prev_day(vt) }
    } else if total >= 86400 {
        ValidTime { hour: ((total - 86400) / 3600) as u32, ..spec_next_day(vt) }
    } else {
        ValidTime { hour: (total / 3600) as u32, ..vt }
    }
}

/// The month that contains a day of the year.
pub open spec fn month_of_doy_of(leap: bool, doy: int) -> int {
    let feb: int = if leap {
        29
    } else {
        28
    };
    if doy <= 31 {
        1
    } else if doy <= 31 + feb {
        2
    } else if doy <= 62 + feb {
        3
    } else if doy <= 92 + feb {
        4
    } else if doy <= 123 + feb {
        5
    } else if doy <= 153 + feb {
        6
    } else if doy <= 184 + feb {
        7
    } else if doy <= 215 + feb {
        8
    } else if doy <= 245 + feb {
        9
    } else if doy <= 276 + feb {
        10
    } else if doy <= 306 + feb {
        11
    } else {
        12
    }
}

/// The day of the month of a day of the year.
pub open spec fn day_of_doy_of(leap: bool, doy: int) -> int {
    doy - month_start_spec(leap, month_of_doy_of(leap, doy))
}

/// Leap-year test.
#[verifier::rlimit(50)]
#[verifier::spinoff_prover]
pub fn is_leap(y: i32) -> (r: bool)
    ensures
        r == is_leap_year(y as int),
{
    y % 4 == 0 && (y % 100 != 0 || y % 400 == 0)
}

/// Days in a month.
pub fn days_in_month(y: i32, m: u32) -> (r: u32)
    requires
        1 <= m <= 12,
    ensures
        r == days_in_month_spec(y as int, m as int),
{
    if m == 2 {
        if is_leap(y) {
            29
        } else {
            28
        }
    } else if m == 4 || m == 6 || m == 9 || m == 11 {
        30
    } else {
        31
    }
}

/// Days of the year preceding month `m`.
pub fn month_start(leap: bool, m: u32) -> (r: u32)
    requires
        1 <= m <= 12,
    ensures
        r == month_start_spec(leap, m as int),
{
    let feb: u32 = if leap {
        29
    } else {
        28
    };
    if m == 1 {
        0
    } else if m == 2 {
        31
    } else if m == 3 {
        31 + feb
    } else if m == 4 {
        62 + feb
    } else if m == 5 {
        92 + feb
    } else if m == 6 {
        123 + feb
    } else if m == 7 {
        153 + feb
    } else if m == 8 {
        184 + feb
    } else if m == 9 {
        215 + feb
    } else if m == 10 {
        245 + feb
    } else if m == 11 {
        276 + feb
    } else {
        306 + feb
    }
}

impl ValidTime {
    /// Day of the year of this timestamp, 1-based.
    pub fn day_of_year(&self) -> (r: u32)
        requires
            valid_time_wf(*self),
        ensures
            r == day_of_year_spec(
                is_leap_year(self.year as int),
                self.month as int,
                self.day as int,
            ),
    {
        month_start(is_leap(self.year), self.month) + self.day
    }

    /// Chronological comparison.
    pub fn le(&self, other: &ValidTime) -> (r: bool)
        ensures
            r == vt_le(*self, *other),
    {
        if self.year != other.year {
            self.year < other.year
        } else if self.month != other.month {
            self.month < other.month
        } else if self.day != other.day {
            self.day < other.day
        } else {
            self.hour <= other.hour
        }
    }
}

/// The date one day later.
pub fn next_day(vt: &ValidTime) -> (r: ValidTime)
    requires
        valid_time_wf(*vt),
        vt.year < 9999,
    ensures
        r == spec_next_day(*vt),
        valid_time_wf(r),
{
    if vt.day < days_in_month(vt.year, vt.month) {
        ValidTime { day: vt.day + 1, ..*vt }
    } else if vt.month < 12 {
        ValidTime { month: vt.month + 1, day: 1, ..*vt }
    } else {
        ValidTime { year: vt.year + 1, month: 1, day: 1, ..*vt }
    }
}

/// The date one day earlier.
pub fn prev_day(vt: &ValidTime) -> (r: ValidTime)
    requires
        valid_time_wf(*vt),
        vt.year > 1,
    ensures
        r == spec_prev_day(*vt),
        valid_time_wf(r),
{
    if vt.day > 1 {
        ValidTime { day: vt.day - 1, ..*vt }
    } else if vt.month > 1 {
        ValidTime { month: vt.month - 1, day: days_in_month(vt.year, vt.month - 1), ..*vt }
    } else {
        ValidTime { year: vt.year - 1, month: 12, day: 31, ..*vt }
    }
}

/// Shift a timestamp by an offset in seconds (for example a site's UTC
/// offset), truncating the result to hour resolution.
pub fn add_offset(vt: &ValidTime, offset_secs: i32) -> (r: ValidTime)
    requires
        valid_time_wf(*vt),
        1 < vt.year < 9999,
        -86400 <= offset_secs <= 86400,
    ensures
        r == spec_add_offset(*vt, offset_secs as int),
        valid_time_wf(r),
{
    let total: i64 = vt.hour as i64 * 3600 + offset_secs as i64;
    if total < 0 {
        let base = prev_day(vt);
        ValidTime { hour: ((total + 86400) / 3600) as u32, ..base }
    } else if total >= 86400 {
        let base = next_day(vt);
        ValidTime { hour: ((total - 86400) / 3600) as u32, ..base }
    } else {
        ValidTime { hour: (total / 3600) as u32, ..*vt }
    }
}

/// The (month, day) pair that has a given day of the year.
pub fn from_day_of_year(leap: bool, doy: u32) -> (r: (u32, u32))
    requires
        1 <= doy,
        leap ==> doy <= 366,
        !leap ==> doy <= 365,
    ensures
        1 <= r.0 <= 12,
        1 <= r.1 <= days_in_month_of(leap, r.0 as int),
        day_of_year_spec(leap, r.0 as int, r.1 as int) == doy,
        r.0 == month_of_doy_of(leap, doy as int),
        r.1 == day_of_doy_of(leap, doy as int),
{
    let feb: u32 = if leap {
        29
    } else {
        28
    };
    let m: u32 = if doy <= 31 {
        1
    } else if doy <= 31 + feb {
        2
    } else if doy <= 62 + feb {
        3
    } else if doy <= 92 + feb {
        4
    } else if doy <= 123 + feb {
        5
    } else if doy <= 153 + feb {
        6
    } else if doy <= 184 + feb {
        7
    } else if doy <= 215 + feb {
        8
    } else if doy <= 245 + feb {
        9
    } else if doy <= 276 + feb {
        10
    } else if doy <= 306 + feb {
        11
    } else {
        12
    };
    let d = doy - month_start(leap, m);
    (m, d)
}

} // verus!
