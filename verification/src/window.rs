//! The circular day-of-year window.
//!
//! Distribution buckets are keyed by day of year (1 to 365, in a
//! non-leap calendar) and hour of day.  A bucket's sample window covers
//! the days within a fixed radius of the bucket's day, wrapping across
//! the turn of the year; the test works on (month, day) pairs only, so
//! every year of history folds into one climatological cycle, and a
//! leap day falls into the windows that span late February.

use vstd::prelude::*;

use crate::calendar::{
    day_of_doy_of, day_of_year_spec, days_in_month_of, from_day_of_year, month_of_doy_of,
};

verus! {

/// Fold a shifted day of year back into the 1 to 365 range.
pub open spec fn wrap_doy(x: int) -> int {
    if x < 1 {
        x + 365
    } else if x > 365 {
        x - 365
    } else {
        x
    }
}

/// A day-of-year window in (month, day) form: from (start_month,
/// start_day) through (end_month, end_day) inclusive, wrapping across
/// the turn of the year when the start month is the later one.
#[derive(Clone, Copy, Debug, PartialEq, Eq, Structural)]
pub struct Window {
    pub start_month: u32,
    pub start_day: u32,
    pub end_month: u32,
    pub end_day: u32,
}

/// The window of days within `radius` days of day `center` of the year,
/// in (month, day) form.
pub open spec fn spec_window_for(center: int, radius: int) -> Window {
    let s = wrap_doy(center - radius);
    let e = wrap_doy(center + radius);
    Window {
        start_month: month_of_doy_of(false, s) as u32,
        start_day: day_of_doy_of(false, s) as u32,
        end_month: month_of_doy_of(false, e) as u32,
        end_day: day_of_doy_of(false, e) as u32,
    }
}

/// Whether a (month, day) pair falls inside the window.  Three shapes:
/// the window inside one month, the window spanning months in order,
/// and the window wrapping the turn of the year.
pub open spec fn window_contains_spec(w: Window, month: int, day: int) -> bool {
    if w.start_month < w.end_month {
        (month == w.start_month && day >= w.start_day) || (month == w.end_month && day
            <= w.end_day) || (month > w.start_month && month < w.end_month)
    } else if w.start_month == w.end_month {
        month == w.start_month && day >= w.start_day && day <= w.end_day
    } else {
        (month == w.start_month && day >= w.start_day) || (month == w.end_month && day
            <= w.end_day) || (month > w.start_month || month < w.end_month)
    }
}

/// Membership of `x` in the circular day-of-year interval from `s`
/// through `e` inclusive.
pub open spec fn in_circular_interval(s: int, e: int, x: int) -> bool {
    if s <= e {
        s <= x <= e
    } else {
        x >= s || x <= e
    }
}

impl Window {
    /// Whether the (month, day) pair falls inside this window.
    pub fn contains(&self, month: u32, day: u32) -> (r: bool)
        ensures
            r == window_contains_spec(*self, month as int, day as int),
    {
        if self.start_month < self.end_month {
            (month == self.start_month && day >= self.start_day) || (month == self.end_month && day
                <= self.end_day) || (month > self.start_month && month < self.end_month)
        } else if self.start_month == self.end_month {
            month == self.start_month && day >= self.start_day && day <= self.end_day
        } else {
            (month == self.start_month && day >= self.start_day) || (month == self.end_month && day
                <= self.end_day) || (month > self.start_month || month < self.end_month)
        }
    }
}

/// Build the window of days within `radius` days of day `center` of a
/// non-leap year, wrapping across the turn of the year.
pub fn make_window_func(center: u32, radius: u32) -> (r: Window)
    requires
        1 <= center <= 365,
        radius <= 13,
    ensures
        r == spec_window_for(center as int, radius as int),
{
    let s: u32 = if center > radius {
        center - radius
    } else {
        center + 365 - radius
    };
    let e: u32 = if center + radius > 365 {
        center + radius - 365
    } else {
        center + radius
    };
    let (sm, sd) = from_day_of_year(false, s);
    let (em, ed) = from_day_of_year(false, e);
    proof {
        lemma_doy_decomposition_unique(s as int, sm as int, sd as int);
        lemma_doy_decomposition_unique(e as int, em as int, ed as int);
    }
    Window { start_month: sm, start_day: sd, end_month: em, end_day: ed }
}

/// A day of a non-leap year decomposes into (month, day) only one way:
/// a valid pair whose day of year is `doy` is exactly
/// (`month_of_doy_of`, `day_of_doy_of`).
pub proof fn lemma_doy_decomposition_unique(doy: int, m: int, d: int)
    requires
        1 <= m <= 12,
        1 <= d <= days_in_month_of(false, m),
        day_of_year_spec(false, m, d) == doy,
    ensures
        month_of_doy_of(false, doy) == m,
        day_of_doy_of(false, doy) == d,
{
}

/// Every day of a non-leap year decomposes into a valid (month, day)
/// pair whose day of year is the day itself.
pub proof fn lemma_doy_valid(doy: int)
    requires
        1 <= doy <= 365,
    ensures
        1 <= month_of_doy_of(false, doy) <= 12,
        1 <= day_of_doy_of(false, doy) <= days_in_month_of(false, month_of_doy_of(false, doy)),
        day_of_year_spec(false, month_of_doy_of(false, doy), day_of_doy_of(false, doy)) == doy,
{
}

/// Day-of-year order is the lexicographic (month, day) order on valid
/// non-leap dates.
pub proof fn lemma_md_le_iff(m1: int, d1: int, m2: int, d2: int)
    requires
        1 <= m1 <= 12,
        1 <= d1 <= days_in_month_of(false, m1),
        1 <= m2 <= 12,
        1 <= d2 <= days_in_month_of(false, m2),
    ensures
        (day_of_year_spec(false, m1, d1) <= day_of_year_spec(false, m2, d2)) == (m1 < m2 || (m1
            == m2 && d1 <= d2)),
{
}

/// Circular window correctness, in its general form: a valid non-leap
/// (month, day) pair falls inside the window built around day `center`
/// with radius `radius` exactly when its day of year lies in the
/// circular interval from `center - radius` through `center + radius`.
pub proof fn lemma_window_is_circular_interval(center: int, radius: int, m: int, d: int)
    requires
        1 <= center <= 365,
        0 <= radius <= 13,
        1 <= m <= 12,
        1 <= d <= days_in_month_of(false, m),
    ensures
        window_contains_spec(spec_window_for(center, radius), m, d) == in_circular_interval(
            wrap_doy(center - radius),
            wrap_doy(center + radius),
            day_of_year_spec(false, m, d),
        ),
{
    let s = wrap_doy(center - radius);
    let e = wrap_doy(center + radius);
    let x = day_of_year_spec(false, m, d);
    let sm = month_of_doy_of(false, s);
    let sd = day_of_doy_of(false, s);
    let em = month_of_doy_of(false, e);
    let ed = day_of_doy_of(false, e);
    lemma_doy_valid(s);
    lemma_doy_valid(e);
    lemma_md_le_iff(sm, sd, m, d);
    lemma_md_le_iff(m, d, sm, sd);
    lemma_md_le_iff(em, ed, m, d);
    lemma_md_le_iff(m, d, em, ed);
    lemma_md_le_iff(sm, sd, em, ed);
    lemma_md_le_iff(em, ed, sm, sd);
    if sm == em {
        // A window whose ends share a month cannot wrap the year: a
        // wrapped window starts in December and ends in January.
        assert(s <= e);
    }
}

} // verus!
