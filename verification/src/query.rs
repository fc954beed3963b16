//! Querying stored deciles over a concrete date range.
//!
//! The distribution store keys rows by (day of year, hour of day); a
//! query for a concrete date range maps each stored key onto the one
//! calendar date of the range that carries it, drops keys outside the
//! range, and decodes the stored blob back into a decile ladder.

use vstd::prelude::*;

use crate::calendar::{
    day_of_doy_of, day_of_year_spec, is_leap, is_leap_year, from_day_of_year, month_of_doy_of,
    valid_time_wf, vt_le, ValidTime,
};
use crate::distributions::{bytes_to_deciles, Deciles};

verus! {

/// One stored row of the distribution store, for one element: the
/// bucket key and the serialized decile blob.
#[derive(Clone, Debug)]
pub struct DecileRow {
    pub day_of_year: u32,
    pub hour: u32,
    pub blob: Vec<u8>,
}

/// The year of the query range a stored day of the year falls into:
/// the start year where the range stays in one year or the key lies at
/// or past the range's first day, the end year where it lies at or
/// before the range's last day, and none otherwise.
pub open spec fn spec_row_year(row: DecileRow, start: ValidTime, end: ValidTime) -> Option<int> {
    let start_doy = day_of_year_spec(
        is_leap_year(start.year as int),
        start.month as int,
        start.day as int,
    );
    let end_doy = day_of_year_spec(is_leap_year(end.year as int), end.month as int, end.day as int);
    if start.year == end.year || row.day_of_year >= start_doy {
        Some(start.year as int)
    } else if row.day_of_year <= end_doy {
        Some(end.year as int)
    } else {
        None
    }
}

/// The calendar timestamp a stored key takes in the query range.
pub open spec fn spec_row_time(row: DecileRow, start: ValidTime, end: ValidTime) -> ValidTime {
    let year = spec_row_year(row, start, end).unwrap();
    let leap = is_leap_year(year);
    ValidTime {
        year: year as i32,
        month: month_of_doy_of(leap, row.day_of_year as int) as u32,
        day: day_of_doy_of(leap, row.day_of_year as int) as u32,
        hour: row.hour,
    }
}

/// Whether a stored row contributes to the query's result: a sound key
/// that lands on a date inside the range, with a complete blob.
pub open spec fn spec_row_kept(row: DecileRow, start: ValidTime, end: ValidTime) -> bool {
    &&& 1 <= row.day_of_year <= 365
    &&& row.hour < 24
    &&& spec_row_year(row, start, end) is Some
    &&& vt_le(start, spec_row_time(row, start, end))
    &&& vt_le(spec_row_time(row, start, end), end)
    &&& row.blob@.len() >= 88
}

/// This struct answers decile queries from stored rows.
pub struct ClimoQueryInterface {}

impl ClimoQueryInterface {
    /// Initialize the interface.
    pub fn initialize() -> (r: Self) {
        ClimoQueryInterface {  }
    }

    /// Retrieve hourly deciles: each stored row mapped onto the date of
    /// the range carrying its key, in stored order, rows outside the
    /// range or with an unreadable blob dropped.
    pub fn hourly_deciles(&self, rows: &Vec<DecileRow>, start_time: &ValidTime, end_time: &ValidTime)
        -> (r: Vec<(ValidTime, Deciles)>)
        requires
            valid_time_wf(*start_time),
            valid_time_wf(*end_time),
        ensures
            ({
                let kept = rows@.filter(
                    |row: DecileRow| spec_row_kept(row, *start_time, *end_time),
                );
                &&& r@.len() == kept.len()
                &&& forall|j: int|
                    0 <= j < kept.len() ==> (#[trigger] r@[j]).0 == spec_row_time(
                        kept[j],
                        *start_time,
                        *end_time,
                    ) && r@[j].1.values() == bytes_to_deciles(kept[j].blob@)
            }),
    {
        let mut out: Vec<(ValidTime, Deciles)> = Vec::new();
        let mut i: usize = 0;
        while i < rows.len()
            invariant
                0 <= i <= rows@.len(),
                valid_time_wf(*start_time),
                valid_time_wf(*end_time),
                ({
                    let kept = rows@.take(i as int).filter(
                        |row: DecileRow| spec_row_kept(row, *start_time, *end_time),
                    );
                    &&& out@.len() == kept.len()
                    &&& forall|j: int|
                        0 <= j < kept.len() ==> (#[trigger] out@[j]).0 == spec_row_time(
                            kept[j],
                            *start_time,
                            *end_time,
                        ) && out@[j].1.values() == bytes_to_deciles(kept[j].blob@)
                }),
            decreases rows@.len() - i,
        {
            let row = &rows[i];
            proof {
                reveal(Seq::filter);
                assert(rows@.take(i + 1).drop_last() =~= rows@.take(i as int));
                assert(rows@.take(i + 1).last() == rows@[i as int]);
            }
            let start_doy = start_time.day_of_year();
            let end_doy = end_time.day_of_year();
            if 1 <= row.day_of_year && row.day_of_year <= 365 && row.hour < 24 {
                let year_opt: Option<i32> = if start_time.year == end_time.year
                    || row.day_of_year >= start_doy {
                    Some(start_time.year)
                } else if row.day_of_year <= end_doy {
                    Some(end_time.year)
                } else {
                    None
                };
                match year_opt {
                    Some(year) => {
                        let (month, day) = from_day_of_year(is_leap(year), row.day_of_year);
                        let vt = ValidTime { year, month, day, hour: row.hour };
                        proof {
                            assert(vt == spec_row_time(rows@[i as int], *start_time, *end_time));
                        }
                        if start_time.le(&vt) && vt.le(end_time) {
                            match Deciles::from_reader(row.blob.as_slice()) {
                                Ok(deciles) => {
                                    out.push((vt, deciles));
                                },
                                Err(_) => {},
                            }
                        }
                    },
                    None => {},
                }
            }
            i = i + 1;
        }
        proof {
            assert(rows@.take(rows@.len() as int) =~= rows@);
        }
        out
    }
}

} // verus!
