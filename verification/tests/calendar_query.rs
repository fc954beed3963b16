use bufcli::calendar::{add_offset, from_day_of_year, next_day, prev_day, ValidTime};
use bufcli::distributions::{Deciles, Percentile};
use bufcli::error::BufcliError;
use bufcli::query::{ClimoQueryInterface, DecileRow};
use bufcli::types::{ClimoElement, Model};

fn vt(year: i32, month: u32, day: u32, hour: u32) -> ValidTime {
    ValidTime { year, month, day, hour }
}

#[test]
fn day_stepping_handles_month_and_year_ends() {
    assert_eq!(next_day(&vt(2019, 12, 31, 6)), vt(2020, 1, 1, 6));
    assert_eq!(next_day(&vt(2020, 2, 28, 0)), vt(2020, 2, 29, 0));
    assert_eq!(next_day(&vt(2019, 2, 28, 0)), vt(2019, 3, 1, 0));
    assert_eq!(prev_day(&vt(2020, 3, 1, 23)), vt(2020, 2, 29, 23));
    assert_eq!(prev_day(&vt(2021, 1, 1, 0)), vt(2020, 12, 31, 0));
}

#[test]
fn offsets_at_century_boundaries() {
    // 1900 is not a leap year, 2000 is.
    assert_eq!(next_day(&vt(1900, 2, 28, 12)), vt(1900, 3, 1, 12));
    assert_eq!(next_day(&vt(2000, 2, 28, 12)), vt(2000, 2, 29, 12));
    assert_eq!(add_offset(&vt(2000, 1, 1, 0), -3600), vt(1999, 12, 31, 23));
    assert_eq!(add_offset(&vt(1999, 12, 31, 23), 3600), vt(2000, 1, 1, 0));
}

#[test]
fn sub_hour_offsets_truncate_to_the_hour() {
    // A half-hour zone east of UTC.
    assert_eq!(add_offset(&vt(2020, 6, 1, 4), 5 * 3600 + 1800), vt(2020, 6, 1, 9));
}

#[test]
fn day_of_year_round_trips() {
    assert_eq!(from_day_of_year(false, 1), (1, 1));
    assert_eq!(from_day_of_year(false, 365), (12, 31));
    assert_eq!(from_day_of_year(false, 59), (2, 28));
    assert_eq!(from_day_of_year(false, 60), (3, 1));
    assert_eq!(from_day_of_year(true, 60), (2, 29));
    assert_eq!(from_day_of_year(true, 366), (12, 31));
    assert_eq!(vt(2019, 12, 31, 0).day_of_year(), 365);
    assert_eq!(vt(2020, 12, 31, 0).day_of_year(), 366);
}

fn blob_of(seed: f64) -> Vec<u8> {
    let mut vals = [0u64; 11];
    for (k, v) in vals.iter_mut().enumerate() {
        *v = (seed + k as f64).to_bits();
    }
    Deciles::from_values(vals).as_bytes()
}

#[test]
fn hourly_deciles_map_stored_keys_onto_the_range() {
    let interface = ClimoQueryInterface::initialize();
    let rows = vec![
        DecileRow { day_of_year: 365, hour: 12, blob: blob_of(10.0) },
        DecileRow { day_of_year: 1, hour: 0, blob: blob_of(20.0) },
        DecileRow { day_of_year: 100, hour: 0, blob: blob_of(30.0) },
        DecileRow { day_of_year: 3, hour: 6, blob: blob_of(40.0) },
    ];
    // A range wrapping the turn of the year: Dec 25 2020 to Jan 5 2021.
    let start = vt(2020, 12, 25, 0);
    let end = vt(2021, 1, 5, 23);
    let result = interface.hourly_deciles(&rows, &start, &end);
    assert_eq!(result.len(), 3);
    // Day 365 of the leap year 2020 is Dec 30.
    assert_eq!(result[0].0, vt(2020, 12, 30, 12));
    assert_eq!(
        f64::from_bits(result[0].1.value_at_percentile(Percentile::new(0))),
        10.0
    );
    assert_eq!(result[1].0, vt(2021, 1, 1, 0));
    assert_eq!(result[2].0, vt(2021, 1, 3, 6));
    assert_eq!(
        f64::from_bits(result[2].1.value_at_percentile(Percentile::new(100))),
        50.0
    );
}

#[test]
fn hourly_deciles_drop_unreadable_blobs() {
    let interface = ClimoQueryInterface::initialize();
    let rows = vec![
        DecileRow { day_of_year: 160, hour: 0, blob: vec![1, 2, 3] },
        DecileRow { day_of_year: 161, hour: 0, blob: blob_of(1.0) },
    ];
    let start = vt(2019, 6, 1, 0);
    let end = vt(2019, 6, 30, 23);
    let result = interface.hourly_deciles(&rows, &start, &end);
    assert_eq!(result.len(), 1);
    assert_eq!(result[0].0, vt(2019, 6, 10, 0));
}

#[test]
fn model_constants() {
    assert_eq!(Model::GFS.hours_between_runs(), 6);
    assert_eq!(Model::NAM.hours_between_runs(), 6);
    assert_eq!(Model::NAM4KM.hours_between_runs(), 6);
    assert_eq!(Model::GFS.as_static_str(), "GFS");
    assert_eq!(Model::NAM4KM.as_static_str(), "NAM4KM");
}

#[test]
fn element_column_names() {
    assert_eq!(ClimoElement::HDW.into_column_name(), "hdw_deciles");
    assert_eq!(ClimoElement::BlowUpDt.into_column_name(), "blow_up_dt_deciles");
    assert_eq!(ClimoElement::BlowUpHeight.into_column_name(), "blow_up_meters_deciles");
    assert_eq!(ClimoElement::DCAPE.into_column_name(), "dcape_deciles");
}

#[test]
fn error_carries_its_message() {
    let e = BufcliError::new("cannot open the archive");
    assert_eq!(e.message(), "cannot open the archive");
}
