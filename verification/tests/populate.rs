use bufcli::calendar::ValidTime;
use std::collections::HashMap;
use bufcli::populate::{ClimoPopulateInterface, StoreRow};
use bufcli::stats_record::StatsRecord;
use bufcli::types::{Model, SiteInfo};

fn vt(year: i32, month: u32, day: u32, hour: u32) -> ValidTime {
    ValidTime { year, month, day, hour }
}

fn site_with_tz(num: u32, secs: Option<i32>) -> SiteInfo {
    SiteInfo { station_num: num, name: Some("Missoula".to_string()), time_zone_secs: secs }
}

fn cli_record(site: SiteInfo, valid_time: ValidTime) -> StatsRecord {
    StatsRecord::CliData {
        site,
        model: Model::GFS,
        valid_time,
        hdw: Some(312),
        blow_up_dt: Some(4.5f64.to_bits()),
        blow_up_meters: Some(2100),
        dcape: Some(880),
    }
}

#[test]
fn local_calendar_columns_shift_by_the_site_offset() {
    // Seven hours west of UTC: 05Z on New Year's Day is still the old
    // year locally.
    let mut interface = ClimoPopulateInterface::initialize();
    let record = cli_record(site_with_tz(1, Some(-7 * 3600)), vt(2020, 1, 1, 5));
    assert!(interface.add(record).is_none());
    let rows = interface.flush();
    assert_eq!(rows.len(), 1);
    match &rows[0] {
        StoreRow::Cli(row) => {
            assert_eq!(row.valid_time, vt(2020, 1, 1, 5));
            assert_eq!(row.year_lcl, 2019);
            assert_eq!(row.month_lcl, 12);
            assert_eq!(row.day_lcl, 31);
            assert_eq!(row.hour_lcl, 22);
            assert_eq!(row.hdw, Some(312));
        }
        other => panic!("expected a statistics row, got {other:?}"),
    }
}

#[test]
fn local_calendar_defaults_to_utc() {
    let mut interface = ClimoPopulateInterface::initialize();
    interface.add(cli_record(site_with_tz(1, None), vt(2020, 6, 15, 12)));
    let rows = interface.flush();
    match &rows[0] {
        StoreRow::Cli(row) => {
            assert_eq!(row.year_lcl, 2020);
            assert_eq!(row.month_lcl, 6);
            assert_eq!(row.day_lcl, 15);
            assert_eq!(row.hour_lcl, 12);
        }
        other => panic!("expected a statistics row, got {other:?}"),
    }
}

#[test]
fn eastern_offset_crosses_into_the_next_day() {
    let mut interface = ClimoPopulateInterface::initialize();
    interface.add(cli_record(site_with_tz(1, Some(10 * 3600)), vt(2020, 2, 28, 20)));
    let rows = interface.flush();
    match &rows[0] {
        StoreRow::Cli(row) => {
            // 2020 is a leap year: the next day is Feb 29.
            assert_eq!(row.year_lcl, 2020);
            assert_eq!(row.month_lcl, 2);
            assert_eq!(row.day_lcl, 29);
            assert_eq!(row.hour_lcl, 6);
        }
        other => panic!("expected a statistics row, got {other:?}"),
    }
}

#[test]
fn location_rows_carry_the_site_name() {
    let mut interface = ClimoPopulateInterface::initialize();
    let record = StatsRecord::Location {
        site: site_with_tz(727730, None),
        model: Model::NAM,
        lat: 46.92f64.to_bits(),
        lon: (-114.09f64).to_bits(),
        elev_m: 972.0f64.to_bits(),
    };
    interface.add(record);
    let rows = interface.flush();
    match &rows[0] {
        StoreRow::Loc(row) => {
            assert_eq!(row.station_num, 727730);
            assert_eq!(row.name, "Missoula");
            assert_eq!(f64::from_bits(row.lat), 46.92);
            assert_eq!(f64::from_bits(row.lon), -114.09);
            assert_eq!(f64::from_bits(row.elev_m), 972.0);
        }
        other => panic!("expected a location row, got {other:?}"),
    }
}

#[test]
fn re_ingest_leaves_the_store_unchanged() {
    // Feed the same records through the writer twice and apply both
    // row batches as the store does: keyed upserts for statistics,
    // first-writer-wins inserts for locations.  The second pass must
    // change nothing.
    let records = |site_num: u32| {
        vec![
            cli_record(site_with_tz(site_num, None), vt(2020, 1, 1, 0)),
            cli_record(site_with_tz(site_num, None), vt(2020, 1, 1, 6)),
            StatsRecord::Location {
                site: site_with_tz(site_num, None),
                model: Model::GFS,
                lat: 46.92f64.to_bits(),
                lon: (-114.09f64).to_bits(),
                elev_m: 972.0f64.to_bits(),
            },
        ]
    };

    let mut apply = |rows: &[StoreRow],
                     cli: &mut HashMap<(u32, String, ValidTime), Vec<Option<i32>>>,
                     loc: &mut HashMap<(u32, String, u64, u64, u64), String>| {
        for row in rows {
            match row {
                StoreRow::Cli(c) => {
                    cli.insert(
                        (c.station_num, format!("{:?}", c.model), c.valid_time),
                        vec![c.hdw, c.blow_up_meters, c.dcape],
                    );
                }
                StoreRow::Loc(l) => {
                    loc.entry((l.station_num, format!("{:?}", l.model), l.lat, l.lon, l.elev_m))
                        .or_insert_with(|| l.name.clone());
                }
            }
        }
    };

    let mut cli = HashMap::new();
    let mut loc = HashMap::new();
    let mut interface = ClimoPopulateInterface::initialize();
    for r in records(77) {
        interface.add(r);
    }
    let first_rows = interface.flush();
    apply(&first_rows, &mut cli, &mut loc);
    let after_first = (cli.clone(), loc.clone());

    for r in records(77) {
        interface.add(r);
    }
    let second_rows = interface.flush();
    apply(&second_rows, &mut cli, &mut loc);

    assert_eq!((cli, loc), after_first);
}

#[test]
fn add_hands_out_a_full_batch_at_the_buffer_size() {
    let mut interface = ClimoPopulateInterface::initialize();
    let mut batch = None;
    for i in 0..4096u32 {
        let record = cli_record(site_with_tz(1, None), vt(2020, 1, 1 + (i % 28), i % 24));
        let out = interface.add(record);
        if out.is_some() {
            assert!(batch.is_none(), "only one batch expected");
            assert_eq!(i, 4095);
            batch = out;
        }
    }
    assert_eq!(batch.expect("a batch at the buffer size").len(), 4096);
    assert!(interface.flush().is_empty());
}
