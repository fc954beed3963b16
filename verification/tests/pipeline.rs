use bufcli::calendar::ValidTime;
use bufcli::pipeline::{
    cli_stats_step, collector_step, enumerate_missing, load_step, location_step, parser_step,
    run_ingest, CollectorAction, CollectorState, DataPopulateMsg, IngestItem, ItemData,
};
use bufcli::stats_record::{SoundingData, StatsRecord};
use bufcli::types::{Model, SiteInfo};

fn vt(year: i32, month: u32, day: u32, hour: u32) -> ValidTime {
    ValidTime { year, month, day, hour }
}

fn site(num: u32, name: &str) -> SiteInfo {
    SiteInfo { station_num: num, name: Some(name.to_string()), time_zone_secs: None }
}

fn sounding(lead: i64, valid: Option<ValidTime>, with_location: bool) -> SoundingData {
    SoundingData {
        lead_time: Some(lead),
        valid_time: valid,
        location: if with_location { Some((46.92f64.to_bits(), (-114.09f64).to_bits())) } else { None },
        elev_m: if with_location { Some(972.0f64.to_bits()) } else { None },
        hdw: Some(400),
        blow_up_dt: Some(5.5f64.to_bits()),
        blow_up_meters: Some(1500),
        dcape: Some(900),
    }
}

// A well-formed run: eight forecast hours, lead times 0 through 7, all
// bearing valid times, location data on the lead-zero sounding only.
fn normal_run(init: ValidTime) -> Vec<SoundingData> {
    (0..8)
        .map(|lead| {
            let valid = vt(init.year, init.month, init.day, init.hour + lead as u32);
            sounding(lead, Some(valid), lead == 0)
        })
        .collect()
}

#[test]
fn enumerate_emits_only_missing_times() {
    let s = site(1, "A");
    let init_times = vec![
        vt(2020, 1, 1, 0),
        vt(2020, 1, 1, 6),
        vt(2020, 1, 1, 0), // a duplicate listing of the same init time
        vt(2020, 1, 1, 12),
    ];
    let done_times = vec![vt(2020, 1, 1, 6)];
    let (msgs, counter) = enumerate_missing(&s, Model::GFS, &init_times, &done_times, false, 0);
    assert_eq!(msgs.len(), 2);
    assert_eq!(counter, 3);
    match &msgs[0] {
        DataPopulateMsg::Load { num, init_time, .. } => {
            assert_eq!(*num, 1);
            assert_eq!(*init_time, vt(2020, 1, 1, 0));
        }
        other => panic!("expected Load, got {other:?}"),
    }
    match &msgs[1] {
        DataPopulateMsg::Load { num, init_time, .. } => {
            assert_eq!(*num, 2);
            assert_eq!(*init_time, vt(2020, 1, 1, 12));
        }
        other => panic!("expected Load, got {other:?}"),
    }
}

#[test]
fn enumerate_with_force_rebuild_ignores_done_times() {
    let s = site(1, "A");
    let init_times = vec![vt(2020, 1, 1, 0), vt(2020, 1, 1, 6)];
    let done_times = init_times.clone();
    let (msgs, counter) = enumerate_missing(&s, Model::NAM, &init_times, &done_times, true, 10);
    assert_eq!(msgs.len(), 2);
    assert_eq!(counter, 12);
}

#[test]
fn enumerate_with_everything_present_emits_nothing() {
    let s = site(1, "A");
    let init_times = vec![vt(2020, 1, 1, 0), vt(2020, 1, 1, 6)];
    let (msgs, counter) = enumerate_missing(&s, Model::GFS, &init_times, &init_times, false, 0);
    assert!(msgs.is_empty());
    assert_eq!(counter, 2);
}

#[test]
fn load_step_turns_failures_into_data_errors() {
    let load = DataPopulateMsg::Load {
        num: 7,
        site: site(2, "B"),
        model: Model::GFS,
        init_time: vt(2020, 3, 1, 0),
    };
    match load_step(load, Err("file is missing".to_string())) {
        DataPopulateMsg::DataError { num, valid_time, msg, .. } => {
            assert_eq!(num, 7);
            assert_eq!(valid_time, vt(2020, 3, 1, 0));
            assert_eq!(msg, "file is missing");
        }
        other => panic!("expected DataError, got {other:?}"),
    }
}

#[test]
fn parser_step_caps_retained_hours_at_hours_between_runs() {
    let parse = DataPopulateMsg::Parse {
        num: 1,
        site: site(3, "C"),
        model: Model::GFS,
        init_time: vt(2020, 3, 1, 0),
        data: String::new(),
    };
    let msgs = parser_step(parse, Ok(normal_run(vt(2020, 3, 1, 0))));
    // hours between runs is 6, so leads 0 through 5 are retained.
    assert_eq!(msgs.len(), 6);
    for (k, m) in msgs.iter().enumerate() {
        match m {
            DataPopulateMsg::CliData { valid_time, .. } => {
                assert_eq!(valid_time.hour, k as u32);
            }
            other => panic!("expected CliData, got {other:?}"),
        }
    }
}

#[test]
fn parser_step_reports_missing_valid_times() {
    let parse = DataPopulateMsg::Parse {
        num: 1,
        site: site(3, "C"),
        model: Model::GFS,
        init_time: vt(2020, 3, 1, 0),
        data: String::new(),
    };
    let snds = vec![sounding(0, None, true), sounding(1, Some(vt(2020, 3, 1, 1)), false)];
    let msgs = parser_step(parse, Ok(snds));
    assert_eq!(msgs.len(), 2);
    match &msgs[0] {
        DataPopulateMsg::DataError { msg, .. } => assert_eq!(msg, "No valid time"),
        other => panic!("expected DataError, got {other:?}"),
    }
    assert!(matches!(&msgs[1], DataPopulateMsg::CliData { .. }));
}

#[test]
fn location_step_takes_lead_zero_only() {
    let loc_msg = |lead: i64, with_location: bool| DataPopulateMsg::Location {
        num: 4,
        site: site(5, "E"),
        model: Model::GFS,
        valid_time: vt(2020, 3, 1, 0),
        snd: sounding(lead, Some(vt(2020, 3, 1, 0)), with_location),
    };
    // Lead zero with full location data: a record and a completion.
    let (rec, term) = location_step(loc_msg(0, true));
    assert!(matches!(rec, Some(StatsRecord::Location { .. })));
    assert!(matches!(term, Some(DataPopulateMsg::PopulateCompleted { num: 4, .. })));
    // Lead zero without location data: an error.
    let (rec, term) = location_step(loc_msg(0, false));
    assert!(rec.is_none());
    match term {
        Some(DataPopulateMsg::DataError { msg, .. }) => {
            assert_eq!(msg, "Missing location information")
        }
        other => panic!("expected DataError, got {other:?}"),
    }
    // A later forecast hour: dropped entirely.
    let (rec, term) = location_step(loc_msg(3, true));
    assert!(rec.is_none());
    assert!(term.is_none());
}

#[test]
fn end_to_end_scenario_three_runs() {
    // Three init times for one site and model with six hours between
    // runs, eight forecast hours each: exactly eighteen statistics
    // records persist and exactly three location upserts are attempted.
    let items: Vec<IngestItem> = [vt(2020, 3, 1, 0), vt(2020, 3, 1, 6), vt(2020, 3, 1, 12)]
        .iter()
        .map(|init| IngestItem {
            site: site(10, "ABC"),
            model: Model::GFS,
            init_time: *init,
            data: ItemData::Soundings(normal_run(*init)),
        })
        .collect();
    let outcome = run_ingest(items);
    let cli_count = outcome
        .stats
        .iter()
        .filter(|r| matches!(r, StatsRecord::CliData { .. }))
        .count();
    let loc_count = outcome
        .stats
        .iter()
        .filter(|r| matches!(r, StatsRecord::Location { .. }))
        .count();
    assert_eq!(cli_count, 18);
    assert_eq!(loc_count, 3);
    assert_eq!(outcome.terminals.len(), 3);
    for t in &outcome.terminals {
        assert!(matches!(t, DataPopulateMsg::PopulateCompleted { .. }));
    }
}

#[test]
fn every_load_item_yields_exactly_one_terminal() {
    // More items than any bounded queue of the concurrent pipeline
    // would hold at once: none is lost, none is duplicated — one
    // terminal acknowledgment per emitted load item.
    let mut items: Vec<IngestItem> = Vec::new();
    for day in 1..=25u32 {
        for hour in [0u32, 6, 12, 18] {
            let init = vt(2020, 3, day, hour);
            let data = match (day + hour) % 3 {
                0 => ItemData::FetchErr("missing file".to_string()),
                1 => ItemData::DecodeErr("bad sounding text".to_string()),
                _ => ItemData::Soundings(normal_run(init)),
            };
            items.push(IngestItem { site: site(11, "XYZ"), model: Model::NAM, init_time: init, data });
        }
    }
    let total = items.len();
    assert!(total > 64);
    let outcome = run_ingest(items);
    assert_eq!(outcome.terminals.len(), total);
    let mut nums: Vec<usize> = outcome
        .terminals
        .iter()
        .map(|t| match t {
            DataPopulateMsg::PopulateCompleted { num, .. } => *num,
            DataPopulateMsg::DataError { num, .. } => *num,
            other => panic!("unexpected terminal {other:?}"),
        })
        .collect();
    nums.sort_unstable();
    let expected: Vec<usize> = (1..=total).collect();
    assert_eq!(nums, expected);
}

#[test]
fn collector_accumulates_changed_pairs_once() {
    let mut state = CollectorState { progress: 0, pairs: Vec::new() };
    let completed = |num: usize, station: u32| DataPopulateMsg::PopulateCompleted {
        num,
        site: site(station, "S"),
        model: Model::GFS,
    };
    assert_eq!(collector_step(&mut state, &completed(1, 100)), CollectorAction::Progress { num: 1 });
    collector_step(&mut state, &completed(2, 100));
    collector_step(&mut state, &completed(3, 200));
    assert_eq!(state.pairs, vec![(100, Model::GFS), (200, Model::GFS)]);
    assert_eq!(state.progress, 3);

    let err = DataPopulateMsg::DataError {
        num: 4,
        site: site(300, "T"),
        model: Model::NAM,
        valid_time: vt(2020, 1, 1, 0),
        msg: "decode failed".to_string(),
    };
    let act = collector_step(&mut state, &err);
    assert_eq!(
        act,
        CollectorAction::RemoveFileAndProgress {
            num: 4,
            station_num: 300,
            model: Model::NAM,
            valid_time: vt(2020, 1, 1, 0),
        }
    );
    assert_eq!(state.pairs.len(), 2);

    assert_eq!(collector_step(&mut state, &DataPopulateMsg::TerminateThread), CollectorAction::Finish);
}
