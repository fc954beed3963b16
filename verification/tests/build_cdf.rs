use bufcli::build_cdf::{
    compute_deciles, create_deciles, remap_degenerate, ClimoCDFBuilderInterface, DataRow,
};
use bufcli::calendar::ValidTime;
use bufcli::distributions::Percentile;
use bufcli::types::{Model, SiteInfo};

fn vt(year: i32, month: u32, day: u32, hour: u32) -> ValidTime {
    ValidTime { year, month, day, hour }
}

fn row(time: ValidTime, hdw: f64, dt: f64, meters: f64, dcape: f64) -> DataRow {
    DataRow {
        valid_time: time,
        hdw: hdw.to_bits(),
        blow_up_dt: dt.to_bits(),
        blow_up_meters: meters.to_bits(),
        dcape: dcape.to_bits(),
    }
}

#[test]
fn remap_forces_degenerate_pairs_to_the_tail() {
    let rows = vec![
        row(vt(2019, 6, 15, 12), 10.0, 2.5, 999.9, 100.0),
        row(vt(2019, 6, 16, 12), 11.0, 3.5, 1000.0, 200.0),
        row(vt(2019, 6, 17, 12), 12.0, 4.5, -50.0, 300.0),
    ];
    let remapped = remap_degenerate(rows);
    assert_eq!(f64::from_bits(remapped[0].blow_up_dt), f64::INFINITY);
    assert_eq!(f64::from_bits(remapped[0].blow_up_meters), f64::NEG_INFINITY);
    assert_eq!(f64::from_bits(remapped[1].blow_up_dt), 3.5);
    assert_eq!(f64::from_bits(remapped[1].blow_up_meters), 1000.0);
    assert_eq!(f64::from_bits(remapped[2].blow_up_dt), f64::INFINITY);
    assert_eq!(f64::from_bits(remapped[2].blow_up_meters), f64::NEG_INFINITY);
    // Untouched columns stay untouched.
    assert_eq!(f64::from_bits(remapped[0].hdw), 10.0);
    assert_eq!(f64::from_bits(remapped[2].dcape), 300.0);
}

#[test]
fn remap_keeps_nan_heights() {
    let rows = vec![row(vt(2019, 6, 15, 12), 1.0, 2.0, f64::NAN, 3.0)];
    let remapped = remap_degenerate(rows);
    assert!(f64::from_bits(remapped[0].blow_up_meters).is_nan());
    assert_eq!(f64::from_bits(remapped[0].blow_up_dt), 2.0);
}

#[test]
fn deciles_of_sample_entirely_below_the_floor() {
    let rows: Vec<DataRow> = (1..=10)
        .map(|d| row(vt(2019, 6, d, 12), 5.0, 1.5, 400.0 + d as f64, 50.0))
        .collect();
    let remapped = remap_degenerate(rows);
    let meters: Vec<u64> = remapped.iter().map(|r| r.blow_up_meters).collect();
    let d = compute_deciles(meters).unwrap();
    for p in 0..=10u32 {
        assert_eq!(
            f64::from_bits(d.value_at_percentile(Percentile::new(p * 10))),
            f64::NEG_INFINITY,
            "percentile {}",
            p * 10
        );
    }
}

#[test]
fn compute_deciles_absent_for_empty_and_all_nan_samples() {
    assert!(compute_deciles(Vec::new()).is_none());
    assert!(compute_deciles(vec![f64::NAN.to_bits(), f64::NAN.to_bits()]).is_none());
    assert!(compute_deciles(vec![1.0f64.to_bits()]).is_some());
}

#[test]
fn create_deciles_buckets_by_window_and_hour() {
    // Ten years of observations on Jun 15 at 12Z (and one at 13Z that
    // must stay out of the 12Z buckets).
    let mut rows: Vec<DataRow> = (2010..2020)
        .map(|y| row(vt(y, 6, 15, 12), y as f64, 1.0, 2000.0, 3.0))
        .collect();
    rows.push(row(vt(2012, 6, 15, 13), 99.0, 1.0, 2000.0, 3.0));
    let entries = create_deciles(&rows);
    // Jun 15 is day 166 of a non-leap year; its date falls in the
    // 15 windows centered on days 159 through 173, once per hour used.
    assert_eq!(entries.len(), 30);
    let at_12: Vec<&(u32, u32, _, _, _, _)> =
        entries.iter().filter(|e| e.1 == 12).collect();
    assert_eq!(at_12.len(), 15);
    assert_eq!(at_12[0].0, 159);
    assert_eq!(at_12[14].0, 173);
    // Keys come out in ascending (day, hour) order.
    for pair in entries.windows(2) {
        assert!(
            pair[0].0 < pair[1].0 || (pair[0].0 == pair[1].0 && pair[0].1 < pair[1].1)
        );
    }
    // The hdw deciles of the 12Z buckets span the ten years.
    let d = &at_12[0].2;
    assert_eq!(f64::from_bits(d.value_at_percentile(Percentile::new(0))), 2010.0);
    assert_eq!(f64::from_bits(d.value_at_percentile(Percentile::new(100))), 2019.0);
}

#[test]
fn create_deciles_of_empty_data_is_empty() {
    let entries = create_deciles(&Vec::new());
    assert!(entries.is_empty());
}

#[test]
fn builder_interface_batches_at_one_hundred() {
    let site = SiteInfo { station_num: 727730, name: Some("Missoula".to_string()), time_zone_secs: None };
    let d = compute_deciles(vec![1.0f64.to_bits(), 2.0f64.to_bits()]).unwrap();
    let mut interface = ClimoCDFBuilderInterface::initialize();
    let mut batches = 0;
    for i in 0..250u32 {
        let out = interface.add_to_db(&site, Model::GFS, 1 + i % 365, i % 24, (d, d, d, d));
        if let Some(batch) = out {
            batches += 1;
            assert_eq!(batch.len(), 100);
            assert_eq!(batch[0].station_num, 727730);
            assert_eq!(batch[0].hdw_blob.len(), 88);
        }
    }
    assert_eq!(batches, 2);
    let rest = interface.flush();
    assert_eq!(rest.len(), 50);
    let again = interface.flush();
    assert!(again.is_empty());
}
