use bufcli::distributions::{CumulativeDistribution, Deciles, Percentile};

fn b(x: f64) -> u64 {
    x.to_bits()
}

fn bits_vec(xs: &[f64]) -> Vec<u64> {
    xs.iter().map(|x| x.to_bits()).collect()
}

fn deciles_f64(d: &Deciles) -> Vec<f64> {
    let bytes = d.as_bytes();
    let decoded = Deciles::from_reader(&bytes).unwrap();
    (0..=10)
        .map(|p| f64::from_bits(decoded.value_at_percentile(Percentile::new(p * 10))))
        .collect()
}

#[test]
fn deciles_of_ten_values() {
    let sample = bits_vec(&[10.0, 1.0, 9.0, 2.0, 8.0, 3.0, 7.0, 4.0, 6.0, 5.0]);
    let cdf = CumulativeDistribution::new(sample);
    let d = cdf.deciles();
    // Nearest-rank (half up) over a sorted sample of ten: ranks
    // 0,1,2,3,4,5,5,6,7,8,9.
    let expected = [1.0, 2.0, 3.0, 4.0, 5.0, 6.0, 6.0, 7.0, 8.0, 9.0, 10.0];
    for (k, e) in expected.iter().enumerate() {
        let got = f64::from_bits(d.value_at_percentile(Percentile::new(k as u32 * 10)));
        assert_eq!(got, *e, "decile {k}");
    }
}

#[test]
fn deciles_drop_nans_and_bracket_sample() {
    let sample = bits_vec(&[f64::NAN, 3.5, -2.0, f64::NAN, 7.25, 0.0]);
    let cdf = CumulativeDistribution::new(sample);
    let d = cdf.deciles();
    assert_eq!(f64::from_bits(d.value_at_percentile(Percentile::new(0))), -2.0);
    assert_eq!(f64::from_bits(d.value_at_percentile(Percentile::new(100))), 7.25);
    let ladder = deciles_f64(&d);
    for w in ladder.windows(2) {
        assert!(w[0] <= w[1], "ladder must be non-decreasing: {ladder:?}");
    }
}

#[test]
fn deciles_of_single_value() {
    let cdf = CumulativeDistribution::new(bits_vec(&[42.5]));
    let d = cdf.deciles();
    for p in 0..=10 {
        assert_eq!(f64::from_bits(d.value_at_percentile(Percentile::new(p * 10))), 42.5);
    }
}

#[test]
fn percentile_of_value_scales_insertion_point() {
    let cdf = CumulativeDistribution::new(bits_vec(&[1.0, 2.0, 3.0, 4.0, 5.0]));
    assert_eq!(cdf.percentile_of_value(b(3.0)).value(), 50);
    assert_eq!(cdf.percentile_of_value(b(2.5)).value(), 50);
    assert_eq!(cdf.percentile_of_value(b(1.0)).value(), 0);
    assert_eq!(cdf.percentile_of_value(b(0.0)).value(), 0);
    assert_eq!(cdf.percentile_of_value(b(5.5)).value(), 100);
}

#[test]
fn percentile_of_value_caps_at_one_hundred() {
    let cdf = CumulativeDistribution::new(bits_vec(&[1.0, 2.0]));
    assert_eq!(cdf.percentile_of_value(b(9.0)).value(), 100);
}

#[test]
fn presorted_new_keeps_order() {
    let cdf = CumulativeDistribution::presorted_new(bits_vec(&[-1.0, 0.5, 2.0]));
    assert_eq!(cdf.len(), 3);
    assert_eq!(f64::from_bits(cdf.value_at_percentile(Percentile::new(0))), -1.0);
    assert_eq!(f64::from_bits(cdf.value_at_percentile(Percentile::new(100))), 2.0);
}

#[test]
fn sort_handles_negatives_zeros_and_infinities() {
    let cdf = CumulativeDistribution::new(bits_vec(&[
        0.0,
        f64::NEG_INFINITY,
        -0.0,
        f64::INFINITY,
        -3.5,
        3.5,
    ]));
    let d = cdf.deciles();
    assert_eq!(
        d.value_at_percentile(Percentile::new(0)),
        f64::NEG_INFINITY.to_bits()
    );
    assert_eq!(
        d.value_at_percentile(Percentile::new(100)),
        f64::INFINITY.to_bits()
    );
}

#[test]
fn round_trip_is_bit_for_bit() {
    let values = [
        -0.0,
        0.0,
        f64::INFINITY,
        f64::NEG_INFINITY,
        1.5,
        -2.25,
        1e300,
        -1e-300,
        f64::MIN_POSITIVE,
        42.0,
        -42.0,
    ];
    let d = Deciles::from_values([
        values[0].to_bits(),
        values[1].to_bits(),
        values[2].to_bits(),
        values[3].to_bits(),
        values[4].to_bits(),
        values[5].to_bits(),
        values[6].to_bits(),
        values[7].to_bits(),
        values[8].to_bits(),
        values[9].to_bits(),
        values[10].to_bits(),
    ]);
    let bytes = d.as_bytes();
    assert_eq!(bytes.len(), 88);
    let decoded = Deciles::from_reader(&bytes).unwrap();
    for p in 0..=10u32 {
        assert_eq!(
            decoded.value_at_percentile(Percentile::new(p * 10)),
            d.value_at_percentile(Percentile::new(p * 10)),
            "percentile {}",
            p * 10
        );
    }
}

#[test]
fn blob_layout_matches_eleven_little_endian_doubles() {
    let values: [f64; 11] = [
        1.0, 2.0, 3.0, 4.0, 5.5, -6.0, 7.0, 8.0, 9.0, 10.0, 11.25,
    ];
    let d = Deciles::from_values([
        values[0].to_bits(),
        values[1].to_bits(),
        values[2].to_bits(),
        values[3].to_bits(),
        values[4].to_bits(),
        values[5].to_bits(),
        values[6].to_bits(),
        values[7].to_bits(),
        values[8].to_bits(),
        values[9].to_bits(),
        values[10].to_bits(),
    ]);
    let ours = d.as_bytes();
    let reference = bincode::serialize(&values).unwrap();
    assert_eq!(ours, reference);
}

#[test]
fn from_reader_rejects_short_blobs() {
    assert!(Deciles::from_reader(&[0u8; 87]).is_err());
    assert!(Deciles::from_reader(&[]).is_err());
    assert!(Deciles::from_reader(&[0u8; 88]).is_ok());
    assert!(Deciles::from_reader(&[0u8; 90]).is_ok());
}

#[test]
fn bit_order_agrees_with_float_order() {
    let samples: [f64; 11] = [
        -1e308, -5.0, -1.0, -0.5, -1e-300, 0.0, 1e-300, 0.5, 1.0, 5.0, 1e308,
    ];
    for (i, a) in samples.iter().enumerate() {
        for (j, bb) in samples.iter().enumerate() {
            let lt = bufcli::fbits::lt_of((*a).to_bits(), (*bb).to_bits());
            assert_eq!(lt, i < j, "{a} vs {bb}");
        }
    }
}
