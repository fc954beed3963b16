//! Building and buffering the decile distributions.
//!
//! For every (site, model) pair the builder loads the full historical
//! sample, re-maps the physically linked blow-up pair where the height
//! is degenerate, buckets the sample into 365 day-of-year windows by 24
//! hours of the day, computes one decile ladder per tracked statistic
//! per non-empty bucket, and hands batches of serialized rows to the
//! writer.

use vstd::prelude::*;
use vstd::relations::{sorted_by, total_ordering};

use crate::calendar::ValidTime;
use crate::distributions::{
    deciles_to_bytes, non_nan, rank_index_spec, CumulativeDistribution, Deciles,
};
use crate::fbits::{is_nan_bits, le_bits, lt_bits, lt_of, nan_bits, NEG_INF_BITS, POS_INF_BITS};
use crate::types::{Model, SiteInfo};
use crate::window::{make_window_func, spec_window_for, window_contains_spec};

verus! {

/// The bit pattern of the 1000 m blow-up height floor.
pub const BLOW_UP_METERS_MIN_BITS: u64 = 0x408f_4000_0000_0000;

/// One loaded observation: a valid time and the four tracked statistics
/// as 64-bit IEEE-754 bit patterns.
#[derive(Clone, Copy, Debug, PartialEq, Eq, Structural)]
pub struct DataRow {
    pub valid_time: ValidTime,
    pub hdw: u64,
    pub blow_up_dt: u64,
    pub blow_up_meters: u64,
    pub dcape: u64,
}

/// A collection of data values for one site and model.
pub type AllData = Vec<DataRow>;

/// One bucket's computed output: day of year, hour, and the deciles of
/// the four tracked statistics.
pub type DecileEntry = (u32, u32, Deciles, Deciles, Deciles, Deciles);

/// The degenerate re-map of one row: where the blow-up height falls
/// below the floor, the pair is forced to the distribution's extreme
/// tail (time to positive infinity, height to negative infinity).
pub open spec fn spec_remap_row(row: DataRow) -> DataRow {
    if !is_nan_bits(row.blow_up_meters) && lt_bits(row.blow_up_meters, BLOW_UP_METERS_MIN_BITS) {
        DataRow { blow_up_dt: POS_INF_BITS, blow_up_meters: NEG_INF_BITS, ..row }
    } else {
        row
    }
}

/// Re-map the degenerate blow-up pairs of a loaded sample.  This step
/// keeps undefined blow-up cases out of the body of the distribution.
pub fn remap_degenerate(rows: Vec<DataRow>) -> (r: Vec<DataRow>)
    ensures
        r@.len() == rows@.len(),
        forall|i: int| 0 <= i < rows@.len() ==> r@[i] == spec_remap_row(#[trigger] rows@[i]),
{
    let mut out: Vec<DataRow> = Vec::new();
    let mut i: usize = 0;
    while i < rows.len()
        invariant
            0 <= i <= rows@.len(),
            out@.len() == i,
            forall|k: int| 0 <= k < i ==> out@[k] == spec_remap_row(#[trigger] rows@[k]),
        decreases rows@.len() - i,
    {
        let row = rows[i];
        if !nan_bits(row.blow_up_meters) && lt_of(row.blow_up_meters, BLOW_UP_METERS_MIN_BITS) {
            out.push(
                DataRow { blow_up_dt: POS_INF_BITS, blow_up_meters: NEG_INF_BITS, ..row },
            );
        } else {
            out.push(row);
        }
        i = i + 1;
    }
    out
}

/// The key-order comparison as a relation value.
pub open spec fn le_bits_fn() -> spec_fn(u64, u64) -> bool {
    |a: u64, b: u64| le_bits(a, b)
}

/// The key order is a total ordering on bit patterns.
pub proof fn lemma_le_bits_total_ordering()
    ensures
        total_ordering(le_bits_fn()),
{
    assert forall|a: u64, b: u64| #[trigger] le_bits_fn()(a, b) && le_bits_fn()(b, a) implies a
        == b by {
        crate::fbits::lemma_order_key_injective(a, b);
    }
}

/// The sorted, NaN-free sample a CDF holds for a raw sample.
pub open spec fn spec_cdf(sample: Seq<u64>) -> Seq<u64> {
    non_nan(sample).sort_by(le_bits_fn())
}

/// The decile ladder of a raw sample: the 0th, 10th, ..., 100th
/// percentiles of its sorted NaN-free values.
pub open spec fn spec_deciles_of(sample: Seq<u64>) -> Seq<u64> {
    let s = spec_cdf(sample);
    Seq::new(11, |k: int| s[rank_index_spec(10 * k, s.len() as int)])
}

/// Compute the decile ladder of a sample: absent exactly when nothing
/// is left of the sample once NaN patterns are discarded.
pub fn compute_deciles(sample: Vec<u64>) -> (r: Option<Deciles>)
    ensures
        r is Some <==> non_nan(sample@).len() > 0,
        r is Some ==> r.unwrap().values() == spec_deciles_of(sample@),
{
    let ghost sample_seq = sample@;
    let cdf = CumulativeDistribution::new(sample);
    if cdf.len() == 0 {
        return None;
    }
    let d = cdf.deciles();
    proof {
        lemma_le_bits_total_ordering();
        non_nan(sample_seq).lemma_sort_by_ensures(le_bits_fn());
        assert(sorted_by(cdf.values(), le_bits_fn())) by {
            assert(forall|i: int, j: int|
                0 <= i < j < cdf.values().len() ==> #[trigger] le_bits_fn()(
                    cdf.values()[i],
                    cdf.values()[j],
                ));
        }
        vstd::seq_lib::lemma_sorted_unique(cdf.values(), spec_cdf(sample_seq), le_bits_fn());
        assert(cdf.values() == spec_cdf(sample_seq));
        assert(d.values() =~= spec_deciles_of(sample_seq));
    }
    Some(d)
}

/// Decile monotonicity: over any sample with values left after NaN
/// removal, the decile ladder is non-decreasing in the key order, its
/// first entry is the sample minimum and its last the sample maximum.
pub proof fn lemma_deciles_monotonic(sample: Seq<u64>)
    requires
        non_nan(sample).len() > 0,
    ensures
        spec_deciles_of(sample).len() == 11,
        forall|k1: int, k2: int|
            0 <= k1 <= k2 < 11 ==> le_bits(
                #[trigger] spec_deciles_of(sample)[k1],
                #[trigger] spec_deciles_of(sample)[k2],
            ),
        spec_deciles_of(sample)[0] == spec_cdf(sample)[0],
        spec_deciles_of(sample)[10] == spec_cdf(sample)[spec_cdf(sample).len() - 1],
        forall|i: int|
            0 <= i < spec_cdf(sample).len() ==> le_bits(
                spec_deciles_of(sample)[0],
                #[trigger] spec_cdf(sample)[i],
            ) && le_bits(#[trigger] spec_cdf(sample)[i], spec_deciles_of(sample)[10]),
{
    lemma_le_bits_total_ordering();
    non_nan(sample).lemma_sort_by_ensures(le_bits_fn());
    let s = spec_cdf(sample);
    let d = spec_deciles_of(sample);
    assert(s.len() == non_nan(sample).len()) by {
        broadcast use vstd::seq_lib::to_multiset_len;
        assert(s.to_multiset() == non_nan(sample).to_multiset());
        assert(s.to_multiset().len() == s.len());
        assert(non_nan(sample).to_multiset().len() == non_nan(sample).len());
    }
    let nn = s.len() as int;
    assert forall|p1: int, p2: int| 0 <= p1 <= p2 <= 100 implies rank_index_spec(p1, nn)
        <= rank_index_spec(p2, nn) by {
        assert(p1 * (nn - 1) <= p2 * (nn - 1)) by (nonlinear_arith)
            requires 0 <= p1 <= p2 && nn >= 1;
        vstd::arithmetic::div_mod::lemma_div_is_ordered(
            p1 * (nn - 1) + 50,
            p2 * (nn - 1) + 50,
            100,
        );
    }
    assert forall|p: int| 0 <= p <= 100 implies 0 <= #[trigger] rank_index_spec(p, nn) < nn by {
        crate::distributions::lemma_rank_index_in_bounds(p, nn);
    }
    assert(rank_index_spec(0, nn) == 0) by (nonlinear_arith)
        requires nn >= 1;
    assert(rank_index_spec(100, nn) == nn - 1) by (nonlinear_arith)
        requires nn >= 1;
    assert forall|k1: int, k2: int| 0 <= k1 <= k2 < 11 implies le_bits(
        #[trigger] d[k1],
        #[trigger] d[k2],
    ) by {
        assert(d[k1] == s[rank_index_spec(10 * k1, nn)]);
        assert(d[k2] == s[rank_index_spec(10 * k2, nn)]);
        if rank_index_spec(10 * k1, nn) < rank_index_spec(10 * k2, nn) {
            assert(le_bits_fn()(
                s[rank_index_spec(10 * k1, nn)],
                s[rank_index_spec(10 * k2, nn)],
            ));
        }
    }
    assert forall|i: int| 0 <= i < s.len() implies le_bits(d[0], #[trigger] s[i]) && le_bits(
        s[i],
        d[10],
    ) by {
        if 0 < i {
            assert(le_bits_fn()(s[0], s[i]));
        }
        if i < nn - 1 {
            assert(le_bits_fn()(s[i], s[nn - 1]));
        }
    }
}

/// Whether a row lands in the bucket at `doy` and `hour`: its date within
/// the 7-day circular window of `doy` and its hour exactly `hour`.
pub open spec fn in_bucket(row: DataRow, doy: int, hour: int) -> bool {
    window_contains_spec(
        spec_window_for(doy, 7),
        row.valid_time.month as int,
        row.valid_time.day as int,
    ) && row.valid_time.hour == hour
}

/// The rows of a sample that land in one bucket.
pub open spec fn bucket_rows(data: Seq<DataRow>, doy: int, hour: int) -> Seq<DataRow> {
    data.filter(|row: DataRow| in_bucket(row, doy, hour))
}

/// One statistic's sample over a bucket.
pub open spec fn hdw_sample(data: Seq<DataRow>, doy: int, hour: int) -> Seq<u64> {
    bucket_rows(data, doy, hour).map_values(|row: DataRow| row.hdw)
}

/// One statistic's sample over a bucket.
pub open spec fn dt_sample(data: Seq<DataRow>, doy: int, hour: int) -> Seq<u64> {
    bucket_rows(data, doy, hour).map_values(|row: DataRow| row.blow_up_dt)
}

/// One statistic's sample over a bucket.
pub open spec fn meters_sample(data: Seq<DataRow>, doy: int, hour: int) -> Seq<u64> {
    bucket_rows(data, doy, hour).map_values(|row: DataRow| row.blow_up_meters)
}

/// One statistic's sample over a bucket.
pub open spec fn dcape_sample(data: Seq<DataRow>, doy: int, hour: int) -> Seq<u64> {
    bucket_rows(data, doy, hour).map_values(|row: DataRow| row.dcape)
}

/// A bucket earns a row exactly when every tracked statistic still has
/// sample values once NaN patterns are discarded.  Absence of a bucket
/// means insufficient history, not zero.
pub open spec fn bucket_eligible(data: Seq<DataRow>, doy: int, hour: int) -> bool {
    &&& non_nan(hdw_sample(data, doy, hour)).len() > 0
    &&& non_nan(dt_sample(data, doy, hour)).len() > 0
    &&& non_nan(meters_sample(data, doy, hour)).len() > 0
    &&& non_nan(dcape_sample(data, doy, hour)).len() > 0
}

/// A produced entry is faithful to its bucket: key in range, bucket
/// eligible, and each ladder the deciles of its statistic's sample.
pub open spec fn entry_correct(data: Seq<DataRow>, en: DecileEntry) -> bool {
    &&& 1 <= en.0 <= 365
    &&& en.1 < 24
    &&& bucket_eligible(data, en.0 as int, en.1 as int)
    &&& en.2.values() == spec_deciles_of(hdw_sample(data, en.0 as int, en.1 as int))
    &&& en.3.values() == spec_deciles_of(dt_sample(data, en.0 as int, en.1 as int))
    &&& en.4.values() == spec_deciles_of(meters_sample(data, en.0 as int, en.1 as int))
    &&& en.5.values() == spec_deciles_of(dcape_sample(data, en.0 as int, en.1 as int))
}

/// Strict lexicographic order on bucket keys.
pub open spec fn entry_key_before(a: DecileEntry, doy: int, hour: int) -> bool {
    a.0 < doy || (a.0 == doy && a.1 < hour)
}

/// The produced entries so far: every one faithful to its bucket, and
/// in strictly ascending key order.
pub open spec fn entries_wf(data: Seq<DataRow>, r: Seq<DecileEntry>) -> bool {
    &&& forall|i: int| 0 <= i < r.len() ==> entry_correct(data, #[trigger] r[i])
    &&& forall|i: int, j: int|
        0 <= i < j < r.len() ==> entry_key_before(
            #[trigger] r[i],
            (#[trigger] r[j]).0 as int,
            r[j].1 as int,
        )
}

/// Every eligible bucket whose key precedes (doy, hour) already has an
/// entry.
pub open spec fn entries_complete_upto(
    data: Seq<DataRow>,
    r: Seq<DecileEntry>,
    doy: int,
    hour: int,
) -> bool {
    forall|d2: int, h2: int|
        1 <= d2 <= 365 && 0 <= h2 < 24 && (d2 < doy || (d2 == doy && h2 < hour))
            && #[trigger] bucket_eligible(data, d2, h2) ==> exists|i: int|
            0 <= i < r.len() && (#[trigger] r[i]).0 == d2 && r[i].1 == h2
}

/// Create deciles: one entry per (day of year, hour of day) bucket, in
/// ascending key order, for exactly the buckets whose four statistic
/// samples are non-empty once NaN patterns are discarded.  Day 366 of
/// leap years is never a bucket key; its rows fall into the windows of
/// neighboring days.
pub fn create_deciles(data: &Vec<DataRow>) -> (r: Vec<DecileEntry>)
    ensures
        entries_wf(data@, r@),
        entries_complete_upto(data@, r@, 366, 0),
{
    let mut to_ret: Vec<DecileEntry> = Vec::new();
    let mut day_of_year: u32 = 1;
    while day_of_year <= 365
        invariant
            1 <= day_of_year <= 366,
            entries_wf(data@, to_ret@),
            forall|i: int|
                0 <= i < to_ret@.len() ==> entry_key_before(
                    #[trigger] to_ret@[i],
                    day_of_year as int,
                    0,
                ),
            entries_complete_upto(data@, to_ret@, day_of_year as int, 0),
        decreases 366 - day_of_year,
    {
        let in_window = make_window_func(day_of_year, 7);
        let ghost doy_i = day_of_year as int;
        let mut hour: u32 = 0;
        while hour < 24
            invariant
                1 <= day_of_year <= 365,
                hour <= 24,
                doy_i == day_of_year as int,
                in_window == spec_window_for(doy_i, 7),
                entries_wf(data@, to_ret@),
                forall|i: int|
                    0 <= i < to_ret@.len() ==> entry_key_before(
                        #[trigger] to_ret@[i],
                        doy_i,
                        hour as int,
                    ),
                entries_complete_upto(data@, to_ret@, doy_i, hour as int),
            decreases 24 - hour,
        {
            let ghost hour_i = hour as int;
            let mut hdw_vec: Vec<u64> = Vec::new();
            let mut dt_vec: Vec<u64> = Vec::new();
            let mut meters_vec: Vec<u64> = Vec::new();
            let mut dcape_vec: Vec<u64> = Vec::new();
            let mut idx: usize = 0;
            while idx < data.len()
                invariant
                    0 <= idx <= data@.len(),
                    1 <= doy_i <= 365,
                    0 <= hour_i < 24,
                    hour_i == hour as int,
                    in_window == spec_window_for(doy_i, 7),
                    hdw_vec@ == hdw_sample(data@.take(idx as int), doy_i, hour_i),
                    dt_vec@ == dt_sample(data@.take(idx as int), doy_i, hour_i),
                    meters_vec@ == meters_sample(data@.take(idx as int), doy_i, hour_i),
                    dcape_vec@ == dcape_sample(data@.take(idx as int), doy_i, hour_i),
                decreases data@.len() - idx,
            {
                let row = data[idx];
                proof {
                    reveal(Seq::filter);
                    assert(data@.take(idx + 1).drop_last() =~= data@.take(idx as int));
                    assert(data@.take(idx + 1).last() == data@[idx as int]);
                }
                if in_window.contains(row.valid_time.month, row.valid_time.day)
                    && row.valid_time.hour == hour {
                    hdw_vec.push(row.hdw);
                    dt_vec.push(row.blow_up_dt);
                    meters_vec.push(row.blow_up_meters);
                    dcape_vec.push(row.dcape);
                    proof {
                        assert(in_bucket(data@[idx as int], doy_i, hour_i));
                        assert(bucket_rows(data@.take(idx + 1), doy_i, hour_i) =~= bucket_rows(
                            data@.take(idx as int),
                            doy_i,
                            hour_i,
                        ).push(data@[idx as int]));
                        assert(hdw_sample(data@.take(idx + 1), doy_i, hour_i) =~= hdw_sample(
                            data@.take(idx as int),
                            doy_i,
                            hour_i,
                        ).push(row.hdw));
                        assert(dt_sample(data@.take(idx + 1), doy_i, hour_i) =~= dt_sample(
                            data@.take(idx as int),
                            doy_i,
                            hour_i,
                        ).push(row.blow_up_dt));
                        assert(meters_sample(data@.take(idx + 1), doy_i, hour_i) =~= meters_sample(
                            data@.take(idx as int),
                            doy_i,
                            hour_i,
                        ).push(row.blow_up_meters));
                        assert(dcape_sample(data@.take(idx + 1), doy_i, hour_i) =~= dcape_sample(
                            data@.take(idx as int),
                            doy_i,
                            hour_i,
                        ).push(row.dcape));
                    }
                } else {
                    proof {
                        assert(!in_bucket(data@[idx as int], doy_i, hour_i));
                        assert(bucket_rows(data@.take(idx + 1), doy_i, hour_i) =~= bucket_rows(
                            data@.take(idx as int),
                            doy_i,
                            hour_i,
                        ));
                        assert(hdw_sample(data@.take(idx + 1), doy_i, hour_i) =~= hdw_sample(
                            data@.take(idx as int),
                            doy_i,
                            hour_i,
                        ));
                        assert(dt_sample(data@.take(idx + 1), doy_i, hour_i) =~= dt_sample(
                            data@.take(idx as int),
                            doy_i,
                            hour_i,
                        ));
                        assert(meters_sample(data@.take(idx + 1), doy_i, hour_i) =~= meters_sample(
                            data@.take(idx as int),
                            doy_i,
                            hour_i,
                        ));
                        assert(dcape_sample(data@.take(idx + 1), doy_i, hour_i) =~= dcape_sample(
                            data@.take(idx as int),
                            doy_i,
                            hour_i,
                        ));
                    }
                }
                idx = idx + 1;
            }
            proof {
                assert(data@.take(data@.len() as int) =~= data@);
            }
            let hdw_d = compute_deciles(hdw_vec);
            let dt_d = compute_deciles(dt_vec);
            let meters_d = compute_deciles(meters_vec);
            let dcape_d = compute_deciles(dcape_vec);
            let ghost old_ret = to_ret@;
            match (hdw_d, dt_d, meters_d, dcape_d) {
                (Some(h), Some(t), Some(mm), Some(dc)) => {
                    let en = (day_of_year, hour, h, t, mm, dc);
                    proof {
                        assert(entry_correct(data@, en));
                    }
                    to_ret.push(en);
                    proof {
                        assert forall|d2: int, h2: int|
                            1 <= d2 <= 365 && 0 <= h2 < 24 && (d2 < doy_i || (d2 == doy_i && h2
                                < hour_i + 1)) && #[trigger] bucket_eligible(
                                data@,
                                d2,
                                h2,
                            ) implies exists|i: int|
                            0 <= i < to_ret@.len() && (#[trigger] to_ret@[i]).0 == d2
                                && to_ret@[i].1 == h2 by {
                            if d2 == doy_i && h2 == hour_i {
                                assert(to_ret@[to_ret@.len() - 1].0 == d2);
                            } else {
                                let wi = choose|i: int|
                                    0 <= i < old_ret.len() && (#[trigger] old_ret[i]).0 == d2
                                        && old_ret[i].1 == h2;
                                assert(to_ret@[wi].0 == d2 && to_ret@[wi].1 == h2);
                            }
                        }
                    }
                },
                _ => {
                    proof {
                        assert(!bucket_eligible(data@, doy_i, hour_i));
                        assert forall|d2: int, h2: int|
                            1 <= d2 <= 365 && 0 <= h2 < 24 && (d2 < doy_i || (d2 == doy_i && h2
                                < hour_i + 1)) && #[trigger] bucket_eligible(
                                data@,
                                d2,
                                h2,
                            ) implies exists|i: int|
                            0 <= i < to_ret@.len() && (#[trigger] to_ret@[i]).0 == d2
                                && to_ret@[i].1 == h2 by {
                            let wi = choose|i: int|
                                0 <= i < old_ret.len() && (#[trigger] old_ret[i]).0 == d2
                                    && old_ret[i].1 == h2;
                            assert(to_ret@[wi].0 == d2 && to_ret@[wi].1 == h2);
                        }
                    }
                },
            }
            hour = hour + 1;
        }
        day_of_year = day_of_year + 1;
    }
    to_ret
}

/// How many distribution records are buffered before a batch is handed
/// to the writer.
pub const CDF_BUFSIZE: usize = 100;

/// One buffered distribution record: the bucket key and the four decile
/// ladders for one site and model.
#[derive(Clone, Copy, Debug)]
pub struct CdfRecord {
    pub station_num: u32,
    pub model: Model,
    pub day_of_year: u32,
    pub hour: u32,
    pub hdw_dist: Deciles,
    pub dt_dist: Deciles,
    pub meters_dist: Deciles,
    pub dcape_dist: Deciles,
}

/// One row ready for the distribution store: the key columns and one
/// serialized blob per tracked statistic.
#[derive(Clone, Debug)]
pub struct CdfRow {
    pub station_num: u32,
    pub model: Model,
    pub day_of_year: u32,
    pub hour: u32,
    pub hdw_blob: Vec<u8>,
    pub dt_blob: Vec<u8>,
    pub meters_blob: Vec<u8>,
    pub dcape_blob: Vec<u8>,
}

/// A store row is the faithful serialization of a buffered record.
pub open spec fn cdf_row_matches(rec: CdfRecord, row: CdfRow) -> bool {
    &&& row.station_num == rec.station_num
    &&& row.model == rec.model
    &&& row.day_of_year == rec.day_of_year
    &&& row.hour == rec.hour
    &&& row.hdw_blob@ == deciles_to_bytes(rec.hdw_dist.values())
    &&& row.dt_blob@ == deciles_to_bytes(rec.dt_dist.values())
    &&& row.meters_blob@ == deciles_to_bytes(rec.meters_dist.values())
    &&& row.dcape_blob@ == deciles_to_bytes(rec.dcape_dist.values())
}

/// The buffering front of the distribution store's writer: records are
/// collected and handed out in batches, serialized, for the store owner
/// to commit in one transaction.
pub struct ClimoCDFBuilderInterface {
    buffer: Vec<CdfRecord>,
}

impl ClimoCDFBuilderInterface {
    /// The records buffered and not yet handed out.
    pub closed spec fn buffered(&self) -> Seq<CdfRecord> {
        self.buffer@
    }

    /// Initialize the interface with an empty buffer.
    pub fn initialize() -> (r: Self)
        ensures
            r.buffered().len() == 0,
    {
        ClimoCDFBuilderInterface { buffer: Vec::new() }
    }

    /// Serialize one buffered record into a store row.
    fn row_of(rec: &CdfRecord) -> (r: CdfRow)
        ensures
            cdf_row_matches(*rec, r),
    {
        CdfRow {
            station_num: rec.station_num,
            model: rec.model,
            day_of_year: rec.day_of_year,
            hour: rec.hour,
            hdw_blob: rec.hdw_dist.as_bytes(),
            dt_blob: rec.dt_dist.as_bytes(),
            meters_blob: rec.meters_dist.as_bytes(),
            dcape_blob: rec.dcape_dist.as_bytes(),
        }
    }

    /// Hand out every buffered record as a serialized row, leaving the
    /// buffer empty.
    pub fn flush(&mut self) -> (rows: Vec<CdfRow>)
        ensures
            final(self).buffered().len() == 0,
            rows@.len() == old(self).buffered().len(),
            forall|i: int|
                0 <= i < rows@.len() ==> cdf_row_matches(
                    old(self).buffered()[i],
                    #[trigger] rows@[i],
                ),
    {
        let mut rows: Vec<CdfRow> = Vec::new();
        let mut i: usize = 0;
        while i < self.buffer.len()
            invariant
                0 <= i <= self.buffer@.len(),
                self.buffer@ == old(self).buffer@,
                rows@.len() == i,
                forall|k: int|
                    0 <= k < i ==> cdf_row_matches(old(self).buffered()[k], #[trigger] rows@[k]),
            decreases self.buffer@.len() - i,
        {
            let row = Self::row_of(&self.buffer[i]);
            rows.push(row);
            i = i + 1;
        }
        self.buffer.clear();
        rows
    }

    /// Add deciles bound for the store.  Returns a full batch of
    /// serialized rows once the buffer reaches its size, and nothing
    /// otherwise.
    pub fn add_to_db(
        &mut self,
        site: &SiteInfo,
        model: Model,
        day_of_year: u32,
        hour: u32,
        dists: (Deciles, Deciles, Deciles, Deciles),
    ) -> (out: Option<Vec<CdfRow>>)
        ensures
            ({
                let rec = CdfRecord {
                    station_num: site.station_num,
                    model,
                    day_of_year,
                    hour,
                    hdw_dist: dists.0,
                    dt_dist: dists.1,
                    meters_dist: dists.2,
                    dcape_dist: dists.3,
                };
                if old(self).buffered().len() + 1 >= CDF_BUFSIZE {
                    &&& out is Some
                    &&& final(self).buffered().len() == 0
                    &&& out.unwrap()@.len() == old(self).buffered().len() + 1
                    &&& forall|i: int|
                        0 <= i < out.unwrap()@.len() ==> cdf_row_matches(
                            old(self).buffered().push(rec)[i],
                            #[trigger] out.unwrap()@[i],
                        )
                } else {
                    &&& out is None
                    &&& final(self).buffered() == old(self).buffered().push(rec)
                }
            }),
    {
        let rec = CdfRecord {
            station_num: site.station_num,
            model,
            day_of_year,
            hour,
            hdw_dist: dists.0,
            dt_dist: dists.1,
            meters_dist: dists.2,
            dcape_dist: dists.3,
        };
        self.buffer.push(rec);
        if self.buffer.len() >= CDF_BUFSIZE {
            Some(self.flush())
        } else {
            None
        }
    }
}

/// An element of a filtered sequence is an element of the original.
proof fn lemma_filter_elem_contained(s: Seq<u64>, pred: spec_fn(u64) -> bool, x: u64)
    requires
        s.filter(pred).contains(x),
    ensures
        s.contains(x),
    decreases s.len(),
{
    reveal(Seq::filter);
    if s.len() == 0 {
    } else if pred(s.last()) && x == s.last() {
        assert(s[s.len() - 1] == x);
    } else {
        assert(s.drop_last().filter(pred).contains(x)) by {
            if pred(s.last()) {
                let f = s.drop_last().filter(pred).push(s.last());
                let i = choose|i: int| 0 <= i < f.len() && f[i] == x;
                assert(i < f.len() - 1);
                assert(s.drop_last().filter(pred)[i] == x);
            }
        }
        lemma_filter_elem_contained(s.drop_last(), pred, x);
        let j = choose|j: int| 0 <= j < s.drop_last().len() && s.drop_last()[j] == x;
        assert(s[j] == x);
    }
}

/// A sample whose every value is the same non-NaN pattern has every
/// decile equal to that pattern.
pub proof fn lemma_deciles_of_constant_sample(sample: Seq<u64>, v: u64)
    requires
        sample.len() > 0,
        forall|i: int| 0 <= i < sample.len() ==> #[trigger] sample[i] == v,
        !is_nan_bits(v),
    ensures
        non_nan(sample).len() > 0,
        forall|k: int| 0 <= k < 11 ==> #[trigger] spec_deciles_of(sample)[k] == v,
{
    broadcast use vstd::seq_lib::group_filter_ensures;
    broadcast use vstd::seq_lib::to_multiset_contains;

    let fs = non_nan(sample);
    assert(sample.contains(v)) by {
        assert(sample[0] == v);
    }
    assert(fs.contains(v));
    assert(fs.len() > 0);
    assert forall|i: int| 0 <= i < fs.len() implies #[trigger] fs[i] == v by {
        assert(fs.contains(fs[i]));
        lemma_filter_elem_contained(sample, |b: u64| !is_nan_bits(b), fs[i]);
        let j = choose|j: int| 0 <= j < sample.len() && sample[j] == fs[i];
        assert(sample[j] == v);
    }
    lemma_le_bits_total_ordering();
    fs.lemma_sort_by_ensures(le_bits_fn());
    let s = spec_cdf(sample);
    assert(s.to_multiset().len() == fs.to_multiset().len()) by {
        broadcast use vstd::seq_lib::to_multiset_len;
    }
    assert(s.len() == fs.len()) by {
        broadcast use vstd::seq_lib::to_multiset_len;
    }
    assert forall|i: int| 0 <= i < s.len() implies #[trigger] s[i] == v by {
        assert(s.contains(s[i]));
        assert(s.to_multiset().count(s[i]) > 0);
        assert(fs.to_multiset().count(s[i]) > 0);
        assert(fs.contains(s[i]));
        let j = choose|j: int| 0 <= j < fs.len() && fs[j] == s[i];
        assert(fs[j] == v);
    }
    assert forall|k: int| 0 <= k < 11 implies #[trigger] spec_deciles_of(sample)[k] == v by {
        crate::distributions::lemma_rank_index_in_bounds(10 * k, s.len() as int);
    }
}

/// The blow-up heights of a sequence of rows.
pub open spec fn meters_of(rows: Seq<DataRow>) -> Seq<u64> {
    rows.map_values(|row: DataRow| row.blow_up_meters)
}

/// Degenerate-value remapping, stated over a whole sample: where every
/// blow-up height sits below the floor, every re-mapped height is
/// negative infinity and every re-mapped time positive infinity, so the
/// height deciles of the re-mapped sample are all negative infinity.
pub proof fn lemma_degenerate_remap_floor(rows: Seq<DataRow>, remapped: Seq<DataRow>)
    requires
        rows.len() > 0,
        remapped.len() == rows.len(),
        forall|i: int| 0 <= i < rows.len() ==> remapped[i] == spec_remap_row(#[trigger] rows[i]),
        forall|i: int|
            0 <= i < rows.len() ==> !is_nan_bits((#[trigger] rows[i]).blow_up_meters) && lt_bits(
                rows[i].blow_up_meters,
                BLOW_UP_METERS_MIN_BITS,
            ),
    ensures
        forall|i: int|
            0 <= i < remapped.len() ==> (#[trigger] remapped[i]).blow_up_meters == NEG_INF_BITS
                && remapped[i].blow_up_dt == POS_INF_BITS,
        forall|k: int|
            0 <= k < 11 ==> #[trigger] spec_deciles_of(meters_of(remapped))[k] == NEG_INF_BITS,
{
    assert forall|i: int|
        0 <= i < remapped.len() implies (#[trigger] remapped[i]).blow_up_meters == NEG_INF_BITS
        && remapped[i].blow_up_dt == POS_INF_BITS by {
        assert(remapped[i] == spec_remap_row(rows[i]));
    }
    let sample = meters_of(remapped);
    assert(forall|i: int| 0 <= i < sample.len() ==> #[trigger] sample[i] == NEG_INF_BITS);
    assert(!is_nan_bits(NEG_INF_BITS)) by {
        assert(0xfff0_0000_0000_0000u64 & 0x000f_ffff_ffff_ffffu64 == 0) by (bit_vector);
    }
    lemma_deciles_of_constant_sample(sample, NEG_INF_BITS);
}

} // verus!
