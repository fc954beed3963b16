//! The buffering front of the statistics store's writer.
//!
//! Completed records are buffered and handed out in transactional
//! batches of rows; statistics rows carry the local-calendar columns
//! (the valid time shifted by the site's UTC offset) the later
//! bucketing steps rely on.  Statistics rows are keyed upserts; location
//! rows are first-writer-wins inserts; both make re-ingest idempotent,
//! which is proved here over a map model of the store.

use vstd::prelude::*;
use vstd::map::*;

use crate::calendar::{add_offset, spec_add_offset, valid_time_wf, ValidTime};
use crate::stats_record::StatsRecord;
use crate::types::Model;

verus! {

/// How many records are buffered before a transactional batch is handed
/// to the writer.
pub const POPULATE_BUFSIZE: usize = 4096;

/// One statistics row: the natural key, the local-calendar columns, and
/// the derived statistics (absent where the derivation failed).
#[derive(Clone, Debug)]
pub struct CliRow {
    pub station_num: u32,
    pub model: Model,
    pub valid_time: ValidTime,
    pub year_lcl: i32,
    pub month_lcl: u32,
    pub day_lcl: u32,
    pub hour_lcl: u32,
    pub hdw: Option<i32>,
    pub blow_up_dt: Option<u64>,
    pub blow_up_meters: Option<i32>,
    pub dcape: Option<i32>,
}

/// One location row: unique over the full value tuple.
#[derive(Clone, Debug)]
pub struct LocRow {
    pub station_num: u32,
    pub name: String,
    pub model: Model,
    pub lat: u64,
    pub lon: u64,
    pub elev_m: u64,
}

/// One row bound for the statistics store.
#[derive(Clone, Debug)]
pub enum StoreRow {
    Cli(CliRow),
    Loc(LocRow),
}

/// The site's UTC offset in seconds, defaulting to zero.
pub open spec fn spec_offset_of(rec: StatsRecord) -> int {
    match rec {
        StatsRecord::CliData { site, .. } => if site.time_zone_secs is Some {
            site.time_zone_secs.unwrap() as int
        } else {
            0
        },
        StatsRecord::Location { .. } => 0,
    }
}

/// The store row a record flushes to: statistics records gain their
/// local-calendar columns, location records their site name.
pub open spec fn spec_row_of(rec: StatsRecord) -> StoreRow {
    match rec {
        StatsRecord::CliData { site, model, valid_time, hdw, blow_up_dt, blow_up_meters, dcape } => {
            let lcl = spec_add_offset(valid_time, spec_offset_of(rec));
            StoreRow::Cli(
                CliRow {
                    station_num: site.station_num,
                    model,
                    valid_time,
                    year_lcl: lcl.year,
                    month_lcl: lcl.month,
                    day_lcl: lcl.day,
                    hour_lcl: lcl.hour,
                    hdw,
                    blow_up_dt,
                    blow_up_meters,
                    dcape,
                },
            )
        },
        StatsRecord::Location { site, model, lat, lon, elev_m } => StoreRow::Loc(
            LocRow {
                station_num: site.station_num,
                name: site.name.unwrap(),
                model,
                lat,
                lon,
                elev_m,
            },
        ),
    }
}

/// A record the writer can take: a statistics record with a sound
/// timestamp and a bounded offset, or a location record of a named site.
pub open spec fn stats_record_wf(rec: StatsRecord) -> bool {
    match rec {
        StatsRecord::CliData { site, valid_time, .. } => {
            &&& valid_time_wf(valid_time)
            &&& 1 < valid_time.year < 9999
            &&& (site.time_zone_secs is Some ==> -86400 <= site.time_zone_secs.unwrap() <= 86400)
        },
        StatsRecord::Location { site, .. } => site.name is Some,
    }
}

/// Convert one record into its store row.
fn row_of(rec: &StatsRecord) -> (r: StoreRow)
    requires
        stats_record_wf(*rec),
    ensures
        r == spec_row_of(*rec),
{
    match rec {
        StatsRecord::CliData { site, model, valid_time, hdw, blow_up_dt, blow_up_meters, dcape } => {
            let off: i32 = match site.time_zone_secs {
                Some(secs) => secs,
                None => 0,
            };
            let lcl = add_offset(valid_time, off);
            StoreRow::Cli(
                CliRow {
                    station_num: site.station_num,
                    model: *model,
                    valid_time: *valid_time,
                    year_lcl: lcl.year,
                    month_lcl: lcl.month,
                    day_lcl: lcl.day,
                    hour_lcl: lcl.hour,
                    hdw: *hdw,
                    blow_up_dt: *blow_up_dt,
                    blow_up_meters: *blow_up_meters,
                    dcape: *dcape,
                },
            )
        },
        StatsRecord::Location { site, model, lat, lon, elev_m } => {
            let name: String = match &site.name {
                Some(n) => n.clone(),
                None => String::new(),
            };
            StoreRow::Loc(
                LocRow {
                    station_num: site.station_num,
                    name,
                    model: *model,
                    lat: *lat,
                    lon: *lon,
                    elev_m: *elev_m,
                },
            )
        },
    }
}

/// The struct buffers records bound for the statistics store and hands
/// them out in transactional batches.
pub struct ClimoPopulateInterface {
    write_buffer: Vec<StatsRecord>,
}

impl ClimoPopulateInterface {
    /// The records buffered and not yet handed out.
    pub closed spec fn buffered(&self) -> Seq<StatsRecord> {
        self.write_buffer@
    }

    /// Every buffered record is one the writer can take.
    pub open spec fn wf(&self) -> bool {
        forall|i: int| 0 <= i < self.buffered().len() ==> stats_record_wf(#[trigger] self.buffered()[i])
    }

    /// Initialize the interface with an empty buffer.
    pub fn initialize() -> (r: Self)
        ensures
            r.buffered().len() == 0,
            r.wf(),
    {
        ClimoPopulateInterface { write_buffer: Vec::new() }
    }

    /// Hand out every buffered record as a store row, leaving the
    /// buffer empty.
    pub fn flush(&mut self) -> (rows: Vec<StoreRow>)
        requires
            old(self).wf(),
        ensures
            final(self).buffered().len() == 0,
            final(self).wf(),
            rows@.len() == old(self).buffered().len(),
            forall|i: int|
                0 <= i < rows@.len() ==> #[trigger] rows@[i] == spec_row_of(
                    old(self).buffered()[i],
                ),
    {
        let mut rows: Vec<StoreRow> = Vec::new();
        let mut i: usize = 0;
        while i < self.write_buffer.len()
            invariant
                0 <= i <= self.write_buffer@.len(),
                self.write_buffer@ == old(self).write_buffer@,
                old(self).wf(),
                rows@.len() == i,
                forall|k: int|
                    0 <= k < i ==> #[trigger] rows@[k] == spec_row_of(old(self).buffered()[k]),
            decreases self.write_buffer@.len() - i,
        {
            let row = row_of(&self.write_buffer[i]);
            rows.push(row);
            i = i + 1;
        }
        self.write_buffer.clear();
        rows
    }

    /// Buffer one record.  Returns a full transactional batch of rows
    /// once the buffer reaches its size, and nothing otherwise.
    pub fn add(&mut self, record: StatsRecord) -> (out: Option<Vec<StoreRow>>)
        requires
            old(self).wf(),
            stats_record_wf(record),
        ensures
            final(self).wf(),
            if old(self).buffered().len() + 1 >= POPULATE_BUFSIZE {
                &&& out is Some
                &&& final(self).buffered().len() == 0
                &&& out.unwrap()@.len() == old(self).buffered().len() + 1
                &&& forall|i: int|
                    0 <= i < out.unwrap()@.len() ==> #[trigger] out.unwrap()@[i] == spec_row_of(
                        old(self).buffered().push(record)[i],
                    )
            } else {
                &&& out is None
                &&& final(self).buffered() == old(self).buffered().push(record)
            },
    {
        self.write_buffer.push(record);
        if self.write_buffer.len() >= POPULATE_BUFSIZE {
            Some(self.flush())
        } else {
            None
        }
    }
}

/// The natural key of a statistics row.
pub open spec fn cli_key(row: CliRow) -> (u32, Model, ValidTime) {
    (row.station_num, row.model, row.valid_time)
}

/// The uniqueness tuple of a location row.
pub open spec fn loc_key(row: LocRow) -> (u32, Model, u64, u64, u64) {
    (row.station_num, row.model, row.lat, row.lon, row.elev_m)
}

/// Apply a sequence of statistics rows to the store as keyed upserts,
/// first to last: the last writer of a key wins.
pub open spec fn apply_cli_upserts(
    m: Map<(u32, Model, ValidTime), CliRow>,
    rows: Seq<CliRow>,
) -> Map<(u32, Model, ValidTime), CliRow>
    decreases rows.len(),
{
    if rows.len() == 0 {
        m
    } else {
        apply_cli_upserts(m, rows.drop_last()).insert(cli_key(rows.last()), rows.last())
    }
}

/// The last row of the sequence carrying a key, if any.
pub open spec fn last_row_for(rows: Seq<CliRow>, k: (u32, Model, ValidTime)) -> Option<CliRow>
    decreases rows.len(),
{
    if rows.len() == 0 {
        None
    } else if cli_key(rows.last()) == k {
        Some(rows.last())
    } else {
        last_row_for(rows.drop_last(), k)
    }
}

/// What a store looks like after a sequence of upserts: at each key,
/// the last row written, or what the store already held.
proof fn lemma_apply_cli_characterized(
    m: Map<(u32, Model, ValidTime), CliRow>,
    rows: Seq<CliRow>,
    k: (u32, Model, ValidTime),
)
    ensures
        apply_cli_upserts(m, rows).dom().contains(k) <==> m.dom().contains(k) || last_row_for(
            rows,
            k,
        ) is Some,
        apply_cli_upserts(m, rows).dom().contains(k) ==> apply_cli_upserts(m, rows)[k] == (
        match last_row_for(rows, k) {
            Some(r) => r,
            None => m[k],
        }),
    decreases rows.len(),
{
    if rows.len() > 0 {
        lemma_apply_cli_characterized(m, rows.drop_last(), k);
    }
}

/// Idempotent re-ingest, upsert half: applying the same statistics rows
/// twice leaves the store exactly as applying them once does.
pub proof fn lemma_cli_upserts_idempotent(
    m: Map<(u32, Model, ValidTime), CliRow>,
    rows: Seq<CliRow>,
)
    ensures
        apply_cli_upserts(apply_cli_upserts(m, rows), rows) == apply_cli_upserts(m, rows),
{
    let m1 = apply_cli_upserts(m, rows);
    let m2 = apply_cli_upserts(m1, rows);
    assert forall|k: (u32, Model, ValidTime)| #[trigger]
        m2.dom().contains(k) == m1.dom().contains(k) && (m1.dom().contains(k) ==> m2[k]
            == m1[k]) by {
        lemma_apply_cli_characterized(m, rows, k);
        lemma_apply_cli_characterized(m1, rows, k);
    }
    assert(m2 =~= m1);
}

/// Apply a sequence of location rows to the store, first to last, with
/// insert-if-absent semantics: the first writer of a key wins.
pub open spec fn apply_loc_inserts(
    m: Map<(u32, Model, u64, u64, u64), LocRow>,
    rows: Seq<LocRow>,
) -> Map<(u32, Model, u64, u64, u64), LocRow>
    decreases rows.len(),
{
    if rows.len() == 0 {
        m
    } else {
        let m1 = apply_loc_inserts(m, rows.drop_last());
        if m1.dom().contains(loc_key(rows.last())) {
            m1
        } else {
            m1.insert(loc_key(rows.last()), rows.last())
        }
    }
}

/// Inserts never remove: the store only grows, and keys present before
/// keep their rows.
proof fn lemma_apply_loc_grows(
    m: Map<(u32, Model, u64, u64, u64), LocRow>,
    rows: Seq<LocRow>,
    k: (u32, Model, u64, u64, u64),
)
    ensures
        m.dom().contains(k) ==> apply_loc_inserts(m, rows).dom().contains(k) && apply_loc_inserts(
            m,
            rows,
        )[k] == m[k],
        apply_loc_inserts(m, rows).dom().contains(k) ==> m.dom().contains(k) || exists|i: int|
            0 <= i < rows.len() && loc_key(#[trigger] rows[i]) == k,
    decreases rows.len(),
{
    if rows.len() > 0 {
        lemma_apply_loc_grows(m, rows.drop_last(), k);
        if !m.dom().contains(k) && apply_loc_inserts(m, rows).dom().contains(k) {
            if apply_loc_inserts(m, rows.drop_last()).dom().contains(k) {
                let i = choose|i: int|
                    0 <= i < rows.drop_last().len() && loc_key(#[trigger] rows.drop_last()[i])
                        == k;
                assert(loc_key(rows[i]) == k);
            } else {
                assert(loc_key(rows[rows.len() - 1]) == k);
            }
        }
    }
}

/// Applying rows whose keys are all present already changes nothing.
proof fn lemma_apply_loc_noop(m: Map<(u32, Model, u64, u64, u64), LocRow>, rows: Seq<LocRow>)
    requires
        forall|i: int| 0 <= i < rows.len() ==> m.dom().contains(loc_key(#[trigger] rows[i])),
    ensures
        apply_loc_inserts(m, rows) == m,
    decreases rows.len(),
{
    if rows.len() > 0 {
        lemma_apply_loc_noop(m, rows.drop_last());
        lemma_apply_loc_grows(m, rows.drop_last(), loc_key(rows.last()));
    }
}

/// Idempotent re-ingest, insert half: applying the same location rows
/// twice leaves the store exactly as applying them once does.
pub proof fn lemma_loc_inserts_idempotent(
    m: Map<(u32, Model, u64, u64, u64), LocRow>,
    rows: Seq<LocRow>,
)
    ensures
        apply_loc_inserts(apply_loc_inserts(m, rows), rows) == apply_loc_inserts(m, rows),
    decreases rows.len(),
{
    let m1 = apply_loc_inserts(m, rows);
    assert forall|i: int| 0 <= i < rows.len() implies m1.dom().contains(
        loc_key(#[trigger] rows[i]),
    ) by {
        lemma_loc_key_present(m, rows, i);
    }
    lemma_apply_loc_noop(m1, rows);
}

/// Every applied row's key is present afterwards.
proof fn lemma_loc_key_present(
    m: Map<(u32, Model, u64, u64, u64), LocRow>,
    rows: Seq<LocRow>,
    i: int,
)
    requires
        0 <= i < rows.len(),
    ensures
        apply_loc_inserts(m, rows).dom().contains(loc_key(rows[i])),
    decreases rows.len(),
{
    if i == rows.len() - 1 {
        lemma_apply_loc_grows(
            apply_loc_inserts(m, rows.drop_last()),
            Seq::empty(),
            loc_key(rows.last()),
        );
    } else {
        lemma_loc_key_present(m, rows.drop_last(), i);
        lemma_apply_loc_grows(apply_loc_inserts(m, rows.drop_last()), Seq::empty(), loc_key(rows[i]));
        assert(rows.drop_last()[i] == rows[i]);
        if apply_loc_inserts(m, rows.drop_last()).dom().contains(loc_key(rows.last())) {
        } else {
        }
    }
}

/// Idempotent re-ingest: re-running the pipeline over an unchanged
/// archive re-produces the same rows, and re-applying the same rows —
/// keyed upserts for statistics, first-writer-wins inserts for
/// locations — leaves both stores exactly as one run leaves them.
pub proof fn lemma_reingest_idempotent(
    cli_store: Map<(u32, Model, ValidTime), CliRow>,
    cli_rows: Seq<CliRow>,
    loc_store: Map<(u32, Model, u64, u64, u64), LocRow>,
    loc_rows: Seq<LocRow>,
)
    ensures
        apply_cli_upserts(apply_cli_upserts(cli_store, cli_rows), cli_rows) == apply_cli_upserts(
            cli_store,
            cli_rows,
        ),
        apply_loc_inserts(apply_loc_inserts(loc_store, loc_rows), loc_rows) == apply_loc_inserts(
            loc_store,
            loc_rows,
        ),
{
    lemma_cli_upserts_idempotent(cli_store, cli_rows);
    lemma_loc_inserts_idempotent(loc_store, loc_rows);
}

} // verus!
