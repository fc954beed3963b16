//! The ingest pipeline's decisions.
//!
//! The pipeline streams raw archived soundings through enumeration,
//! loading, decoding and derivation, persist-eligibility filtering and
//! writing.  The stages run on threads connected by bounded queues; the
//! decision each stage takes for one message is a pure step function
//! here, so a runner performs the outside work (archive reads, the
//! decoder, the derivation functions) and hands the plain results back.
//! A stage that does not handle a message passes it through unchanged.
//! `run_ingest` composes the steps over a finished set of collaborator
//! answers, and carries the pipeline's accounting: how many terminal
//! acknowledgments a batch of load items produces.

use vstd::prelude::*;
use vstd::string::StringExecFns;

use crate::calendar::ValidTime;
use crate::stats_record::{SoundingData, StatsRecord};
use crate::types::{hours_between_runs_spec, Model, SiteInfo};

verus! {

/// A message passed between the stages of the ingest pipeline.  Every
/// message carries the sequence number assigned at enumeration time.
#[derive(Clone, Debug)]
pub enum DataPopulateMsg {
    Load { num: usize, site: SiteInfo, model: Model, init_time: ValidTime },
    Parse { num: usize, site: SiteInfo, model: Model, init_time: ValidTime, data: String },
    CliData { num: usize, site: SiteInfo, model: Model, valid_time: ValidTime, snd: SoundingData },
    Location { num: usize, site: SiteInfo, model: Model, valid_time: ValidTime, snd: SoundingData },
    PopulateCompleted { num: usize, site: SiteInfo, model: Model },
    DataError { num: usize, site: SiteInfo, model: Model, valid_time: ValidTime, msg: String },
    ThreadError(String),
    TerminateThread,
}

/// Copy a site description.
pub fn clone_site(site: &SiteInfo) -> (r: SiteInfo)
    ensures
        r == *site,
{
    SiteInfo {
        station_num: site.station_num,
        name: match &site.name {
            Some(n) => Some(n.clone()),
            None => None,
        },
        time_zone_secs: site.time_zone_secs,
    }
}

/// A sequence with its later duplicates dropped: each element kept at
/// its first occurrence.
pub open spec fn dedup_times(s: Seq<ValidTime>) -> Seq<ValidTime>
    decreases s.len(),
{
    if s.len() == 0 {
        s
    } else if s.drop_last().contains(s.last()) {
        dedup_times(s.drop_last())
    } else {
        dedup_times(s.drop_last()).push(s.last())
    }
}

/// Dropping duplicates keeps exactly the elements.
proof fn lemma_dedup_contains(s: Seq<ValidTime>, x: ValidTime)
    ensures
        dedup_times(s).contains(x) == s.contains(x),
    decreases s.len(),
{
    if s.len() > 0 {
        let dl = s.drop_last();
        let d = dedup_times(s);
        lemma_dedup_contains(dl, x);
        assert(s.contains(x) == (dl.contains(x) || x == s.last())) by {
            if dl.contains(x) {
                let i = choose|i: int| 0 <= i < dl.len() && dl[i] == x;
                assert(s[i] == x);
            }
            if x == s.last() {
                assert(s[s.len() - 1] == x);
            }
            if s.contains(x) {
                let i = choose|i: int| 0 <= i < s.len() && s[i] == x;
                if i < s.len() - 1 {
                    assert(dl[i] == x);
                }
            }
        }
        if !dl.contains(s.last()) {
            let d0 = dedup_times(dl);
            assert(d.contains(x) == (d0.contains(x) || x == s.last())) by {
                if d0.contains(x) {
                    let i = choose|i: int| 0 <= i < d0.len() && d0[i] == x;
                    assert(d[i] == x);
                }
                if x == s.last() {
                    assert(d[d.len() - 1] == x);
                }
                if d.contains(x) {
                    let i = choose|i: int| 0 <= i < d.len() && d[i] == x;
                    if i < d.len() - 1 {
                        assert(d0[i] == x);
                    }
                }
            }
        }
    }
}

/// The init times the enumerate stage emits: the distinct available
/// times, without those the store already holds (all of them, on a
/// force rebuild).
pub open spec fn missing_times(
    init_times: Seq<ValidTime>,
    done_times: Seq<ValidTime>,
    force_rebuild: bool,
) -> Seq<ValidTime> {
    dedup_times(init_times).filter(|t: ValidTime| force_rebuild || !done_times.contains(t))
}

/// Whether a vector of timestamps holds one.
fn vt_vec_contains(v: &Vec<ValidTime>, t: &ValidTime) -> (r: bool)
    ensures
        r == v@.contains(*t),
{
    let mut i: usize = 0;
    while i < v.len()
        invariant
            0 <= i <= v@.len(),
            forall|k: int| 0 <= k < i ==> v@[k] != *t,
        decreases v@.len() - i,
    {
        if v[i] == *t {
            return true;
        }
        i = i + 1;
    }
    false
}

/// The enumerate stage's output for one (site, model) pair: one `Load`
/// message per missing init time, numbered consecutively after
/// `counter`.  The returned counter accounts for every distinct
/// available init time, emitted or skipped, so progress totals line up.
pub fn enumerate_missing(
    site: &SiteInfo,
    model: Model,
    init_times: &Vec<ValidTime>,
    done_times: &Vec<ValidTime>,
    force_rebuild: bool,
    counter: usize,
) -> (r: (Vec<DataPopulateMsg>, usize))
    requires
        counter + init_times@.len() <= usize::MAX,
    ensures
        ({
            let wanted = missing_times(init_times@, done_times@, force_rebuild);
            &&& r.0@.len() == wanted.len()
            &&& forall|i: int|
                0 <= i < wanted.len() ==> r.0@[i] == (DataPopulateMsg::Load {
                    num: (counter + 1 + i) as usize,
                    site: *site,
                    model,
                    init_time: wanted[i],
                })
            &&& r.1 == counter + dedup_times(init_times@).len()
        }),
{
    let mut seen: Vec<ValidTime> = Vec::new();
    let mut msgs: Vec<DataPopulateMsg> = Vec::new();
    let mut i: usize = 0;
    while i < init_times.len()
        invariant
            0 <= i <= init_times@.len(),
            counter + init_times@.len() <= usize::MAX,
            seen@ == dedup_times(init_times@.take(i as int)),
            seen@.len() <= i,
            msgs@.len() <= seen@.len(),
            msgs@.len() == missing_times(init_times@.take(i as int), done_times@, force_rebuild).len(),
            forall|k: int|
                0 <= k < msgs@.len() ==> msgs@[k] == (DataPopulateMsg::Load {
                    num: (counter + 1 + k) as usize,
                    site: *site,
                    model,
                    init_time: missing_times(
                        init_times@.take(i as int),
                        done_times@,
                        force_rebuild,
                    )[k],
                }),
        decreases init_times@.len() - i,
    {
        let t = init_times[i];
        proof {
            assert(init_times@.take(i + 1).drop_last() =~= init_times@.take(i as int));
            assert(init_times@.take(i + 1).last() == init_times@[i as int]);
            reveal(Seq::filter);
            lemma_dedup_contains(init_times@.take(i as int), init_times@[i as int]);
        }
        if !vt_vec_contains(&seen, &t) {
            proof {
                let d0 = dedup_times(init_times@.take(i as int));
                assert(dedup_times(init_times@.take(i + 1)) == d0.push(init_times@[i as int]));
                assert(d0.push(init_times@[i as int]).drop_last() =~= d0);
                assert(d0.push(init_times@[i as int]).last() == init_times@[i as int]);
            }
            seen.push(t);
            let emit: bool = force_rebuild || !vt_vec_contains(done_times, &t);
            if emit {
                let num = counter + 1 + msgs.len();
                msgs.push(
                    DataPopulateMsg::Load { num, site: clone_site(site), model, init_time: t },
                );
            }
        }
        i = i + 1;
    }
    proof {
        assert(init_times@.take(init_times@.len() as int) =~= init_times@);
    }
    let new_counter = counter + seen.len();
    (msgs, new_counter)
}

/// The load stage's decision: raw data turns a `Load` into a `Parse`,
/// a failure into a `DataError` carrying the cause; any other message
/// passes through unchanged.
pub fn load_step(msg: DataPopulateMsg, fetch: Result<String, String>) -> (r: DataPopulateMsg)
    ensures
        (match msg {
            DataPopulateMsg::Load { num, site, model, init_time } => (match fetch {
                Ok(data) => r == (DataPopulateMsg::Parse { num, site, model, init_time, data }),
                Err(cause) => r == (DataPopulateMsg::DataError {
                    num,
                    site,
                    model,
                    valid_time: init_time,
                    msg: cause,
                }),
            }),
            _ => r == msg,
        }),
{
    match msg {
        DataPopulateMsg::Load { num, site, model, init_time } => match fetch {
            Ok(data) => DataPopulateMsg::Parse { num, site, model, init_time, data },
            Err(cause) => DataPopulateMsg::DataError {
                num,
                site,
                model,
                valid_time: init_time,
                msg: cause,
            },
        },
        other => other,
    }
}

/// Whether a sounding is retained by the decode stage: it bears a lead
/// time below the model's hours between runs, so its valid hour belongs
/// to this run and not the next.
pub open spec fn sounding_retained_spec(s: SoundingData, hbr: int) -> bool {
    s.lead_time is Some && s.lead_time.unwrap() < hbr
}

/// How many leading soundings of a decoded run are retained: the scan
/// stops at the first sounding not retained.
pub open spec fn retained_count(snds: Seq<SoundingData>, hbr: int) -> int
    decreases snds.len(),
{
    if snds.len() == 0 {
        0
    } else if sounding_retained_spec(snds[0], hbr) {
        1 + retained_count(snds.drop_first(), hbr)
    } else {
        0
    }
}

/// A boundary below which every sounding is retained, and at which the
/// first is not, is the retained count.
proof fn lemma_retained_boundary(snds: Seq<SoundingData>, hbr: int, i: int)
    requires
        0 <= i <= snds.len(),
        forall|k: int| 0 <= k < i ==> sounding_retained_spec(#[trigger] snds[k], hbr),
        i < snds.len() ==> !sounding_retained_spec(snds[i], hbr),
    ensures
        retained_count(snds, hbr) == i,
    decreases snds.len(),
{
    if snds.len() == 0 {
    } else if i == 0 {
    } else {
        let s2 = snds.drop_first();
        assert(forall|k: int| 0 <= k < i - 1 ==> sounding_retained_spec(#[trigger] s2[k], hbr));
        lemma_retained_boundary(s2, hbr, i - 1);
    }
}

/// Every sounding below the retained count is retained.
pub proof fn lemma_retained_pred(snds: Seq<SoundingData>, hbr: int)
    ensures
        0 <= retained_count(snds, hbr) <= snds.len(),
        forall|k: int|
            0 <= k < retained_count(snds, hbr) ==> sounding_retained_spec(
                #[trigger] snds[k],
                hbr,
            ),
    decreases snds.len(),
{
    if snds.len() > 0 && sounding_retained_spec(snds[0], hbr) {
        lemma_retained_pred(snds.drop_first(), hbr);
        assert forall|k: int| 0 <= k < retained_count(snds, hbr) implies sounding_retained_spec(
            #[trigger] snds[k],
            hbr,
        ) by {
            if k > 0 {
                assert(snds.drop_first()[k - 1] == snds[k]);
                assert(sounding_retained_spec(snds.drop_first()[k - 1], hbr));
            }
        }
    }
}

/// Whether a sounding is retained.
fn sounding_retained(s: &SoundingData, hbr: i64) -> (r: bool)
    ensures
        r == sounding_retained_spec(*s, hbr as int),
{
    match s.lead_time {
        Some(l) => l < hbr,
        None => false,
    }
}

/// The decode stage's decision for one message.  A `Parse` message
/// becomes one message per retained sounding of the decoded run — a
/// `CliData` where the sounding bears a valid time, a `DataError`
/// otherwise — or a single `DataError` where the decode itself failed.
/// Any other message passes through unchanged.
pub fn parser_step(msg: DataPopulateMsg, decoded: Result<Vec<SoundingData>, String>) -> (r: Vec<
    DataPopulateMsg,
>)
    ensures
        (match msg {
            DataPopulateMsg::Parse { num, site, model, init_time, .. } => (match decoded {
                Err(cause) => r@.len() == 1 && r@[0] == (DataPopulateMsg::DataError {
                    num,
                    site,
                    model,
                    valid_time: init_time,
                    msg: cause,
                }),
                Ok(snds) => {
                    &&& r@.len() == retained_count(snds@, hours_between_runs_spec(model))
                    &&& forall|k: int|
                        0 <= k < r@.len() && (#[trigger] snds@[k]).valid_time is Some ==> r@[k]
                            == (DataPopulateMsg::CliData {
                            num,
                            site,
                            model,
                            valid_time: snds@[k].valid_time.unwrap(),
                            snd: snds@[k],
                        })
                    &&& forall|k: int|
                        0 <= k < r@.len() && (#[trigger] snds@[k]).valid_time is None
                            ==> (r@[k] matches DataPopulateMsg::DataError {
                            num: n2,
                            site: s2,
                            model: m2,
                            valid_time: v2,
                            msg: e2,
                        } && n2 == num && s2 == site && m2 == model && v2 == init_time && e2@
                            == "No valid time"@)
                },
            }),
            _ => r@.len() == 1 && r@[0] == msg,
        }),
{
    match msg {
        DataPopulateMsg::Parse { num, site, model, init_time, data: _ } => match decoded {
            Err(cause) => vec![
                DataPopulateMsg::DataError {
                    num,
                    site,
                    model,
                    valid_time: init_time,
                    msg: cause,
                },
            ],
            Ok(snds) => {
                let hbr = model.hours_between_runs();
                let mut out: Vec<DataPopulateMsg> = Vec::new();
                let mut k: usize = 0;
                while k < snds.len() && sounding_retained(&snds[k], hbr)
                    invariant
                        0 <= k <= snds@.len(),
                        hbr == hours_between_runs_spec(model),
                        out@.len() == k,
                        forall|j: int|
                            0 <= j < k ==> sounding_retained_spec(#[trigger] snds@[j], hbr as int),
                        forall|j: int|
                            0 <= j < k && (#[trigger] snds@[j]).valid_time is Some ==> out@[j]
                                == (DataPopulateMsg::CliData {
                                num,
                                site,
                                model,
                                valid_time: snds@[j].valid_time.unwrap(),
                                snd: snds@[j],
                            }),
                        forall|j: int|
                            0 <= j < k && (#[trigger] snds@[j]).valid_time is None
                                ==> (out@[j] matches DataPopulateMsg::DataError {
                                num: n2,
                                site: s2,
                                model: m2,
                                valid_time: v2,
                                msg: e2,
                            } && n2 == num && s2 == site && m2 == model && v2 == init_time && e2@
                                == "No valid time"@),
                    decreases snds@.len() - k,
                {
                    let s = snds[k];
                    match s.valid_time {
                        Some(valid_time) => {
                            out.push(
                                DataPopulateMsg::CliData {
                                    num,
                                    site: clone_site(&site),
                                    model,
                                    valid_time,
                                    snd: s,
                                },
                            );
                        },
                        None => {
                            out.push(
                                DataPopulateMsg::DataError {
                                    num,
                                    site: clone_site(&site),
                                    model,
                                    valid_time: init_time,
                                    msg: String::from_str("No valid time"),
                                },
                            );
                        },
                    }
                    k = k + 1;
                }
                proof {
                    lemma_retained_boundary(snds@, hbr as int, k as int);
                }
                out
            },
        },
        other => vec![other],
    }
}

/// The derive stage's decision for one message.  A `CliData` message
/// yields the statistics record of its sounding and moves on to the
/// location stage; any other message passes through unchanged.
pub fn cli_stats_step(msg: DataPopulateMsg) -> (r: (Option<StatsRecord>, DataPopulateMsg))
    ensures
        (match msg {
            DataPopulateMsg::CliData { num, site, model, valid_time, snd } => {
                &&& r.0 == Some(
                    (StatsRecord::CliData {
                        site,
                        model,
                        valid_time,
                        hdw: snd.hdw,
                        blow_up_dt: snd.blow_up_dt,
                        blow_up_meters: snd.blow_up_meters,
                        dcape: snd.dcape,
                    }),
                )
                &&& r.1 == (DataPopulateMsg::Location { num, site, model, valid_time, snd })
            },
            _ => r.0 is None && r.1 == msg,
        }),
{
    match msg {
        DataPopulateMsg::CliData { num, site, model, valid_time, snd } => {
            let record = StatsRecord::create_cli_data(clone_site(&site), model, valid_time, &snd);
            (Some(record), DataPopulateMsg::Location { num, site, model, valid_time, snd })
        },
        other => (None, other),
    }
}

/// The location stage's decision for one message.  Only a lead-zero
/// sounding (or one with no lead time at all) may update the location
/// table; with full location data it yields the location record and a
/// completion, without it a `DataError`; a `Location` message of any
/// later forecast hour is dropped.  Any other message passes through
/// unchanged.
pub fn location_step(msg: DataPopulateMsg) -> (r: (Option<StatsRecord>, Option<DataPopulateMsg>))
    ensures
        (match msg {
            DataPopulateMsg::Location { num, site, model, valid_time, snd } => {
                if snd.lead_time is None || snd.lead_time.unwrap() == 0 {
                    if snd.location is Some && snd.elev_m is Some {
                        &&& r.0 == Some(
                            (StatsRecord::Location {
                                site,
                                model,
                                lat: snd.location.unwrap().0,
                                lon: snd.location.unwrap().1,
                                elev_m: snd.elev_m.unwrap(),
                            }),
                        )
                        &&& r.1 == Some(
                            (DataPopulateMsg::PopulateCompleted { num, site, model }),
                        )
                    } else {
                        &&& r.0 is None
                        &&& (r.1 matches Some(m2) && (m2 matches DataPopulateMsg::DataError {
                            num: n2,
                            site: s2,
                            model: mm2,
                            valid_time: v2,
                            msg: e2,
                        } && n2 == num && s2 == site && mm2 == model && v2 == valid_time && e2@
                            == "Missing location information"@))
                    }
                } else {
                    r.0 is None && r.1 is None
                }
            },
            _ => r.0 is None && r.1 == Some(msg),
        }),
{
    match msg {
        DataPopulateMsg::Location { num, site, model, valid_time, snd } => {
            let lead_zero = match snd.lead_time {
                Some(l) => l == 0,
                None => true,
            };
            if lead_zero {
                match StatsRecord::create_location_data(clone_site(&site), model, &snd) {
                    Ok(record) => (
                        Some(record),
                        Some(DataPopulateMsg::PopulateCompleted { num, site, model }),
                    ),
                    Err(err_site) => (
                        None,
                        Some(
                            DataPopulateMsg::DataError {
                                num,
                                site: err_site,
                                model,
                                valid_time,
                                msg: String::from_str("Missing location information"),
                            },
                        ),
                    ),
                }
            } else {
                (None, None)
            }
        },
        other => (None, Some(other)),
    }
}

/// What the driver tracks while draining the completion queue: the
/// progress counter and the (site, model) pairs that completed at least
/// one item, which the distribution builder will run over.
pub struct CollectorState {
    pub progress: usize,
    pub pairs: Vec<(u32, Model)>,
}

/// The outside action the driver must take after one message from the
/// completion queue.
#[derive(Clone, Debug, PartialEq, Eq, Structural)]
pub enum CollectorAction {
    Ignore,
    Progress { num: usize },
    RemoveFileAndProgress { num: usize, station_num: u32, model: Model, valid_time: ValidTime },
    Finish,
}

/// Whether the changed-pairs set holds a pair.
fn pairs_contains(v: &Vec<(u32, Model)>, station_num: u32, model: Model) -> (r: bool)
    ensures
        r == v@.contains((station_num, model)),
{
    let mut i: usize = 0;
    while i < v.len()
        invariant
            0 <= i <= v@.len(),
            forall|k: int| 0 <= k < i ==> v@[k] != (station_num, model),
        decreases v@.len() - i,
    {
        if v[i].0 == station_num && v[i].1 == model {
            proof {
                assert(v@[i as int] == (station_num, model));
            }
            return true;
        }
        i = i + 1;
    }
    false
}

/// The collector's decision for one completion-queue message: progress
/// moves on completions and per-item errors, a completed pair joins the
/// changed set once, an errored item's file is removed from the archive
/// so it is not retried, and the terminate signal finishes the run.
pub fn collector_step(state: &mut CollectorState, msg: &DataPopulateMsg) -> (act: CollectorAction)
    ensures
        (match *msg {
            DataPopulateMsg::PopulateCompleted { num, site, model } => {
                &&& act == (CollectorAction::Progress { num })
                &&& final(state).progress == num
                &&& final(state).pairs@ == (if old(state).pairs@.contains(
                    (site.station_num, model),
                ) {
                    old(state).pairs@
                } else {
                    old(state).pairs@.push((site.station_num, model))
                })
            },
            DataPopulateMsg::DataError { num, site, model, valid_time, .. } => {
                &&& act == (CollectorAction::RemoveFileAndProgress {
                    num,
                    station_num: site.station_num,
                    model,
                    valid_time,
                })
                &&& final(state).progress == num
                &&& final(state).pairs@ == old(state).pairs@
            },
            DataPopulateMsg::TerminateThread => act == CollectorAction::Finish && *final(state)
                == *old(state),
            _ => act == CollectorAction::Ignore && *final(state) == *old(state),
        }),
{
    match msg {
        DataPopulateMsg::PopulateCompleted { num, site, model } => {
            if !pairs_contains(&state.pairs, site.station_num, *model) {
                state.pairs.push((site.station_num, *model));
            }
            state.progress = *num;
            CollectorAction::Progress { num: *num }
        },
        DataPopulateMsg::DataError { num, site, model, valid_time, .. } => {
            state.progress = *num;
            CollectorAction::RemoveFileAndProgress {
                num: *num,
                station_num: site.station_num,
                model: *model,
                valid_time: *valid_time,
            }
        },
        DataPopulateMsg::TerminateThread => CollectorAction::Finish,
        _ => CollectorAction::Ignore,
    }
}

/// The collaborators' answers for one enumerated item: the archive
/// read failed, the decode failed, or the decode yielded soundings.
pub enum ItemData {
    FetchErr(String),
    DecodeErr(String),
    Soundings(Vec<SoundingData>),
}

/// One enumerated work item together with its collaborator answers.
pub struct IngestItem {
    pub site: SiteInfo,
    pub model: Model,
    pub init_time: ValidTime,
    pub data: ItemData,
}

/// What one ingest run produces: the records bound for the statistics
/// store, and the terminal acknowledgments the collector sees.
pub struct IngestOutcome {
    pub stats: Vec<StatsRecord>,
    pub terminals: Vec<DataPopulateMsg>,
}

/// Terminal acknowledgments one retained sounding produces: one where
/// the valid time is missing, one where the lead-zero sounding reaches
/// the location stage, none otherwise.
pub open spec fn terminal_weight(s: SoundingData) -> int {
    if s.valid_time is None {
        1
    } else if s.lead_time.unwrap() == 0 {
        1
    } else {
        0
    }
}

/// Statistics-store records one retained sounding produces: a derived
/// row where it bears a valid time, and a location row where the
/// lead-zero sounding carries full location data.
pub open spec fn stats_weight(s: SoundingData) -> int {
    if s.valid_time is None {
        0
    } else if s.lead_time.unwrap() == 0 && s.location is Some && s.elev_m is Some {
        2
    } else {
        1
    }
}

/// Sum of the terminal weights of the first `upto` soundings.
pub open spec fn sum_terminal_weight(snds: Seq<SoundingData>, upto: int) -> int
    decreases upto,
{
    if upto <= 0 {
        0
    } else {
        sum_terminal_weight(snds, upto - 1) + terminal_weight(snds[upto - 1])
    }
}

/// Sum of the statistics weights of the first `upto` soundings.
pub open spec fn sum_stats_weight(snds: Seq<SoundingData>, upto: int) -> int
    decreases upto,
{
    if upto <= 0 {
        0
    } else {
        sum_stats_weight(snds, upto - 1) + stats_weight(snds[upto - 1])
    }
}

/// Terminal acknowledgments one item produces.
pub open spec fn item_terminal_count(item: IngestItem) -> int {
    match item.data {
        ItemData::FetchErr(_) => 1,
        ItemData::DecodeErr(_) => 1,
        ItemData::Soundings(snds) => sum_terminal_weight(
            snds@,
            retained_count(snds@, hours_between_runs_spec(item.model)),
        ),
    }
}

/// Statistics-store records one item produces.
pub open spec fn item_stats_count(item: IngestItem) -> int {
    match item.data {
        ItemData::FetchErr(_) => 0,
        ItemData::DecodeErr(_) => 0,
        ItemData::Soundings(snds) => sum_stats_weight(
            snds@,
            retained_count(snds@, hours_between_runs_spec(item.model)),
        ),
    }
}

/// Total terminal acknowledgments over a batch.
pub open spec fn total_terminal_count(items: Seq<IngestItem>) -> int
    decreases items.len(),
{
    if items.len() == 0 {
        0
    } else {
        total_terminal_count(items.drop_last()) + item_terminal_count(items.last())
    }
}

/// Total statistics-store records over a batch.
pub open spec fn total_stats_count(items: Seq<IngestItem>) -> int
    decreases items.len(),
{
    if items.len() == 0 {
        0
    } else {
        total_stats_count(items.drop_last()) + item_stats_count(items.last())
    }
}

/// Backpressure accounting: where every load item yields exactly one
/// terminal acknowledgment — its fetch or decode fails, or every
/// retained sounding bears a valid time and exactly one reaches the
/// location stage at lead zero — the pipeline neither loses nor
/// duplicates items: the terminal count equals the count of `Load`
/// messages emitted.
pub proof fn lemma_terminal_conservation(items: Seq<IngestItem>)
    requires
        forall|i: int| 0 <= i < items.len() ==> item_terminal_count(#[trigger] items[i]) == 1,
    ensures
        total_terminal_count(items) == items.len(),
    decreases items.len(),
{
    if items.len() > 0 {
        assert forall|i: int| 0 <= i < items.drop_last().len() implies item_terminal_count(
            #[trigger] items.drop_last()[i],
        ) == 1 by {
            assert(items.drop_last()[i] == items[i]);
        }
        lemma_terminal_conservation(items.drop_last());
    }
}

/// Copy a vector of sounding summaries.
fn copy_soundings(v: &Vec<SoundingData>) -> (r: Vec<SoundingData>)
    ensures
        r@ == v@,
{
    let mut out: Vec<SoundingData> = Vec::new();
    let mut i: usize = 0;
    while i < v.len()
        invariant
            0 <= i <= v@.len(),
            out@ == v@.take(i as int),
        decreases v@.len() - i,
    {
        out.push(v[i]);
        proof {
            assert(out@ =~= v@.take(i + 1));
        }
        i = i + 1;
    }
    proof {
        assert(v@.take(v@.len() as int) =~= v@);
    }
    out
}

/// Whether a message is a terminal acknowledgment of the item numbered
/// `num`: its completion or its per-item error.
pub open spec fn is_terminal_for(m: DataPopulateMsg, num: int) -> bool {
    ||| (m matches DataPopulateMsg::PopulateCompleted { num: n, .. } && n == num)
    ||| (m matches DataPopulateMsg::DataError { num: n, .. } && n == num)
}

/// Whether a message answers one of the first `hi` items.
pub open spec fn terminal_answers_some_item(m: DataPopulateMsg, hi: int) -> bool {
    exists|n: int| 1 <= n <= hi && is_terminal_for(m, n)
}

/// How many of the collected terminals answer the item numbered `n`.
pub open spec fn count_answering(ts: Seq<DataPopulateMsg>, n: int) -> int
    decreases ts.len(),
{
    if ts.len() == 0 {
        0
    } else {
        count_answering(ts.drop_last(), n) + if is_terminal_for(ts.last(), n) {
            1int
        } else {
            0
        }
    }
}

/// Appending one terminal raises exactly the count of the item it
/// answers.
proof fn lemma_count_answering_push(ts: Seq<DataPopulateMsg>, t: DataPopulateMsg, n: int)
    ensures
        count_answering(ts.push(t), n) == count_answering(ts, n) + if is_terminal_for(t, n) {
            1int
        } else {
            0
        },
{
    assert(ts.push(t).drop_last() =~= ts);
    assert(ts.push(t).last() == t);
}

/// Appending a terminal that answers an in-range item keeps every
/// collected terminal answering an in-range item.
proof fn lemma_terminals_push(ts: Seq<DataPopulateMsg>, t: DataPopulateMsg, hi: int)
    requires
        forall|j: int|
            0 <= j < ts.len() ==> terminal_answers_some_item(#[trigger] ts[j], hi),
        terminal_answers_some_item(t, hi),
    ensures
        forall|j: int|
            0 <= j < ts.push(t).len() ==> terminal_answers_some_item(#[trigger] ts.push(t)[j], hi),
{
    assert forall|j: int| 0 <= j < ts.push(t).len() implies terminal_answers_some_item(
        #[trigger] ts.push(t)[j],
        hi,
    ) by {
        if j < ts.len() {
            assert(ts.push(t)[j] == ts[j]);
        } else {
            assert(ts.push(t)[j] == t);
        }
    }
}

/// Run the ingest pipeline's decisions over a finished batch of items
/// and their collaborator answers, in sequence: what the concurrent
/// pipeline computes, with its accounting made explicit.  Item `i` of
/// the batch is numbered `i + 1`; every terminal acknowledgment answers
/// the item whose number it carries, and each item receives exactly its
/// own count of acknowledgments — no item is lost or answered twice.
pub fn run_ingest(items: Vec<IngestItem>) -> (r: IngestOutcome)
    requires
        items@.len() < usize::MAX,
    ensures
        r.terminals@.len() == total_terminal_count(items@),
        r.stats@.len() == total_stats_count(items@),
        forall|j: int|
            0 <= j < r.terminals@.len() ==> terminal_answers_some_item(
                #[trigger] r.terminals@[j],
                items@.len() as int,
            ),
        forall|n: int|
            1 <= n <= items@.len() ==> #[trigger] count_answering(r.terminals@, n)
                == item_terminal_count(items@[n - 1]),
{
    let mut stats: Vec<StatsRecord> = Vec::new();
    let mut terminals: Vec<DataPopulateMsg> = Vec::new();
    let mut i: usize = 0;
    while i < items.len()
        invariant
            0 <= i <= items@.len(),
            items@.len() < usize::MAX,
            terminals@.len() == total_terminal_count(items@.take(i as int)),
            stats@.len() == total_stats_count(items@.take(i as int)),
            forall|j: int|
                0 <= j < terminals@.len() ==> terminal_answers_some_item(
                    #[trigger] terminals@[j],
                    items@.len() as int,
                ),
            forall|n: int|
                #[trigger] count_answering(terminals@, n) == if 1 <= n <= i {
                    item_terminal_count(items@[n - 1])
                } else {
                    0
                },
        decreases items@.len() - i,
    {
        let item = &items[i];
        let num = i + 1;
        proof {
            assert(items@.take(i + 1).drop_last() =~= items@.take(i as int));
            assert(items@.take(i + 1).last() == items@[i as int]);
        }
        let load_msg = DataPopulateMsg::Load {
            num,
            site: clone_site(&item.site),
            model: item.model,
            init_time: item.init_time,
        };
        let fetch: Result<String, String> = match &item.data {
            ItemData::FetchErr(e) => Err(e.clone()),
            _ => Ok(String::new()),
        };
        let loaded = load_step(load_msg, fetch);
        let decoded: Result<Vec<SoundingData>, String> = match &item.data {
            ItemData::FetchErr(_) => Ok(Vec::new()),
            ItemData::DecodeErr(e) => Err(e.clone()),
            ItemData::Soundings(v) => Ok(copy_soundings(v)),
        };
        let mut msgs = parser_step(loaded, decoded);
        match &item.data {
            ItemData::Soundings(v) => {
                let ghost snds = v@;
                let ghost hbr = hours_between_runs_spec(item.model);
                let ghost rc = retained_count(snds, hbr);
                let ghost parsed = msgs@;
                let ghost base_t = terminals@.len() as int;
                let ghost base_s = stats@.len() as int;
                proof {
                    lemma_retained_pred(snds, hbr);
                }
                while msgs.len() > 0
                    invariant
                        i < items@.len(),
                        items@.len() < usize::MAX,
                        msgs@.len() <= parsed.len(),
                        msgs@ =~= parsed.take(msgs@.len() as int),
                        parsed.len() == rc,
                        rc == retained_count(snds, hbr),
                        rc <= snds.len(),
                        forall|k: int|
                            0 <= k < rc ==> sounding_retained_spec(#[trigger] snds[k], hbr),
                        forall|k: int|
                            0 <= k < rc && (#[trigger] snds[k]).valid_time is Some ==> parsed[k]
                                == (DataPopulateMsg::CliData {
                                num: (i + 1) as usize,
                                site: items@[i as int].site,
                                model: items@[i as int].model,
                                valid_time: snds[k].valid_time.unwrap(),
                                snd: snds[k],
                            }),
                        forall|k: int|
                            0 <= k < rc && (#[trigger] snds[k]).valid_time is None
                                ==> (parsed[k] matches DataPopulateMsg::DataError {
                                num: n2,
                                ..
                            } && n2 == i + 1),
                        terminals@.len() == base_t + sum_terminal_weight(snds, rc)
                            - sum_terminal_weight(snds, msgs@.len() as int),
                        stats@.len() == base_s + sum_stats_weight(snds, rc) - sum_stats_weight(
                            snds,
                            msgs@.len() as int,
                        ),
                        forall|j: int|
                            0 <= j < terminals@.len() ==> terminal_answers_some_item(
                                #[trigger] terminals@[j],
                                items@.len() as int,
                            ),
                        forall|n: int|
                            n != i + 1 ==> #[trigger] count_answering(terminals@, n) == if 1 <= n
                                <= i {
                                item_terminal_count(items@[n - 1])
                            } else {
                                0
                            },
                        count_answering(terminals@, i + 1) == sum_terminal_weight(snds, rc)
                            - sum_terminal_weight(snds, msgs@.len() as int),
                    decreases msgs@.len(),
                {
                    let ghost j = msgs@.len() as int - 1;
                    let m = msgs.pop().unwrap();
                    proof {
                        assert(m == parsed[j]);
                        assert(msgs@ =~= parsed.take(j));
                    }
                    let (st1, m2) = cli_stats_step(m);
                    match st1 {
                        Some(s) => stats.push(s),
                        None => (),
                    }
                    let (st2, term) = location_step(m2);
                    match st2 {
                        Some(s) => stats.push(s),
                        None => (),
                    }
                    match term {
                        Some(t) => {
                            let ghost pre_terminals = terminals@;
                            let ghost gt = t;
                            proof {
                                assert(terminal_answers_some_item(gt, items@.len() as int)) by {
                                    assert(is_terminal_for(gt, i as int + 1));
                                }
                            }
                            terminals.push(t);
                            proof {
                                lemma_terminals_push(pre_terminals, gt, items@.len() as int);
                                assert forall|n: int| #[trigger] count_answering(terminals@, n)
                                    == count_answering(pre_terminals, n) + (if n == i + 1 {
                                    1int
                                } else {
                                    0
                                }) by {
                                    lemma_count_answering_push(pre_terminals, gt, n);
                                }
                            }
                        },
                        None => (),
                    }
                }
            },
            _ => {
                let m = match msgs.pop() {
                    Some(m) => m,
                    None => DataPopulateMsg::TerminateThread,
                };
                let (st1, m2) = cli_stats_step(m);
                match st1 {
                    Some(s) => stats.push(s),
                    None => (),
                }
                let (st2, term) = location_step(m2);
                match st2 {
                    Some(s) => stats.push(s),
                    None => (),
                }
                match term {
                    Some(t) => {
                        let ghost pre_terminals = terminals@;
                        let ghost gt = t;
                        proof {
                            assert(terminal_answers_some_item(gt, items@.len() as int)) by {
                                assert(is_terminal_for(gt, i as int + 1));
                            }
                        }
                        terminals.push(t);
                        proof {
                            lemma_terminals_push(pre_terminals, gt, items@.len() as int);
                            assert forall|n: int| #[trigger] count_answering(terminals@, n)
                                == count_answering(pre_terminals, n) + (if n == i + 1 {
                                1int
                            } else {
                                0
                            }) by {
                                lemma_count_answering_push(pre_terminals, gt, n);
                            }
                        }
                    },
                    None => (),
                }
            },
        }
        i = i + 1;
    }
    proof {
        assert(items@.take(items@.len() as int) =~= items@);
    }
    IngestOutcome { stats, terminals }
}

} // verus!
