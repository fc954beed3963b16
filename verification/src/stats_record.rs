//! Records derived from one decoded sounding.
//!
//! The decoder and the statistic derivation functions are outside
//! collaborators; what the library reads of a sounding is collected in
//! `SoundingData` as plain values (floating-point statistics as their
//! 64-bit IEEE-754 bit patterns).  A `StatsRecord` is what the writer
//! stage persists: one row of derived statistics, or one location row.

use vstd::prelude::*;

use crate::calendar::ValidTime;
use crate::types::{Model, SiteInfo};

verus! {

/// What the library reads of one decoded sounding: the forecast lead
/// time, the valid time, the station location and elevation, and the
/// derived statistics, all as plain values.
#[derive(Clone, Copy, Debug)]
pub struct SoundingData {
    pub lead_time: Option<i64>,
    pub valid_time: Option<ValidTime>,
    pub location: Option<(u64, u64)>,
    pub elev_m: Option<u64>,
    pub hdw: Option<i32>,
    pub blow_up_dt: Option<u64>,
    pub blow_up_meters: Option<i32>,
    pub dcape: Option<i32>,
}

/// One record bound for the statistics store.
#[derive(Clone, Debug)]
pub enum StatsRecord {
    CliData {
        site: SiteInfo,
        model: Model,
        valid_time: ValidTime,
        hdw: Option<i32>,
        blow_up_dt: Option<u64>,
        blow_up_meters: Option<i32>,
        dcape: Option<i32>,
    },
    Location { site: SiteInfo, model: Model, lat: u64, lon: u64, elev_m: u64 },
}

impl StatsRecord {
    /// Assemble the statistics row of one sounding from its derived
    /// values.
    pub fn create_cli_data(
        site: SiteInfo,
        model: Model,
        valid_time: ValidTime,
        snd: &SoundingData,
    ) -> (r: Self)
        ensures
            r == (StatsRecord::CliData {
                site,
                model,
                valid_time,
                hdw: snd.hdw,
                blow_up_dt: snd.blow_up_dt,
                blow_up_meters: snd.blow_up_meters,
                dcape: snd.dcape,
            }),
    {
        StatsRecord::CliData {
            site,
            model,
            valid_time,
            hdw: snd.hdw,
            blow_up_dt: snd.blow_up_dt,
            blow_up_meters: snd.blow_up_meters,
            dcape: snd.dcape,
        }
    }

    /// Assemble the location row of one sounding, which succeeds exactly
    /// when the sounding carries both a location and an elevation.  On
    /// failure the site is handed back so the caller can reuse it.
    pub fn create_location_data(site: SiteInfo, model: Model, snd: &SoundingData) -> (r: Result<
        Self,
        SiteInfo,
    >)
        ensures
            r is Ok <==> snd.location is Some && snd.elev_m is Some,
            r is Ok ==> r.unwrap() == (StatsRecord::Location {
                site,
                model,
                lat: snd.location.unwrap().0,
                lon: snd.location.unwrap().1,
                elev_m: snd.elev_m.unwrap(),
            }),
            r is Err ==> r.unwrap_err() == site,
    {
        match (snd.location, snd.elev_m) {
            (Some((lat, lon)), Some(elev_m)) => Ok(
                StatsRecord::Location { site, model, lat, lon, elev_m },
            ),
            _ => Err(site),
        }
    }
}

} // verus!
