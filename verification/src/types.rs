//! Core identifiers: forecast models, sites, and the queryable elements.

use vstd::prelude::*;

verus! {

/// The forecast models an archive can hold.  The set is fixed at build time.
#[derive(Clone, Copy, Debug, PartialEq, Eq, Hash, Structural)]
pub enum Model {
    GFS,
    NAM,
    NAM4KM,
}

/// Hours between successive runs of a model, as a mathematical value.
pub open spec fn hours_between_runs_spec(m: Model) -> int {
    match m {
        Model::GFS => 6,
        Model::NAM => 6,
        Model::NAM4KM => 6,
    }
}

/// The display / storage name of a model.
pub open spec fn model_name_spec(m: Model) -> Seq<char> {
    match m {
        Model::GFS => "GFS"@,
        Model::NAM => "NAM"@,
        Model::NAM4KM => "NAM4KM"@,
    }
}

impl Model {
    /// How many hours pass between successive runs of this model; a run's
    /// forecast hours below this bound do not overlap the next run.
    pub fn hours_between_runs(self) -> (r: i64)
        ensures
            r == hours_between_runs_spec(self),
    {
        match self {
            Model::GFS | Model::NAM | Model::NAM4KM => 6,
        }
    }

    /// The name under which this model is stored and displayed.
    pub fn as_static_str(self) -> (r: &'static str)
        ensures
            r@ == model_name_spec(self),
    {
        match self {
            Model::GFS => "GFS",
            Model::NAM => "NAM",
            Model::NAM4KM => "NAM4KM",
        }
    }
}

/// Description of an observation site, as the library reads it: the unique
/// station number, an optional human-readable name, and an optional fixed
/// UTC offset in seconds (positive east).
#[derive(Clone, Debug)]
pub struct SiteInfo {
    pub station_num: u32,
    pub name: Option<String>,
    pub time_zone_secs: Option<i32>,
}

/// Elements we can query for climo data.
#[derive(Clone, Copy, Debug, PartialEq, Eq, Structural)]
pub enum ClimoElement {
    HDW,
    BlowUpDt,
    BlowUpHeight,
    DCAPE,
}

/// The distribution store's blob column that holds an element's deciles.
pub open spec fn column_name_spec(e: ClimoElement) -> Seq<char> {
    match e {
        ClimoElement::HDW => "hdw_deciles"@,
        ClimoElement::BlowUpDt => "blow_up_dt_deciles"@,
        ClimoElement::BlowUpHeight => "blow_up_meters_deciles"@,
        ClimoElement::DCAPE => "dcape_deciles"@,
    }
}

impl ClimoElement {
    /// The blob column of the distribution store that holds this element.
    pub fn into_column_name(self) -> (r: &'static str)
        ensures
            r@ == column_name_spec(self),
    {
        match self {
            ClimoElement::HDW => "hdw_deciles",
            ClimoElement::BlowUpDt => "blow_up_dt_deciles",
            ClimoElement::BlowUpHeight => "blow_up_meters_deciles",
            ClimoElement::DCAPE => "dcape_deciles",
        }
    }
}

} // verus!
