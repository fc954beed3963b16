//! bufcli
//!
//! Climatology support for an archive of model sounding files: empirical
//! cumulative distributions reduced to deciles, a circular day-of-year
//! window, and the bookkeeping of the ingest and distribution pipelines.

use vstd::prelude::*;

pub mod build_cdf;
pub mod calendar;
pub mod distributions;
pub mod error;
pub mod fbits;
pub mod pipeline;
pub mod populate;
pub mod query;
pub mod stats_record;
pub mod types;
pub mod window;

pub use crate::build_cdf::ClimoCDFBuilderInterface;
pub use crate::distributions::{CumulativeDistribution, Deciles, Percentile};
pub use crate::error::BufcliError;
pub use crate::populate::ClimoPopulateInterface;
pub use crate::query::ClimoQueryInterface;
pub use crate::stats_record::StatsRecord;
pub use crate::types::ClimoElement;

verus! {

} // verus!
