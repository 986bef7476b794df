//! Analysis of JDK8-era garbage-collection logs: reassembling multi-line GC
//! records, parsing pause events, aggregating per-group pause statistics, and
//! deriving tuning recommendations.
use vstd::prelude::*;

pub mod analyze;
pub mod flags;
pub mod g1gc;
pub mod histo;
pub mod human;
pub mod jvmstats;
pub mod metrics;
pub mod numfmt;
pub mod order;
pub mod pauses;
pub mod recommendations;
pub mod strutil;
pub mod summary;

verus! {

/// Command-line arguments: the single GC log file to analyze.
pub struct Args {
    pub file_name: String,
}

} // verus!
