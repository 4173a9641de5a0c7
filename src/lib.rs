//! Match ingestion, skill rating and leaderboards for a competitive game.
//!
//! Replay records are ingested into match rows (de-duplicated by their natural
//! key, future-dated timestamps corrected), rated in causal order by a pairwise
//! skill engine, and summarised into leaderboards and reports. A cadence planner
//! decides from stored checkpoints when the hourly and daily jobs are due.

use vstd::prelude::*;

pub mod backfill;
pub mod cadence;
pub mod clock;
pub mod ingest;
pub mod jobs;
pub mod ranks;
pub mod rating;
pub mod reports;
pub mod select;
pub mod stats;
pub mod store;

verus! {

} // verus!
