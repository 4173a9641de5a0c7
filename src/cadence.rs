use vstd::prelude::*;

use crate::clock::{format_timestamp, parse_timestamp, seconds_of_text, text_of_seconds};

verus! {

pub const HOUR: i64 = 3600;

pub const DAY: i64 = 86400;

/// A missing hourly checkpoint is taken to be this many seconds old.
pub const HOURLY_SEED_AGE: i64 = 7200;

/// A missing daily checkpoint is taken to be this many seconds old.
pub const DAILY_SEED_AGE: i64 = 172800;

/// The earliest `now` that every cadence computation accepts without overflow.
pub const EARLIEST_NOW: i64 = -9_223_372_036_854_000_000;

/// Which maintenance jobs one fast-loop cycle runs.
#[derive(Clone, Copy, Debug, PartialEq, Eq, Structural)]
pub struct CyclePlan {
    pub run_hourly: bool,
    pub run_daily: bool,
}

/// The instant a stored checkpoint stands for: the seeded age when there is none,
/// the parsed text otherwise, or nothing when the text does not parse.
pub open spec fn checkpoint_spec(stored: Option<Seq<char>>, now: int, seed_age: int) -> Option<
    int,
> {
    match stored {
        None => Some(now - seed_age),
        Some(text) => seconds_of_text(text),
    }
}

/// A job is due when its last run lies more than one period before `now`.
pub open spec fn due_spec(last: int, now: int, period: int) -> bool {
    last < now - period
}

pub open spec fn job_due_spec(stored: Option<Seq<char>>, now: int, seed_age: int, period: int) -> Option<bool> {
    match checkpoint_spec(stored, now, seed_age) {
        Some(last) => Some(due_spec(last, now, period)),
        None => None,
    }
}

pub open spec fn text_view(s: Option<String>) -> Option<Seq<char>> {
    match s {
        Some(t) => Some(t@),
        None => None,
    }
}

pub fn read_checkpoint(stored: &Option<String>, now: i64, seed_age: i64) -> (r: Option<i64>)
    requires
        EARLIEST_NOW <= now,
        0 <= seed_age <= DAILY_SEED_AGE,
    ensures
        match r {
            Some(t) => checkpoint_spec(text_view(*stored), now as int, seed_age as int) == Some(
                t as int,
            ),
            None => checkpoint_spec(text_view(*stored), now as int, seed_age as int) is None,
        },
{
    match stored {
        None => Some(now - seed_age),
        Some(text) => parse_timestamp(text.as_str()),
    }
}

pub fn is_due(last: i64, now: i64, period: i64) -> (r: bool)
    requires
        EARLIEST_NOW <= now,
        0 <= period <= DAY,
    ensures
        r == due_spec(last as int, now as int, period as int),
{
    last < now - period
}

/// Whether a job with the given stored checkpoint is due: `None` when the stored
/// text does not parse.
pub fn job_due(stored: &Option<String>, now: i64, seed_age: i64, period: i64) -> (r: Option<bool>)
    requires
        EARLIEST_NOW <= now,
        0 <= seed_age <= DAILY_SEED_AGE,
        0 <= period <= DAY,
    ensures
        r == job_due_spec(text_view(*stored), now as int, seed_age as int, period as int),
{
    match read_checkpoint(stored, now, seed_age) {
        Some(last) => Some(is_due(last, now, period)),
        None => None,
    }
}

/// Decides which jobs a cycle runs from the two stored checkpoints. A checkpoint
/// whose text does not parse keeps its job from running.
pub fn plan_cycle(hourly: &Option<String>, daily: &Option<String>, now: i64) -> (r: CyclePlan)
    requires
        EARLIEST_NOW <= now,
    ensures
        r.run_hourly == (job_due_spec(text_view(*hourly), now as int, HOURLY_SEED_AGE as int, HOUR as int) == Some(true)),
        r.run_daily == (job_due_spec(text_view(*daily), now as int, DAILY_SEED_AGE as int, DAY as int) == Some(true)),
{
    let h = job_due(hourly, now, HOURLY_SEED_AGE, HOUR);
    let d = job_due(daily, now, DAILY_SEED_AGE, DAY);
    CyclePlan {
        run_hourly: match h {
            Some(b) => b,
            None => false,
        },
        run_daily: match d {
            Some(b) => b,
            None => false,
        },
    }
}

/// The text to store as a checkpoint taken at `now`.
pub fn checkpoint_text(now: i64) -> (r: Option<String>)
    ensures
        text_view(r) == text_of_seconds(now as int),
{
    format_timestamp(now)
}

/// With no checkpoint stored yet, the first cycle runs both the hourly and the
/// daily jobs.
pub proof fn lemma_bootstrap_runs_both(now: int)
    ensures
        job_due_spec(None, now, HOURLY_SEED_AGE as int, HOUR as int) == Some(true),
        job_due_spec(None, now, DAILY_SEED_AGE as int, DAY as int) == Some(true),
{
}

} // verus!
