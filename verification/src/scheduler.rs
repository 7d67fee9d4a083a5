//! The checkpoint of a series and the ingestion scheduler.
//!
//! On every tick the scheduler looks at each series by itself: a series whose
//! fetch is still running is left alone, a series whose checkpoint is fresh is
//! skipped, and any other series starts a fetch at its checkpoint.

use crate::models::Series;
use vstd::prelude::*;

verus! {

/// The seconds between two ticks.
pub const TICK_SECONDS: u64 = 3600;

/// The age in seconds from which a checkpoint is stale.
pub const STALENESS_THRESHOLD: i64 = 3600;

/// The timestamp from which a series without records is fetched.
pub const FALLBACK_START: i64 = 1647910800;

/// The checkpoint of a series: the latest `end_time` that the store holds,
/// or the fallback where it holds no record of the series.
pub open spec fn boundary_of(latest_end_time: Option<i64>, fallback: i64) -> i64 {
    match latest_end_time {
        Some(end_time) => end_time,
        None => fallback,
    }
}

/// The checkpoint of a series. `latest_end_time` is the largest `end_time`
/// among the stored records of the series, `None` where there is none or
/// where the store could not be read.
pub fn last_boundary(latest_end_time: Option<i64>, fallback: i64) -> (boundary: i64)
    ensures
        boundary == boundary_of(latest_end_time, fallback),
{
    match latest_end_time {
        Some(end_time) => end_time,
        None => fallback,
    }
}

/// Whether a checkpoint is stale at `now`.
pub open spec fn stale(boundary: i64, now: i64, threshold: i64) -> bool {
    now - boundary >= threshold
}

/// Tests whether a checkpoint is stale: whether at least `threshold` seconds
/// lie between it and `now`.
pub fn is_stale(boundary: i64, now: i64, threshold: i64) -> (due: bool)
    ensures
        due == stale(boundary, now, threshold),
{
    (now as i128) - (boundary as i128) >= (threshold as i128)
}

/// What a series is doing.
#[derive(Clone, Copy, Debug, PartialEq, Eq, Structural)]
pub enum SeriesState {
    Idle,
    Fetching,
}

/// What a tick means for one series.
#[derive(Clone, Copy, Debug, PartialEq, Eq, Structural)]
pub enum TickAction {
    /// The fetch of an earlier tick is still running.
    Busy,
    /// The checkpoint is fresh.
    Skip,
    /// Start a fetch at `from`.
    Fetch { from: i64 },
}

/// The state of a series and the action after a tick.
pub open spec fn ticked(state: SeriesState, boundary: i64, now: i64, threshold: i64) -> (
    SeriesState,
    TickAction,
) {
    match state {
        SeriesState::Fetching => (SeriesState::Fetching, TickAction::Busy),
        SeriesState::Idle => if stale(boundary, now, threshold) {
            (SeriesState::Fetching, TickAction::Fetch { from: boundary })
        } else {
            (SeriesState::Idle, TickAction::Skip)
        },
    }
}

/// Decides what a tick means for a series in `state` with checkpoint
/// `boundary`.
pub fn on_tick(state: SeriesState, boundary: i64, now: i64, threshold: i64) -> (next: (
    SeriesState,
    TickAction,
))
    ensures
        next == ticked(state, boundary, now, threshold),
{
    match state {
        SeriesState::Fetching => (SeriesState::Fetching, TickAction::Busy),
        SeriesState::Idle => {
            if is_stale(boundary, now, threshold) {
                (SeriesState::Fetching, TickAction::Fetch { from: boundary })
            } else {
                (SeriesState::Idle, TickAction::Skip)
            }
        },
    }
}

/// The states of the four series.
#[derive(Clone, Copy, Debug, PartialEq, Eq, Structural)]
pub struct Scheduler {
    pub depth: SeriesState,
    pub rune_pool: SeriesState,
    pub swap: SeriesState,
    pub earnings: SeriesState,
}

impl Scheduler {
    /// The state of one series.
    pub open spec fn state_of(self, series: Series) -> SeriesState {
        match series {
            Series::Depth => self.depth,
            Series::RunePool => self.rune_pool,
            Series::Swap => self.swap,
            Series::Earnings => self.earnings,
        }
    }

    /// The scheduler with one series in another state.
    pub open spec fn with_state(self, series: Series, state: SeriesState) -> Scheduler {
        match series {
            Series::Depth => Scheduler { depth: state, ..self },
            Series::RunePool => Scheduler { rune_pool: state, ..self },
            Series::Swap => Scheduler { swap: state, ..self },
            Series::Earnings => Scheduler { earnings: state, ..self },
        }
    }

    /// A scheduler with every series idle.
    pub fn new() -> (scheduler: Scheduler)
        ensures
            forall|series: Series| scheduler.state_of(series) == SeriesState::Idle,
    {
        Scheduler {
            depth: SeriesState::Idle,
            rune_pool: SeriesState::Idle,
            swap: SeriesState::Idle,
            earnings: SeriesState::Idle,
        }
    }

    /// Reads the state of one series.
    pub fn state(&self, series: Series) -> (state: SeriesState)
        ensures
            state == self.state_of(series),
    {
        match series {
            Series::Depth => self.depth,
            Series::RunePool => self.rune_pool,
            Series::Swap => self.swap,
            Series::Earnings => self.earnings,
        }
    }

    fn set(&mut self, series: Series, state: SeriesState)
        ensures
            *final(self) == old(self).with_state(series, state),
    {
        match series {
            Series::Depth => {
                self.depth = state;
            },
            Series::RunePool => {
                self.rune_pool = state;
            },
            Series::Swap => {
                self.swap = state;
            },
            Series::Earnings => {
                self.earnings = state;
            },
        }
    }

    /// Takes a tick for one series, whose checkpoint is `boundary`: starts a
    /// fetch where the series is idle and its checkpoint at least
    /// `STALENESS_THRESHOLD` seconds old. The other series are not touched.
    pub fn tick(&mut self, series: Series, boundary: i64, now: i64) -> (action: TickAction)
        ensures
            action == ticked(old(self).state_of(series), boundary, now, STALENESS_THRESHOLD).1,
            *final(self) == old(self).with_state(
                series,
                ticked(old(self).state_of(series), boundary, now, STALENESS_THRESHOLD).0,
            ),
    {
        let (next, action) = on_tick(self.state(series), boundary, now, STALENESS_THRESHOLD);
        self.set(series, next);
        action
    }

    /// Takes the end of a fetch, however it ended: the series is idle again.
    /// The other series are not touched.
    pub fn fetch_finished(&mut self, series: Series)
        ensures
            *final(self) == old(self).with_state(series, SeriesState::Idle),
    {
        self.set(series, SeriesState::Idle);
    }
}

/// The seconds to pause before the next tick, after the work of a tick took
/// `elapsed` seconds: the rest of the cadence, nothing where the work overran.
pub open spec fn pause_of(elapsed: u64, cadence: u64) -> u64 {
    if elapsed < cadence {
        (cadence - elapsed) as u64
    } else {
        0
    }
}

/// Computes the pause before the next tick.
pub fn pause_before_next_tick(elapsed: u64, cadence: u64) -> (pause: u64)
    ensures
        pause == pause_of(elapsed, cadence),
{
    if elapsed < cadence {
        cadence - elapsed
    } else {
        0
    }
}

/// Series are scheduled independently: a tick or the end of a fetch for one
/// series leaves the state of every other series as it was.
pub proof fn lemma_series_independent(scheduler: Scheduler, series: Series, state: SeriesState)
    ensures
        scheduler.with_state(series, state).state_of(series) == state,
        forall|other: Series|
            other != series ==> scheduler.with_state(series, state).state_of(other)
                == scheduler.state_of(other),
{
}

/// At most one fetch of a series is in flight: a tick for a series that is
/// fetching starts nothing and leaves it fetching.
pub proof fn lemma_no_overlap(boundary: i64, now: i64, threshold: i64)
    ensures
        ticked(SeriesState::Fetching, boundary, now, threshold) == (
            SeriesState::Fetching,
            TickAction::Busy,
        ),
{
}

} // verus!
