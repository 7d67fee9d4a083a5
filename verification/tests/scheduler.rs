use rust_fetch::models::Series;
use rust_fetch::scheduler::{
    is_stale, last_boundary, on_tick, pause_before_next_tick, Scheduler, SeriesState, TickAction,
    FALLBACK_START, STALENESS_THRESHOLD, TICK_SECONDS,
};

#[test]
fn the_boundary_is_the_latest_end_time_or_the_fallback() {
    assert_eq!(last_boundary(Some(1000), FALLBACK_START), 1000);
    assert_eq!(last_boundary(Some(0), FALLBACK_START), 0);
    assert_eq!(last_boundary(None, FALLBACK_START), 1647910800);
    assert_eq!(last_boundary(None, 5), 5);
}

#[test]
fn a_checkpoint_is_stale_from_the_threshold_on() {
    assert!(!is_stale(1000, 1000 + 3599, 3600));
    assert!(is_stale(1000, 1000 + 3600, 3600));
    assert!(is_stale(1000, 1000 + 3601, 3600));
    assert!(!is_stale(1000, 500, 3600));
    assert!(is_stale(i64::MIN, i64::MAX, i64::MAX));
    assert!(!is_stale(i64::MAX, i64::MIN, 0));
}

#[test]
fn an_idle_series_with_a_stale_checkpoint_fetches() {
    assert_eq!(
        on_tick(SeriesState::Idle, 1000, 10_000, 3600),
        (SeriesState::Fetching, TickAction::Fetch { from: 1000 })
    );
    assert_eq!(on_tick(SeriesState::Idle, 1000, 2800, 3600), (SeriesState::Idle, TickAction::Skip));
}

#[test]
fn a_fetching_series_is_left_alone() {
    assert_eq!(
        on_tick(SeriesState::Fetching, 0, 1_000_000, 3600),
        (SeriesState::Fetching, TickAction::Busy)
    );
}

#[test]
fn series_are_scheduled_by_themselves() {
    let mut scheduler = Scheduler::new();
    assert_eq!(scheduler.tick(Series::Depth, 0, 10_000), TickAction::Fetch { from: 0 });
    assert_eq!(scheduler.state(Series::Depth), SeriesState::Fetching);
    assert_eq!(scheduler.state(Series::RunePool), SeriesState::Idle);
    assert_eq!(scheduler.state(Series::Swap), SeriesState::Idle);
    assert_eq!(scheduler.state(Series::Earnings), SeriesState::Idle);
    // The next tick finds depth still fetching and starts the others.
    assert_eq!(scheduler.tick(Series::Depth, 0, 20_000), TickAction::Busy);
    assert_eq!(scheduler.tick(Series::Swap, 5, 20_000), TickAction::Fetch { from: 5 });
    assert_eq!(scheduler.tick(Series::Earnings, 19_000, 20_000), TickAction::Skip);
    assert_eq!(scheduler.state(Series::Earnings), SeriesState::Idle);
    scheduler.fetch_finished(Series::Depth);
    assert_eq!(scheduler.state(Series::Depth), SeriesState::Idle);
    assert_eq!(scheduler.state(Series::Swap), SeriesState::Fetching);
    assert_eq!(scheduler.tick(Series::Depth, 0, 20_000), TickAction::Fetch { from: 0 });
}

#[test]
fn the_threshold_of_the_scheduler_is_an_hour() {
    assert_eq!(STALENESS_THRESHOLD, 3600);
    assert_eq!(TICK_SECONDS, 3600);
    let mut scheduler = Scheduler::new();
    assert_eq!(scheduler.tick(Series::RunePool, 1000, 1000 + 3599), TickAction::Skip);
    assert_eq!(scheduler.tick(Series::RunePool, 1000, 1000 + 3600), TickAction::Fetch { from: 1000 });
}

#[test]
fn the_pause_is_the_rest_of_the_cadence() {
    assert_eq!(pause_before_next_tick(0, 3600), 3600);
    assert_eq!(pause_before_next_tick(100, 3600), 3500);
    assert_eq!(pause_before_next_tick(3600, 3600), 0);
    assert_eq!(pause_before_next_tick(9999, 3600), 0);
}
