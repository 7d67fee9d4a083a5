use rust_fetch::fetch::{
    classify_status, page_reply, request_address, Decision, FetchRun, Outcome, Reply, StatusClass,
    Step, BACKOFF_SECONDS, TOO_MANY_REQUESTS,
};
use rust_fetch::models::Series;

#[test]
fn statuses_are_classified() {
    assert_eq!(classify_status(200), StatusClass::Success);
    assert_eq!(classify_status(204), StatusClass::Success);
    assert_eq!(classify_status(299), StatusClass::Success);
    assert_eq!(classify_status(429), StatusClass::RateLimited);
    assert_eq!(classify_status(TOO_MANY_REQUESTS), StatusClass::RateLimited);
    assert_eq!(classify_status(199), StatusClass::Rejected);
    assert_eq!(classify_status(300), StatusClass::Rejected);
    assert_eq!(classify_status(404), StatusClass::Rejected);
    assert_eq!(classify_status(500), StatusClass::Rejected);
}

#[test]
fn a_page_is_summed_up_by_its_last_end_time() {
    assert_eq!(page_reply(&vec![]), Reply::Empty);
    assert_eq!(page_reply(&vec![10, 30, 20]), Reply::Page { last_end_time: 20 });
}

#[test]
fn the_first_page_is_always_asked_for() {
    let run = FetchRun::start(5000, 1000);
    assert_eq!(run.first(), Step::Request { from: 5000 });
    assert_eq!(run.stopped, None);
}

#[test]
fn the_next_page_starts_one_past_the_last_end_time() {
    let mut run = FetchRun::start(0, 1_000_000);
    let decision = run.advance(Reply::Page { last_end_time: 3599 });
    assert_eq!(decision, Decision { persist: true, next: Step::Request { from: 3600 } });
    assert_eq!(run.from_timestamp, 3600);
    let decision = run.advance(Reply::Page { last_end_time: 7199 });
    assert_eq!(decision.next, Step::Request { from: 7200 });
}

#[test]
fn two_rate_limits_then_a_page() {
    let mut run = FetchRun::start(100, 1_000_000);
    let mut step = run.first();
    let replies = [Reply::RateLimited, Reply::RateLimited, Reply::Page { last_end_time: 500 }];
    let mut waits = 0;
    let mut waited_seconds = 0;
    let mut pages = 0;
    let mut asked = Vec::new();
    for reply in replies {
        if let Step::Retry { seconds, from } = step {
            waits += 1;
            waited_seconds += seconds;
            step = Step::Request { from };
        }
        match step {
            Step::Request { from } => asked.push(from),
            other => panic!("no request to answer: {:?}", other),
        }
        let decision = run.advance(reply);
        if decision.persist {
            pages += 1;
        }
        step = decision.next;
    }
    assert_eq!(waits, 2);
    assert_eq!(waited_seconds, 2 * BACKOFF_SECONDS);
    assert_eq!(pages, 1);
    assert_eq!(asked, vec![100, 100, 100]);
    assert_eq!(step, Step::Request { from: 501 });
}

#[test]
fn a_rate_limit_leaves_the_run_as_it_is() {
    let mut run = FetchRun::start(77, 1000);
    let before = run;
    let decision = run.advance(Reply::RateLimited);
    assert_eq!(run, before);
    assert_eq!(decision, Decision { persist: false, next: Step::Retry { seconds: 5, from: 77 } });
}

#[test]
fn an_unreachable_upstream_is_asked_again() {
    let mut run = FetchRun::start(77, 1000);
    let before = run;
    let decision = run.advance(Reply::Unreachable);
    assert_eq!(run, before);
    assert_eq!(
        decision,
        Decision { persist: false, next: Step::Retry { seconds: BACKOFF_SECONDS, from: 77 } }
    );
}

#[test]
fn a_rejection_stops_the_run() {
    let mut run = FetchRun::start(0, 1000);
    let decision = run.advance(Reply::Rejected);
    assert_eq!(decision, Decision { persist: false, next: Step::Stop { outcome: Outcome::Rejected } });
    assert_eq!(run.stopped, Some(Outcome::Rejected));
    assert_eq!(run.from_timestamp, 0);
}

#[test]
fn an_empty_page_stops_the_run() {
    let mut run = FetchRun::start(0, 1000);
    let decision = run.advance(Reply::Empty);
    assert_eq!(decision.next, Step::Stop { outcome: Outcome::Exhausted });
    assert!(!decision.persist);
}

#[test]
fn the_run_stops_once_it_has_caught_up() {
    let mut run = FetchRun::start(0, 1000);
    let decision = run.advance(Reply::Page { last_end_time: 999 });
    assert_eq!(decision, Decision { persist: true, next: Step::Stop { outcome: Outcome::CaughtUp } });
    assert_eq!(run.from_timestamp, 1000);
    let mut run = FetchRun::start(0, 1000);
    let decision = run.advance(Reply::Page { last_end_time: 998 });
    assert_eq!(decision.next, Step::Request { from: 999 });
}

#[test]
fn the_largest_end_time_does_not_overflow() {
    let mut run = FetchRun::start(0, i64::MAX);
    let decision = run.advance(Reply::Page { last_end_time: i64::MAX });
    assert_eq!(decision.next, Step::Stop { outcome: Outcome::CaughtUp });
    assert_eq!(run.from_timestamp, i64::MAX);
    let mut run = FetchRun::start(0, i64::MAX);
    let decision = run.advance(Reply::Page { last_end_time: i64::MAX - 2 });
    assert_eq!(decision.next, Step::Request { from: i64::MAX - 1 });
}

#[test]
fn a_stopped_run_stays_stopped() {
    let mut run = FetchRun::start(0, 1000);
    run.advance(Reply::Empty);
    let after = run;
    let decision = run.advance(Reply::Page { last_end_time: 5 });
    assert_eq!(decision, Decision { persist: false, next: Step::Stop { outcome: Outcome::Exhausted } });
    assert_eq!(run, after);
}

#[test]
fn the_address_names_series_start_and_page_size() {
    let base = "https://midgard.ninerealms.com/v2/history/";
    assert_eq!(
        request_address(base, Series::Depth, 1647910800),
        "https://midgard.ninerealms.com/v2/history/depths/BTC.BTC?interval=hour&from=1647910800&count=400"
    );
    assert_eq!(
        request_address(base, Series::RunePool, 0),
        "https://midgard.ninerealms.com/v2/history/runepool?interval=hour&from=0&count=400"
    );
    assert_eq!(
        request_address("/", Series::Swap, -1),
        "/swaps?interval=hour&from=-1&count=400"
    );
    assert_eq!(
        request_address("", Series::Earnings, 7),
        "earnings?interval=hour&from=7&count=400"
    );
}
