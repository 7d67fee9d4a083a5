use rust_fetch::fetch::{page_reply, FetchRun, Outcome, Reply, Step};
use rust_fetch::models::{Interval, Series};
use rust_fetch::scheduler::{last_boundary, Scheduler, SeriesState, TickAction};
use rust_fetch::writer::{PageWriter, WriterEvent, WriterStep};

fn depth_row(start_time: i64, end_time: i64) -> Interval {
    Interval {
        asset_depth: 1,
        end_time,
        liquidity_units: 1,
        members_count: 1,
        rune_depth: 1,
        start_time,
        synth_supply: 1,
        synth_units: 1,
        units: 1,
    }
}

fn persist(store: &mut Vec<Interval>, page: &[Interval]) -> usize {
    let mut writer = PageWriter::begin(page.len(), false);
    let mut step = writer.current();
    loop {
        let event = match step {
            WriterStep::Check { row } => WriterEvent::Found {
                present: store.iter().any(|r| r.start_time == page[row].start_time),
            },
            WriterStep::Insert { row } => {
                store.push(page[row]);
                WriterEvent::Inserted { ok: true }
            }
            WriterStep::InsertPools { .. } => WriterEvent::PoolsInserted,
            WriterStep::Finished { written } => return written,
        };
        step = writer.advance(event);
    }
}

fn checkpoint(store: &[Interval], fallback: i64) -> i64 {
    last_boundary(store.iter().map(|r| r.end_time).max(), fallback)
}

/// Runs one fetch against an upstream that serves the given pages in turn;
/// returns the timestamps asked for and why the run stopped.
fn fetch(store: &mut Vec<Interval>, from: i64, now: i64, pages: &[Vec<Interval>]) -> (Vec<i64>, Outcome) {
    let mut run = FetchRun::start(from, now);
    let mut step = run.first();
    let mut asked = Vec::new();
    let mut served = pages.iter();
    loop {
        match step {
            Step::Request { from } => {
                asked.push(from);
                let page = served.next().cloned().unwrap_or_default();
                let end_times: Vec<i64> = page.iter().map(|r| r.end_time).collect();
                let decision = run.advance(page_reply(&end_times));
                if decision.persist {
                    persist(store, &page);
                }
                step = decision.next;
            }
            Step::Retry { from, .. } => step = Step::Request { from },
            Step::Stop { outcome } => return (asked, outcome),
        }
    }
}

#[test]
fn end_to_end_one_page_then_an_empty_one() {
    let fallback = 0;
    let mut store: Vec<Interval> = Vec::new();
    let mut scheduler = Scheduler::new();
    let now = 5000;

    let boundary = checkpoint(&store, fallback);
    assert_eq!(boundary, 0);
    let action = scheduler.tick(Series::Depth, boundary, now);
    assert_eq!(action, TickAction::Fetch { from: 0 });

    let page = vec![depth_row(0, 300), depth_row(300, 600), depth_row(600, 1000)];
    let (asked, outcome) = fetch(&mut store, 0, now, &[page]);
    scheduler.fetch_finished(Series::Depth);

    assert_eq!(asked, vec![0, 1001]);
    assert_eq!(outcome, Outcome::Exhausted);
    assert_eq!(store.len(), 3);
    assert_eq!(checkpoint(&store, fallback), 1000);
    assert_eq!(scheduler.state(Series::Depth), SeriesState::Idle);

    // Half an hour after the checkpoint nothing is fetched.
    let action = scheduler.tick(Series::Depth, checkpoint(&store, fallback), 1000 + 1800);
    assert_eq!(action, TickAction::Skip);
    assert_eq!(scheduler.state(Series::Depth), SeriesState::Idle);
}

#[test]
fn a_second_cycle_resumes_at_the_checkpoint_and_adds_nothing_twice() {
    let mut store: Vec<Interval> = Vec::new();
    let first = vec![depth_row(0, 3600), depth_row(3600, 7200)];
    fetch(&mut store, 0, 1_000_000, &[first.clone()]);
    let boundary = checkpoint(&store, 0);
    assert_eq!(boundary, 7200);
    // The upstream serves the last record again, and a new one.
    let second = vec![depth_row(3600, 7200), depth_row(7200, 10800)];
    let (asked, _) = fetch(&mut store, boundary, 1_000_000, &[second]);
    assert_eq!(asked, vec![7200, 10801]);
    assert_eq!(store.len(), 3);
    assert!(checkpoint(&store, 0) >= boundary);
    assert_eq!(checkpoint(&store, 0), 10800);
}

#[test]
fn a_rejected_request_keeps_what_was_written() {
    let mut store: Vec<Interval> = Vec::new();
    let mut run = FetchRun::start(0, 1_000_000);
    let page = vec![depth_row(0, 10)];
    let decision = run.advance(page_reply(&[10].to_vec()));
    assert!(decision.persist);
    persist(&mut store, &page);
    assert_eq!(decision.next, Step::Request { from: 11 });
    let decision = run.advance(Reply::Rejected);
    assert!(!decision.persist);
    assert_eq!(decision.next, Step::Stop { outcome: Outcome::Rejected });
    assert_eq!(store.len(), 1);
    assert_eq!(checkpoint(&store, 0), 10);
}
