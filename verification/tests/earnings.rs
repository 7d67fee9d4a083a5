use rust_fetch::aggregate::earnings::{
    aggregate_earnings_by_interval, attach_pools, earnings_history, find_pool_rows, fold_span,
    pool_slot,
};
use rust_fetch::buckets::Span;
use rust_fetch::models::{EarningsInterval, Pool, PoolWithStartTime, QueryParams};

fn pool(name: &str) -> Pool {
    Pool { pool_name: name.to_string() }
}

fn snapshot(start_time: i64, block_rewards: i64, pools: &[&str]) -> EarningsInterval {
    EarningsInterval {
        start_time,
        end_time: start_time + 3600,
        block_rewards,
        pools: pools.iter().map(|name| pool(name)).collect(),
    }
}

fn names(interval: &EarningsInterval) -> Vec<String> {
    interval.pools.iter().map(|p| p.pool_name.clone()).collect()
}

#[test]
fn pools_merge_by_name() {
    // One record with BTC.BTC earning 10, one with BTC.BTC earning 5 and
    // ETH.ETH earning 3, fold to BTC.BTC 15 and ETH.ETH 3.
    let mut bucket = snapshot(0, 1, &["BTC.BTC"]);
    let mut earnings: Vec<f64> = vec![10.0];
    let incoming = snapshot(3600, 2, &["BTC.BTC", "ETH.ETH"]);
    let incoming_earnings: Vec<f64> = vec![5.0, 3.0];
    for (theirs, amount) in incoming.pools.iter().zip(incoming_earnings) {
        match pool_slot(&bucket.pools, &theirs.pool_name) {
            Some(slot) => earnings[slot] += amount,
            None => earnings.push(amount),
        }
    }
    bucket.aggregate(&incoming);
    assert_eq!(names(&bucket), vec!["BTC.BTC", "ETH.ETH"]);
    assert_eq!(earnings, vec![15.0, 3.0]);
    assert_eq!(bucket.block_rewards, 3);
    assert_eq!(bucket.start_time, 0);
    assert_eq!(bucket.end_time, 7200);
}

#[test]
fn pool_slot_is_the_first_pool_of_that_name() {
    let pools = vec![pool("A"), pool("B"), pool("A")];
    assert_eq!(pool_slot(&pools, &"A".to_string()), Some(0));
    assert_eq!(pool_slot(&pools, &"B".to_string()), Some(1));
    assert_eq!(pool_slot(&pools, &"C".to_string()), None);
    assert_eq!(pool_slot(&vec![], &"A".to_string()), None);
}

#[test]
fn a_new_pool_is_appended_once() {
    let mut bucket = snapshot(0, 0, &["A"]);
    bucket.aggregate(&snapshot(1, 0, &["B", "B", "A", "C"]));
    assert_eq!(names(&bucket), vec!["A", "B", "C"]);
}

#[test]
fn block_rewards_beyond_i64_cannot_be_aggregated() {
    let full = snapshot(0, i64::MAX, &[]);
    assert!(!full.can_aggregate(&snapshot(1, 1, &[])));
    assert!(full.can_aggregate(&snapshot(1, 0, &[])));
    let data = vec![snapshot(0, i64::MAX, &[]), snapshot(1, 1, &[])];
    assert!(aggregate_earnings_by_interval(data, 3600, 400).is_none());
}

#[test]
fn earnings_buckets_merge_the_pools_of_their_rows() {
    let data = vec![
        snapshot(0, 1, &["BTC.BTC"]),
        snapshot(3600, 2, &["ETH.ETH", "BTC.BTC"]),
        snapshot(90000, 4, &["DOGE.DOGE"]),
    ];
    let out = aggregate_earnings_by_interval(data, 86400, 400).unwrap();
    assert_eq!(out.len(), 2);
    assert_eq!(out[0].block_rewards, 3);
    assert_eq!(out[0].end_time, 7200);
    assert_eq!(names(&out[0]), vec!["BTC.BTC", "ETH.ETH"]);
    assert_eq!(out[1].block_rewards, 4);
    assert_eq!(names(&out[1]), vec!["DOGE.DOGE"]);
}

#[test]
fn fold_span_of_earnings_keeps_the_first_start() {
    let data = vec![snapshot(5, 1, &["A"]), snapshot(6, 2, &["B"]), snapshot(7, 4, &["A"])];
    let bucket = fold_span(&data, Span { first: 1, end: 3 }).unwrap();
    assert_eq!(bucket.start_time, 6);
    assert_eq!(bucket.block_rewards, 6);
    assert_eq!(names(&bucket), vec!["B", "A"]);
}

#[test]
fn duplicate_copies_fields_and_pools() {
    let source = snapshot(9, 8, &["A", "B"]);
    let copy = source.duplicate();
    assert_eq!(copy.start_time, 9);
    assert_eq!(copy.end_time, 3609);
    assert_eq!(copy.block_rewards, 8);
    assert_eq!(names(&copy), vec!["A", "B"]);
    assert_eq!(pool("X").duplicate().pool_name, "X");
}

#[test]
fn stored_pools_are_attached_by_start_time() {
    let page = vec![snapshot(0, 1, &[]), snapshot(3600, 2, &["kept"]), snapshot(7200, 3, &[])];
    let rows = vec![
        PoolWithStartTime { earnings_start_time: 7200, pool: pool("C1") },
        PoolWithStartTime { earnings_start_time: 0, pool: pool("A1") },
        PoolWithStartTime { earnings_start_time: 7200, pool: pool("C2") },
        PoolWithStartTime { earnings_start_time: 99, pool: pool("nobody") },
    ];
    assert_eq!(find_pool_rows(&rows, 7200), vec![0, 2]);
    assert_eq!(find_pool_rows(&rows, 0), vec![1]);
    assert_eq!(find_pool_rows(&rows, 3600), Vec::<usize>::new());
    let out = attach_pools(&page, &rows);
    assert_eq!(out.len(), 3);
    assert_eq!(names(&out[0]), vec!["A1"]);
    assert_eq!(names(&out[1]), vec!["kept"]);
    assert_eq!(names(&out[2]), vec!["C1", "C2"]);
    assert_eq!(out[2].block_rewards, 3);
    assert_eq!(out[1].start_time, 3600);
}

#[test]
fn an_earnings_request_buckets_then_pages() {
    let rows: Vec<EarningsInterval> = (0..60).map(|d| snapshot(d * 86400, 1, &[])).collect();
    let params = QueryParams {
        from: None,
        to: None,
        order: Some("desc".to_string()),
        page: None,
        limit: None,
        interval: Some("month".to_string()),
    };
    let page = earnings_history(&rows, &params).unwrap();
    assert_eq!(page.len(), 2);
    assert_eq!(page[0].start_time, 30 * 86400);
    assert_eq!(page[0].block_rewards, 30);
    assert_eq!(page[1].start_time, 0);
}
