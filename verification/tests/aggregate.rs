use rust_fetch::aggregate::depth;
use rust_fetch::aggregate::rune_pool;
use rust_fetch::aggregate::swap;
use rust_fetch::buckets::Span;
use rust_fetch::models::{Interval, QueryParams, RunePoolInterval, SwapInterval};

fn pool_row(start_time: i64, end_time: i64, units: i64, count: i64) -> RunePoolInterval {
    RunePoolInterval { start_time, end_time, units, count }
}

fn depth_row(start_time: i64, value: i64) -> Interval {
    Interval {
        asset_depth: value,
        end_time: start_time + 3600,
        liquidity_units: 2 * value,
        members_count: 3,
        rune_depth: 4 * value,
        start_time,
        synth_supply: 5 * value,
        synth_units: 6 * value,
        units: 7 * value,
    }
}

fn swap_row(start_time: i64, value: i64) -> SwapInterval {
    SwapInterval {
        start_time,
        end_time: start_time + 3600,
        to_asset_count: value,
        to_rune_count: value + 1,
        to_trade_count: value + 2,
        from_trade_count: value + 3,
        synth_mint_count: value + 4,
        synth_redeem_count: value + 5,
        total_count: value + 6,
    }
}

fn no_params() -> QueryParams {
    QueryParams { from: None, to: None, order: None, page: None, limit: None, interval: None }
}

#[test]
fn aggregate_adds_units_and_count_and_keeps_the_later_end() {
    let mut bucket = pool_row(0, 3600, 10, 1);
    bucket.aggregate(&pool_row(3600, 7200, 5, 2));
    assert_eq!(bucket, pool_row(0, 7200, 15, 3));
    bucket.aggregate(&pool_row(100, 200, -4, 0));
    assert_eq!(bucket, pool_row(0, 7200, 11, 3));
}

#[test]
fn can_aggregate_tells_an_overflow() {
    let full = pool_row(0, 1, i64::MAX, 0);
    assert!(full.can_aggregate(&pool_row(1, 2, 0, 5)));
    assert!(!full.can_aggregate(&pool_row(1, 2, 1, 5)));
    let low = pool_row(0, 1, 0, i64::MIN);
    assert!(!low.can_aggregate(&pool_row(1, 2, 0, -1)));
}

#[test]
fn bucket_boundaries_of_an_hour() {
    let data = vec![
        pool_row(0, 100, 1, 10),
        pool_row(500, 600, 2, 20),
        pool_row(1000, 1100, 4, 40),
        pool_row(3700, 3800, 8, 80),
    ];
    let out = rune_pool::aggregate_rune_pool_by_interval(data, 3600, 400).unwrap();
    assert_eq!(out, vec![pool_row(0, 1100, 7, 70), pool_row(3700, 3800, 8, 80)]);
}

#[test]
fn the_buckets_hold_every_unit_of_the_rows() {
    let data: Vec<RunePoolInterval> =
        (0..50).map(|i| pool_row(i * 1000, i * 1000 + 999, i * 3 + 1, i)).collect();
    let units: i64 = data.iter().map(|r| r.units).sum();
    let count: i64 = data.iter().map(|r| r.count).sum();
    let out = rune_pool::aggregate_rune_pool_by_interval(data, 7000, 400).unwrap();
    assert_eq!(out.len(), 8);
    assert_eq!(out.iter().map(|r| r.units).sum::<i64>(), units);
    assert_eq!(out.iter().map(|r| r.count).sum::<i64>(), count);
}

#[test]
fn a_cut_off_leaves_the_later_rows_out() {
    let data = vec![pool_row(0, 9, 1, 1), pool_row(10, 19, 2, 1), pool_row(20, 29, 4, 1)];
    let out = rune_pool::aggregate_rune_pool_by_interval(data.clone(), 10, 2).unwrap();
    assert_eq!(out, vec![pool_row(0, 9, 1, 1), pool_row(10, 19, 2, 1)]);
    let out = rune_pool::aggregate_rune_pool_by_interval(data, 10, 0).unwrap();
    assert_eq!(out, vec![pool_row(0, 9, 1, 1)]);
}

#[test]
fn no_rows_aggregate_to_nothing() {
    assert_eq!(rune_pool::aggregate_rune_pool_by_interval(vec![], 86400, 400), Some(vec![]));
}

#[test]
fn a_sum_beyond_i64_gives_none() {
    let data = vec![pool_row(0, 1, i64::MAX, 0), pool_row(1, 2, 1, 0)];
    assert_eq!(rune_pool::aggregate_rune_pool_by_interval(data.clone(), 3600, 400), None);
    // In buckets of their own the rows do not meet.
    assert_eq!(rune_pool::aggregate_rune_pool_by_interval(data.clone(), 1, 400), Some(data));
}

#[test]
fn an_overflow_beyond_the_cut_off_does_not_count() {
    let data = vec![pool_row(0, 1, 1, 0), pool_row(10, 11, i64::MAX, 0), pool_row(11, 12, 1, 0)];
    assert_eq!(rune_pool::aggregate_rune_pool_by_interval(data.clone(), 10, 400), None);
    assert_eq!(
        rune_pool::aggregate_rune_pool_by_interval(data, 10, 1),
        Some(vec![pool_row(0, 1, 1, 0)])
    );
}

#[test]
fn fold_span_folds_the_rows_of_the_span_only() {
    let data = vec![pool_row(0, 5, 1, 1), pool_row(1, 9, 2, 1), pool_row(2, 7, 4, 1)];
    assert_eq!(rune_pool::fold_span(&data, Span { first: 1, end: 3 }), Some(pool_row(1, 9, 6, 2)));
    assert_eq!(rune_pool::fold_span(&data, Span { first: 2, end: 3 }), Some(pool_row(2, 7, 4, 1)));
    assert_eq!(rune_pool::start_times(&data), vec![0, 1, 2]);
}

#[test]
fn depth_fields_add_up() {
    let mut bucket = depth_row(0, 10);
    bucket.aggregate(&depth_row(3600, 1));
    assert_eq!(
        bucket,
        Interval {
            asset_depth: 11,
            end_time: 7200,
            liquidity_units: 22,
            members_count: 6,
            rune_depth: 44,
            start_time: 0,
            synth_supply: 55,
            synth_units: 66,
            units: 77,
        }
    );
}

#[test]
fn depth_members_count_is_held_to_32_bits() {
    let mut many = depth_row(0, 1);
    many.members_count = i32::MAX;
    assert!(!many.can_aggregate(&depth_row(1, 1)));
    let data = vec![many, depth_row(1, 1)];
    assert_eq!(depth::aggregate_depth_by_interval(data, 3600, 400), None);
}

#[test]
fn depth_buckets_of_a_day() {
    let data: Vec<Interval> = (0..48).map(|h| depth_row(h * 3600, h)).collect();
    let out = depth::aggregate_depth_by_interval(data, 86400, 400).unwrap();
    assert_eq!(out.len(), 2);
    assert_eq!(out[0].start_time, 0);
    assert_eq!(out[0].end_time, 24 * 3600);
    assert_eq!(out[0].asset_depth, (0..24).sum::<i64>());
    assert_eq!(out[0].members_count, 72);
    assert_eq!(out[1].start_time, 86400);
    assert_eq!(out[1].units, 7 * (24..48).sum::<i64>());
}

#[test]
fn swap_counts_add_up() {
    let mut bucket = swap_row(0, 1);
    bucket.aggregate(&swap_row(3600, 10));
    assert_eq!(
        bucket,
        SwapInterval {
            start_time: 0,
            end_time: 7200,
            to_asset_count: 11,
            to_rune_count: 13,
            to_trade_count: 15,
            from_trade_count: 17,
            synth_mint_count: 19,
            synth_redeem_count: 21,
            total_count: 23,
        }
    );
    let mut full = swap_row(0, 0);
    full.total_count = i64::MAX;
    assert!(!full.can_aggregate(&swap_row(1, 0)));
}

#[test]
fn swap_buckets_of_a_week() {
    let data: Vec<SwapInterval> = (0..14).map(|d| swap_row(d * 86400, 1)).collect();
    let out = swap::aggregate_swap_by_interval(data, 7 * 86400, 400).unwrap();
    assert_eq!(out.len(), 2);
    assert_eq!(out[0].to_asset_count, 7);
    assert_eq!(out[1].total_count, 49);
    assert_eq!(out[1].start_time, 7 * 86400);
}

#[test]
fn a_request_without_interval_pages_the_rows() {
    let rows: Vec<RunePoolInterval> = (0..10).map(|i| pool_row(i, i + 1, i, 1)).collect();
    let mut params = no_params();
    params.limit = Some(4);
    params.page = Some(3);
    assert_eq!(rune_pool::rune_pool_history(&rows, &params).unwrap(), rows[8..10].to_vec());
    params.order = Some("desc".to_string());
    params.page = Some(1);
    let page = rune_pool::rune_pool_history(&rows, &params).unwrap();
    assert_eq!(page, vec![rows[3], rows[2], rows[1], rows[0]]);
}

#[test]
fn a_request_with_interval_pages_the_buckets() {
    let rows: Vec<RunePoolInterval> =
        (0..72).map(|h| pool_row(h * 3600, h * 3600 + 3600, 1, 1)).collect();
    let mut params = no_params();
    params.interval = Some("day".to_string());
    let page = rune_pool::rune_pool_history(&rows, &params).unwrap();
    assert_eq!(
        page,
        vec![
            pool_row(0, 86400, 24, 24),
            pool_row(86400, 172800, 24, 24),
            pool_row(172800, 259200, 24, 24),
        ]
    );
    params.order = Some("desc".to_string());
    params.limit = Some(2);
    let page = rune_pool::rune_pool_history(&rows, &params).unwrap();
    assert_eq!(page, vec![pool_row(86400, 172800, 24, 24), pool_row(0, 86400, 24, 24)]);
    params.page = Some(2);
    assert_eq!(rune_pool::rune_pool_history(&rows, &params).unwrap(), vec![]);
}

#[test]
fn depth_and_swap_requests_fold_the_same_spans() {
    let depth_rows: Vec<Interval> = (0..4).map(|i| depth_row(i * 43200, 1)).collect();
    let swap_rows: Vec<SwapInterval> = (0..4).map(|i| swap_row(i * 43200, 1)).collect();
    let mut params = no_params();
    params.interval = Some("day".to_string());
    let depth_page = depth::depth_history(&depth_rows, &params).unwrap();
    let swap_page = swap::swap_history(&swap_rows, &params).unwrap();
    assert_eq!(depth_page.len(), 2);
    assert_eq!(swap_page.len(), 2);
    assert_eq!(depth_page[1].start_time, 86400);
    assert_eq!(depth_page[1].asset_depth, 2);
    assert_eq!(swap_page[1].to_asset_count, 2);
    assert_eq!(depth::start_times(&depth_rows), swap::start_times(&swap_rows));
}
