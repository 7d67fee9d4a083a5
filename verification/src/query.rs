//! The query service: from the parameters of a request to the rows of the
//! response.
//!
//! A response is described by spans over the stored rows, taken in ascending
//! order of `start_time`: one span for each record of the response, in the
//! order of the response. Without an interval every span is a single row;
//! with one, every span is a bucket. Pagination comes after bucketing.

use crate::buckets::{bucket_spans, bucket_spans_of, lemma_bucket_spans, span_pairs, Span};
use crate::models::{QueryParams, Series};
use crate::text::{decimal_text, format_integer, parse_integer, parsed_integer, same_text};
use vstd::prelude::*;
use vstd::string::StringExecFns;

verus! {

/// The page size, and the cap on buckets, where the request names none.
pub const DEFAULT_LIMIT: usize = 400;

/// The page where the request names none.
pub const DEFAULT_PAGE: usize = 1;

/// Seconds in a day.
pub const DAY: i64 = 86400;

/// The texts of a list of strings.
pub open spec fn texts_of(strings: Seq<String>) -> Seq<Seq<char>> {
    Seq::new(strings.len(), |i: int| strings[i]@)
}

/// The filter that a bound on `start_time` contributes: none where the bound
/// is absent or is not a decimal integer.
pub open spec fn bound_filter(comparison: Seq<char>, bound: Option<String>) -> Seq<Seq<char>> {
    match bound {
        Some(text) => match parsed_integer(text@) {
            Some(value) => seq![comparison + decimal_text(value)],
            None => Seq::empty(),
        },
        None => Seq::empty(),
    }
}

/// The filters of a request: the lower bound `from`, then the upper bound `to`.
pub open spec fn filters_of(params: QueryParams) -> Seq<Seq<char>> {
    bound_filter("start_time >= "@, params.from) + bound_filter("start_time <= "@, params.to)
}

/// A filter as text: the comparison, such as `start_time >= `, followed by
/// the bound in decimal.
pub fn time_filter(comparison: &str, bound: i64) -> (filter: String)
    ensures
        filter@ == comparison@ + decimal_text(bound),
{
    let mut filter: String = String::from_str(comparison);
    let digits: String = format_integer(bound);
    filter.append(digits.as_str());
    filter
}

/// Appends the filter of one bound, if the bound is a decimal integer.
fn push_bound(filters: &mut Vec<String>, comparison: &str, bound: &Option<String>)
    ensures
        texts_of(final(filters)@) == texts_of(old(filters)@) + bound_filter(comparison@, *bound),
{
    let ghost before = texts_of(filters@);
    if let Some(text) = bound {
        if let Some(value) = parse_integer(text.as_str()) {
            filters.push(time_filter(comparison, value));
            assert(texts_of(filters@) =~= before + seq![comparison@ + decimal_text(value)]);
            return;
        }
    }
    assert(texts_of(filters@) =~= before + Seq::<Seq<char>>::empty());
}

/// Appends to `filters` the conditions on `start_time` that the request asks
/// for. A bound that is not a decimal integer is ignored.
pub fn build_query_filters(filters: &mut Vec<String>, params: &QueryParams)
    ensures
        texts_of(final(filters)@) == texts_of(old(filters)@) + filters_of(*params),
{
    let ghost before = texts_of(filters@);
    push_bound(filters, "start_time >= ", &params.from);
    push_bound(filters, "start_time <= ", &params.to);
    proof {
        let lower = bound_filter("start_time >= "@, params.from);
        let upper = bound_filter("start_time <= "@, params.to);
        assert((before + lower) + upper =~= before + (lower + upper));
    }
}

/// The texts joined by a separator.
pub open spec fn joined(texts: Seq<Seq<char>>, separator: Seq<char>, upto: int) -> Seq<char>
    decreases upto,
{
    if upto <= 0 {
        Seq::empty()
    } else if upto == 1 {
        texts[0]
    } else {
        joined(texts, separator, upto - 1) + separator + texts[upto - 1]
    }
}

/// The statement that selects the rows of a request: the given selection,
/// restricted by the filters where there are any, in ascending order of
/// `start_time`.
pub open spec fn statement_of(selection: Seq<char>, filters: Seq<Seq<char>>) -> Seq<char> {
    if filters.len() == 0 {
        selection + " ORDER BY start_time ASC"@
    } else {
        selection + " WHERE "@ + joined(filters, " AND "@, filters.len() as int)
            + " ORDER BY start_time ASC"@
    }
}

/// Writes the statement that selects the rows of a request.
pub fn select_statement(selection: &str, params: &QueryParams) -> (statement: String)
    ensures
        statement@ == statement_of(selection@, filters_of(*params)),
{
    let mut filters: Vec<String> = Vec::new();
    build_query_filters(&mut filters, params);
    let ghost texts = texts_of(filters@);
    assert(texts =~= filters_of(*params));
    let mut statement: String = String::from_str(selection);
    if filters.len() > 0 {
        statement.append(" WHERE ");
        let ghost head = statement@;
        let mut i: usize = 0;
        while i < filters.len()
            invariant
                i <= filters.len(),
                texts == texts_of(filters@),
                statement@ == head + joined(texts, " AND "@, i as int),
            decreases filters.len() - i,
        {
            if i > 0 {
                statement.append(" AND ");
            }
            statement.append(filters[i].as_str());
            assert(statement@ =~= head + joined(texts, " AND "@, i + 1));
            i = i + 1;
        }
    }
    statement.append(" ORDER BY start_time ASC");
    statement
}

/// The columns and the table that hold a series.
pub open spec fn selection_of(series: Series) -> Seq<char> {
    match series {
        Series::Depth => "SELECT asset_depth, asset_price, asset_price_usd, end_time, liquidity_units, luvi, members_count, rune_depth, start_time, synth_supply, synth_units, units FROM depth_history"@,
        Series::RunePool => "SELECT units, count, start_time, end_time FROM rune_pool_history"@,
        Series::Swap => "SELECT start_time, end_time, to_asset_count, to_rune_count, to_trade_count, from_trade_count, synth_mint_count, synth_redeem_count, total_count, to_asset_volume, to_rune_volume, to_trade_volume, from_trade_volume, synth_mint_volume, synth_redeem_volume, total_volume, total_volume_usd, to_asset_volume_usd, to_rune_volume_usd, to_trade_volume_usd, from_trade_volume_usd, synth_mint_volume_usd, synth_redeem_volume_usd, to_asset_fees, to_rune_fees, to_trade_fees, from_trade_fees, synth_mint_fees, synth_redeem_fees, total_fees, to_asset_average_slip, to_rune_average_slip, to_trade_average_slip, from_trade_average_slip, synth_mint_average_slip, synth_redeem_average_slip, average_slip, rune_price_usd FROM swaps"@,
        Series::Earnings => "SELECT start_time, end_time, block_rewards, earnings, bonding_earnings, liquidity_earnings, avg_node_count, rune_price_usd, liquidity_fees FROM earnings_history"@,
    }
}

/// Names the columns and the table that hold a series.
pub fn selection(series: Series) -> (text: &'static str)
    ensures
        text@ == selection_of(series),
{
    match series {
        Series::Depth => "SELECT asset_depth, asset_price, asset_price_usd, end_time, liquidity_units, luvi, members_count, rune_depth, start_time, synth_supply, synth_units, units FROM depth_history",
        Series::RunePool => "SELECT units, count, start_time, end_time FROM rune_pool_history",
        Series::Swap => "SELECT start_time, end_time, to_asset_count, to_rune_count, to_trade_count, from_trade_count, synth_mint_count, synth_redeem_count, total_count, to_asset_volume, to_rune_volume, to_trade_volume, from_trade_volume, synth_mint_volume, synth_redeem_volume, total_volume, total_volume_usd, to_asset_volume_usd, to_rune_volume_usd, to_trade_volume_usd, from_trade_volume_usd, synth_mint_volume_usd, synth_redeem_volume_usd, to_asset_fees, to_rune_fees, to_trade_fees, from_trade_fees, synth_mint_fees, synth_redeem_fees, total_fees, to_asset_average_slip, to_rune_average_slip, to_trade_average_slip, from_trade_average_slip, synth_mint_average_slip, synth_redeem_average_slip, average_slip, rune_price_usd FROM swaps",
        Series::Earnings => "SELECT start_time, end_time, block_rewards, earnings, bonding_earnings, liquidity_earnings, avg_node_count, rune_price_usd, liquidity_fees FROM earnings_history",
    }
}

/// Writes the statement that selects the rows of a series for a request.
pub fn history_statement(series: Series, params: &QueryParams) -> (statement: String)
    ensures
        statement@ == statement_of(selection_of(series), filters_of(*params)),
{
    select_statement(selection(series), params)
}

/// The width in days of a named interval; one day for an unknown name.
pub open spec fn interval_days(name: Seq<char>) -> int {
    if name == "day"@ {
        1
    } else if name == "week"@ {
        7
    } else if name == "month"@ {
        30
    } else if name == "6months"@ {
        180
    } else if name == "year"@ {
        365
    } else {
        1
    }
}

/// The width in seconds of a named interval.
pub open spec fn interval_seconds(name: Seq<char>) -> i64 {
    (interval_days(name) * DAY) as i64
}

/// The bucket width of a named interval, in seconds: `day` is one day, `week`
/// seven, `month` 30, `6months` 180 and `year` 365. Any other name is a day.
pub fn get_interval_duration(interval: &str) -> (seconds: i64)
    ensures
        seconds == interval_seconds(interval@),
{
    if same_text(interval, "day") {
        DAY
    } else if same_text(interval, "week") {
        7 * DAY
    } else if same_text(interval, "month") {
        30 * DAY
    } else if same_text(interval, "6months") {
        180 * DAY
    } else if same_text(interval, "year") {
        365 * DAY
    } else {
        DAY
    }
}

/// A count that a request names: the value where it is one that `usize`
/// holds, the default otherwise.
pub open spec fn count_or(value: Option<i64>, default: usize) -> usize {
    match value {
        Some(count) => if 0 <= count <= usize::MAX {
            count as usize
        } else {
            default
        },
        None => default,
    }
}

/// Takes a count from a request, with a default for an absent or negative one.
pub fn requested_count(value: Option<i64>, default: usize) -> (count: usize)
    ensures
        count == count_or(value, default),
{
    match value {
        Some(count) => {
            if count >= 0 && count as u64 <= usize::MAX as u64 {
                count as usize
            } else {
                default
            }
        },
        None => default,
    }
}

/// Whether the request asks for descending order.
pub open spec fn wants_descending(order: Option<String>) -> bool {
    match order {
        Some(text) => text@ == "desc"@,
        None => false,
    }
}

/// Tests whether the request asks for descending order: only `desc` does.
pub fn is_descending(order: &Option<String>) -> (descending: bool)
    ensures
        descending == wants_descending(*order),
{
    match order {
        Some(text) => same_text(text.as_str(), "desc"),
        None => false,
    }
}

/// The part `first..end` of `len` items that page `page` of size `limit`
/// shows. Pages count from 1; a page beyond the items is empty.
pub open spec fn window_of(len: int, page: int, limit: int) -> (int, int) {
    if page >= 1 && (page - 1) * limit < len {
        (
            (page - 1) * limit,
            if (page - 1) * limit + limit < len {
                (page - 1) * limit + limit
            } else {
                len
            },
        )
    } else {
        (0, 0)
    }
}

/// Computes the window of a page over `len` items.
pub fn page_window(len: usize, page: usize, limit: usize) -> (window: Span)
    ensures
        (window.first as int, window.end as int) == window_of(
            len as int,
            page as int,
            limit as int,
        ),
        window.first <= window.end <= len,
{
    if page == 0 {
        return Span { first: 0, end: 0 };
    }
    match (page - 1).checked_mul(limit) {
        Some(first) => {
            if first < len {
                let room: usize = len - first;
                let end: usize = if limit < room {
                    first + limit
                } else {
                    len
                };
                Span { first, end }
            } else {
                Span { first: 0, end: 0 }
            }
        },
        None => Span { first: 0, end: 0 },
    }
}

/// One span for each row.
pub open spec fn single_rows(len: nat) -> Seq<(int, int)> {
    Seq::new(len, |i: int| (i, i + 1))
}

/// The spans that a request selects from, before pagination.
pub open spec fn candidate_spans(starts: Seq<i64>, params: QueryParams) -> Seq<(int, int)> {
    match params.interval {
        Some(name) => bucket_spans_of(
            starts,
            interval_seconds(name@),
            count_or(params.limit, DEFAULT_LIMIT) as nat,
        ),
        None => single_rows(starts.len()),
    }
}

/// The spans of the response to a request, in the order of the response.
pub open spec fn response_spans_of(starts: Seq<i64>, params: QueryParams) -> Seq<(int, int)> {
    let all = candidate_spans(starts, params);
    let window = window_of(
        all.len() as int,
        count_or(params.page, DEFAULT_PAGE) as int,
        count_or(params.limit, DEFAULT_LIMIT) as int,
    );
    let page = all.subrange(window.0, window.1);
    if wants_descending(params.order) {
        page.reverse()
    } else {
        page
    }
}

/// Selects the rows of a response. `starts` holds the start times of the
/// stored rows that pass the filters, in ascending order.
///
/// With an interval the rows are bucketed first, with `limit` as the cap on
/// buckets; then page `page` of size `limit` is taken; for `desc` the page is
/// reversed.
pub fn response_spans(starts: &Vec<i64>, params: &QueryParams) -> (spans: Vec<Span>)
    ensures
        span_pairs(spans@) == response_spans_of(starts@, *params),
        forall|k: int|
            0 <= k < spans.len() ==> (#[trigger] spans[k]).first < spans[k].end <= starts.len(),
{
    let limit: usize = requested_count(params.limit, DEFAULT_LIMIT);
    let page: usize = requested_count(params.page, DEFAULT_PAGE);
    let all: Vec<Span> = match &params.interval {
        Some(name) => {
            let width: i64 = get_interval_duration(name.as_str());
            proof {
                lemma_bucket_spans(starts@, width, limit as nat);
            }
            bucket_spans(starts, width, limit)
        },
        None => single_spans(starts.len()),
    };
    let ghost pairs = candidate_spans(starts@, *params);
    let window: Span = page_window(all.len(), page, limit);
    let descending: bool = is_descending(&params.order);
    let count: usize = window.end - window.first;
    let mut spans: Vec<Span> = Vec::new();
    let mut i: usize = 0;
    while i < count
        invariant
            i <= count,
            count == window.end - window.first,
            window.first <= window.end <= all.len(),
            spans.len() == i,
            forall|k: int|
                0 <= k < i ==> #[trigger] spans[k] == all[if descending {
                    window.end - 1 - k
                } else {
                    window.first + k
                }],
        decreases count - i,
    {
        let source: usize = if descending {
            window.end - 1 - i
        } else {
            window.first + i
        };
        spans.push(all[source]);
        i = i + 1;
    }
    proof {
        let chosen = pairs.subrange(window.first as int, window.end as int);
        assert(span_pairs(all@).len() == all.len());
        assert forall|k: int| 0 <= k < spans.len() implies (#[trigger] spans[k]).first
            < spans[k].end <= starts.len() by {
            let source = if descending {
                window.end - 1 - k
            } else {
                window.first + k
            };
            assert(span_pairs(all@)[source] == pairs[source]);
        }
        if descending {
            assert(span_pairs(spans@) =~= chosen.reverse());
        } else {
            assert(span_pairs(spans@) =~= chosen);
        }
    }
    spans
}

/// One span for each of `len` rows.
pub fn single_spans(len: usize) -> (spans: Vec<Span>)
    ensures
        span_pairs(spans@) == single_rows(len as nat),
{
    let mut spans: Vec<Span> = Vec::new();
    let mut i: usize = 0;
    while i < len
        invariant
            i <= len,
            spans.len() == i,
            forall|k: int| 0 <= k < i ==> #[trigger] spans[k] == (Span {
                first: k as usize,
                end: (k + 1) as usize,
            }),
        decreases len - i,
    {
        spans.push(Span { first: i, end: i + 1 });
        i = i + 1;
    }
    proof {
        assert(span_pairs(spans@) =~= single_rows(len as nat));
    }
    spans
}

} // verus!
