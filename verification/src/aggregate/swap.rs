//! Buckets of swap snapshots.

use crate::buckets::{
    bucket_spans, bucket_spans_of, covered_rows, lemma_bucket_spans, span_pairs, Span,
};
use crate::models::{QueryParams, SwapInterval};
use crate::query::{response_spans, response_spans_of};
use crate::totals::{
    lemma_peak, lemma_span_totals, lemma_total_one, peak, running_sums_within, total,
};
use vstd::prelude::*;

verus! {

/// The start times of the rows.
pub open spec fn starts_of(data: Seq<SwapInterval>) -> Seq<i64> {
    Seq::new(data.len(), |i: int| data[i].start_time)
}

/// The column of `end_time`.
pub open spec fn end_times_of(data: Seq<SwapInterval>) -> Seq<int> {
    Seq::new(data.len(), |i: int| data[i].end_time as int)
}

/// The column of `to_asset_count`.
pub open spec fn to_asset_counts_of(data: Seq<SwapInterval>) -> Seq<int> {
    Seq::new(data.len(), |i: int| data[i].to_asset_count as int)
}

/// The column of `to_rune_count`.
pub open spec fn to_rune_counts_of(data: Seq<SwapInterval>) -> Seq<int> {
    Seq::new(data.len(), |i: int| data[i].to_rune_count as int)
}

/// The column of `to_trade_count`.
pub open spec fn to_trade_counts_of(data: Seq<SwapInterval>) -> Seq<int> {
    Seq::new(data.len(), |i: int| data[i].to_trade_count as int)
}

/// The column of `from_trade_count`.
pub open spec fn from_trade_counts_of(data: Seq<SwapInterval>) -> Seq<int> {
    Seq::new(data.len(), |i: int| data[i].from_trade_count as int)
}

/// The column of `synth_mint_count`.
pub open spec fn synth_mint_counts_of(data: Seq<SwapInterval>) -> Seq<int> {
    Seq::new(data.len(), |i: int| data[i].synth_mint_count as int)
}

/// The column of `synth_redeem_count`.
pub open spec fn synth_redeem_counts_of(data: Seq<SwapInterval>) -> Seq<int> {
    Seq::new(data.len(), |i: int| data[i].synth_redeem_count as int)
}

/// The column of `total_count`.
pub open spec fn total_counts_of(data: Seq<SwapInterval>) -> Seq<int> {
    Seq::new(data.len(), |i: int| data[i].total_count as int)
}

/// The record that the rows `first..end` fold to.
pub open spec fn bucket_of(data: Seq<SwapInterval>, first: int, end: int) -> SwapInterval {
    SwapInterval {
        start_time: data[first].start_time,
        end_time: peak(end_times_of(data), first, end) as i64,
        to_asset_count: total(to_asset_counts_of(data), first, end) as i64,
        to_rune_count: total(to_rune_counts_of(data), first, end) as i64,
        to_trade_count: total(to_trade_counts_of(data), first, end) as i64,
        from_trade_count: total(from_trade_counts_of(data), first, end) as i64,
        synth_mint_count: total(synth_mint_counts_of(data), first, end) as i64,
        synth_redeem_count: total(synth_redeem_counts_of(data), first, end) as i64,
        total_count: total(total_counts_of(data), first, end) as i64,
    }
}

/// Whether folding the rows `first..end` from left to right keeps every sum
/// within the range of its field.
pub open spec fn bucket_fits(data: Seq<SwapInterval>, first: int, end: int) -> bool {
    &&& running_sums_within(to_asset_counts_of(data), first, end, i64::MIN as int, i64::MAX as int)
    &&& running_sums_within(to_rune_counts_of(data), first, end, i64::MIN as int, i64::MAX as int)
    &&& running_sums_within(to_trade_counts_of(data), first, end, i64::MIN as int, i64::MAX as int)
    &&& running_sums_within(from_trade_counts_of(data), first, end, i64::MIN as int, i64::MAX as int)
    &&& running_sums_within(synth_mint_counts_of(data), first, end, i64::MIN as int, i64::MAX as int)
    &&& running_sums_within(synth_redeem_counts_of(data), first, end, i64::MIN as int, i64::MAX as int)
    &&& running_sums_within(total_counts_of(data), first, end, i64::MIN as int, i64::MAX as int)
}

/// The records that the given spans of rows fold to, one for each span.
pub open spec fn folds_of(data: Seq<SwapInterval>, spans: Seq<(int, int)>) -> Seq<SwapInterval> {
    Seq::new(spans.len(), |k: int| bucket_of(data, spans[k].0, spans[k].1))
}

/// Whether every one of the given spans folds within the range of its fields.
pub open spec fn folds_fit(data: Seq<SwapInterval>, spans: Seq<(int, int)>) -> bool {
    forall|k: int| 0 <= k < spans.len() ==> bucket_fits(data, (#[trigger] spans[k]).0, spans[k].1)
}

/// The buckets of `data` for a width and a limit, each folded to one record.
pub open spec fn buckets_of(data: Seq<SwapInterval>, width: i64, limit: nat) -> Seq<SwapInterval> {
    folds_of(data, bucket_spans_of(starts_of(data), width, limit))
}

/// Whether every bucket of `data` folds within the range of its fields.
pub open spec fn buckets_fit(data: Seq<SwapInterval>, width: i64, limit: nat) -> bool {
    folds_fit(data, bucket_spans_of(starts_of(data), width, limit))
}

/// The records of the response to a request over the stored rows `data`.
pub open spec fn response_of(data: Seq<SwapInterval>, params: QueryParams) -> Seq<SwapInterval> {
    folds_of(data, response_spans_of(starts_of(data), params))
}

/// Whether every record of the response folds within the range of its fields.
pub open spec fn response_fits(data: Seq<SwapInterval>, params: QueryParams) -> bool {
    folds_fit(data, response_spans_of(starts_of(data), params))
}

impl SwapInterval {
    /// Whether the sums of `aggregate` stay within the range of their fields.
    pub open spec fn sums_fit(self, other: Self) -> bool {
        &&& i64::MIN <= self.to_asset_count + other.to_asset_count <= i64::MAX
        &&& i64::MIN <= self.to_rune_count + other.to_rune_count <= i64::MAX
        &&& i64::MIN <= self.to_trade_count + other.to_trade_count <= i64::MAX
        &&& i64::MIN <= self.from_trade_count + other.from_trade_count <= i64::MAX
        &&& i64::MIN <= self.synth_mint_count + other.synth_mint_count <= i64::MAX
        &&& i64::MIN <= self.synth_redeem_count + other.synth_redeem_count <= i64::MAX
        &&& i64::MIN <= self.total_count + other.total_count <= i64::MAX
    }

    /// The record after `other` has been folded into `self`.
    pub open spec fn folded(self, other: Self) -> Self {
        SwapInterval {
            start_time: self.start_time,
            end_time: if self.end_time >= other.end_time {
                self.end_time
            } else {
                other.end_time
            },
            to_asset_count: (self.to_asset_count + other.to_asset_count) as i64,
            to_rune_count: (self.to_rune_count + other.to_rune_count) as i64,
            to_trade_count: (self.to_trade_count + other.to_trade_count) as i64,
            from_trade_count: (self.from_trade_count + other.from_trade_count) as i64,
            synth_mint_count: (self.synth_mint_count + other.synth_mint_count) as i64,
            synth_redeem_count: (self.synth_redeem_count + other.synth_redeem_count) as i64,
            total_count: (self.total_count + other.total_count) as i64,
        }
    }

    /// Tests whether `other` can be folded into `self` without overflow.
    pub fn can_aggregate(&self, other: &Self) -> (ok: bool)
        ensures
            ok == self.sums_fit(*other),
    {
        self.to_asset_count.checked_add(other.to_asset_count).is_some()
            && self.to_rune_count.checked_add(other.to_rune_count).is_some()
            && self.to_trade_count.checked_add(other.to_trade_count).is_some()
            && self.from_trade_count.checked_add(other.from_trade_count).is_some()
            && self.synth_mint_count.checked_add(other.synth_mint_count).is_some()
            && self.synth_redeem_count.checked_add(other.synth_redeem_count).is_some()
            && self.total_count.checked_add(other.total_count).is_some()
    }

    /// Folds `other` into `self`: every count adds up, `end_time` becomes the
    /// later of the two, `start_time` stays.
    pub fn aggregate(&mut self, other: &Self)
        requires
            old(self).sums_fit(*other),
        ensures
            *final(self) == old(self).folded(*other),
    {
        self.to_asset_count = self.to_asset_count + other.to_asset_count;
        self.to_rune_count = self.to_rune_count + other.to_rune_count;
        self.to_trade_count = self.to_trade_count + other.to_trade_count;
        self.from_trade_count = self.from_trade_count + other.from_trade_count;
        self.synth_mint_count = self.synth_mint_count + other.synth_mint_count;
        self.synth_redeem_count = self.synth_redeem_count + other.synth_redeem_count;
        self.total_count = self.total_count + other.total_count;
        if other.end_time > self.end_time {
            self.end_time = other.end_time;
        }
    }
}

/// Folds the rows of one span into one record, or returns `None` where a sum
/// leaves the range of its field.
pub fn fold_span(data: &Vec<SwapInterval>, span: Span) -> (out: Option<SwapInterval>)
    requires
        span.first < span.end <= data.len(),
    ensures
        out is Some <==> bucket_fits(data@, span.first as int, span.end as int),
        out is Some ==> out->0 == bucket_of(data@, span.first as int, span.end as int),
{
    let mut acc: SwapInterval = data[span.first];
    let mut j: usize = span.first + 1;
    proof {
        lemma_total_one(to_asset_counts_of(data@), span.first as int);
        lemma_total_one(to_rune_counts_of(data@), span.first as int);
        lemma_total_one(to_trade_counts_of(data@), span.first as int);
        lemma_total_one(from_trade_counts_of(data@), span.first as int);
        lemma_total_one(synth_mint_counts_of(data@), span.first as int);
        lemma_total_one(synth_redeem_counts_of(data@), span.first as int);
        lemma_total_one(total_counts_of(data@), span.first as int);
    }
    while j < span.end
        invariant
            span.first < j <= span.end <= data.len(),
            acc == bucket_of(data@, span.first as int, j as int),
            bucket_fits(data@, span.first as int, j as int),
        decreases span.end - j,
    {
        let row: &SwapInterval = &data[j];
        proof {
            lemma_peak(end_times_of(data@), span.first as int, j as int);
            assert(total(to_asset_counts_of(data@), span.first as int, j + 1) == acc.to_asset_count + row.to_asset_count);
            assert(total(to_rune_counts_of(data@), span.first as int, j + 1) == acc.to_rune_count + row.to_rune_count);
            assert(total(to_trade_counts_of(data@), span.first as int, j + 1) == acc.to_trade_count + row.to_trade_count);
            assert(total(from_trade_counts_of(data@), span.first as int, j + 1) == acc.from_trade_count + row.from_trade_count);
            assert(total(synth_mint_counts_of(data@), span.first as int, j + 1) == acc.synth_mint_count + row.synth_mint_count);
            assert(total(synth_redeem_counts_of(data@), span.first as int, j + 1) == acc.synth_redeem_count + row.synth_redeem_count);
            assert(total(total_counts_of(data@), span.first as int, j + 1) == acc.total_count + row.total_count);
        }
        if !acc.can_aggregate(row) {
            return None;
        }
        acc.aggregate(row);
        j = j + 1;
    }
    Some(acc)
}

/// Folds each of the given spans into one record, in their order, or returns
/// `None` where a sum leaves the range of its field.
pub fn fold_spans(data: &Vec<SwapInterval>, spans: &Vec<Span>) -> (out: Option<Vec<SwapInterval>>)
    requires
        forall|k: int|
            0 <= k < spans.len() ==> (#[trigger] spans[k]).first < spans[k].end <= data.len(),
    ensures
        out is Some <==> folds_fit(data@, span_pairs(spans@)),
        out is Some ==> out->0@ == folds_of(data@, span_pairs(spans@)),
{
    let ghost pairs = span_pairs(spans@);
    let mut out: Vec<SwapInterval> = Vec::new();
    let mut k: usize = 0;
    while k < spans.len()
        invariant
            k <= spans.len(),
            pairs == span_pairs(spans@),
            forall|m: int|
                0 <= m < spans.len() ==> (#[trigger] spans[m]).first < spans[m].end <= data.len(),
            out.len() == k,
            forall|m: int|
                0 <= m < k ==> #[trigger] out[m] == bucket_of(data@, pairs[m].0, pairs[m].1),
            forall|m: int| 0 <= m < k ==> bucket_fits(data@, (#[trigger] pairs[m]).0, pairs[m].1),
        decreases spans.len() - k,
    {
        let span = spans[k];
        proof {
            assert(pairs[k as int] == (span.first as int, span.end as int));
        }
        match fold_span(data, span) {
            Some(bucket) => {
                out.push(bucket);
            },
            None => {
                return None;
            },
        }
        k = k + 1;
    }
    proof {
        assert(out@ =~= folds_of(data@, pairs));
    }
    Some(out)
}

/// Aggregates swap snapshots, sorted by `start_time`, into buckets of
/// `interval_duration` seconds, stopping once `limit` buckets are closed.
/// Returns `None` where a sum within a bucket leaves the range of its field.
pub fn aggregate_swap_by_interval(
    data: Vec<SwapInterval>,
    interval_duration: i64,
    limit: usize,
) -> (out: Option<Vec<SwapInterval>>)
    ensures
        out is Some <==> buckets_fit(data@, interval_duration, limit as nat),
        out is Some ==> out->0@ == buckets_of(data@, interval_duration, limit as nat),
{
    let starts = start_times(&data);
    let spans = bucket_spans(&starts, interval_duration, limit);
    proof {
        lemma_bucket_spans(starts_of(data@), interval_duration, limit as nat);
        assert forall|k: int| 0 <= k < spans.len() implies (#[trigger] spans[k]).first
            < spans[k].end <= data.len() by {
            assert(span_pairs(spans@)[k] == (spans[k].first as int, spans[k].end as int));
        }
    }
    fold_spans(&data, &spans)
}

/// Answers a request over the stored rows that pass its filters, given in
/// ascending order of `start_time`: buckets them where the request names an
/// interval, takes the page, and reverses it for descending order. Returns
/// `None` where a sum within a bucket leaves the range of its field.
pub fn swap_history(rows: &Vec<SwapInterval>, params: &QueryParams) -> (out: Option<Vec<SwapInterval>>)
    ensures
        out is Some <==> response_fits(rows@, *params),
        out is Some ==> out->0@ == response_of(rows@, *params),
{
    let starts = start_times(rows);
    let spans = response_spans(&starts, params);
    fold_spans(rows, &spans)
}

/// The start times of the rows, in order.
pub fn start_times(data: &Vec<SwapInterval>) -> (starts: Vec<i64>)
    ensures
        starts@ == starts_of(data@),
{
    let mut starts: Vec<i64> = Vec::new();
    let mut i: usize = 0;
    while i < data.len()
        invariant
            i <= data.len(),
            starts.len() == i,
            forall|m: int| 0 <= m < i ==> #[trigger] starts[m] == data[m].start_time,
        decreases data.len() - i,
    {
        starts.push(data[i].start_time);
        i = i + 1;
    }
    proof {
        assert(starts@ =~= starts_of(data@));
    }
    starts
}

/// Bucket completeness: summed over all emitted buckets, every additive
/// field equals its sum over the rows that the buckets cover, which are all
/// rows unless the limit cut the buckets off.
pub proof fn lemma_buckets_complete(data: Seq<SwapInterval>, width: i64, limit: nat)
    requires
        buckets_fit(data, width, limit),
    ensures
        total(to_asset_counts_of(buckets_of(data, width, limit)), 0, buckets_of(data, width, limit).len() as int)
            == total(to_asset_counts_of(data), 0, covered_rows(starts_of(data), width, limit)),
        total(to_rune_counts_of(buckets_of(data, width, limit)), 0, buckets_of(data, width, limit).len() as int)
            == total(to_rune_counts_of(data), 0, covered_rows(starts_of(data), width, limit)),
        total(to_trade_counts_of(buckets_of(data, width, limit)), 0, buckets_of(data, width, limit).len() as int)
            == total(to_trade_counts_of(data), 0, covered_rows(starts_of(data), width, limit)),
        total(from_trade_counts_of(buckets_of(data, width, limit)), 0, buckets_of(data, width, limit).len() as int)
            == total(from_trade_counts_of(data), 0, covered_rows(starts_of(data), width, limit)),
        total(synth_mint_counts_of(buckets_of(data, width, limit)), 0, buckets_of(data, width, limit).len() as int)
            == total(synth_mint_counts_of(data), 0, covered_rows(starts_of(data), width, limit)),
        total(synth_redeem_counts_of(buckets_of(data, width, limit)), 0, buckets_of(data, width, limit).len() as int)
            == total(synth_redeem_counts_of(data), 0, covered_rows(starts_of(data), width, limit)),
        total(total_counts_of(buckets_of(data, width, limit)), 0, buckets_of(data, width, limit).len() as int)
            == total(total_counts_of(data), 0, covered_rows(starts_of(data), width, limit)),
        bucket_spans_of(starts_of(data), width, limit).len() < crate::buckets::bucket_cap(limit)
            ==> covered_rows(starts_of(data), width, limit) == data.len(),
{
    let spans = bucket_spans_of(starts_of(data), width, limit);
    let buckets = buckets_of(data, width, limit);
    lemma_bucket_spans(starts_of(data), width, limit);
    assert forall|k: int| 0 <= k < spans.len() implies #[trigger] to_asset_counts_of(buckets)[k] == total(
        to_asset_counts_of(data),
        spans[k].0,
        spans[k].1,
    ) by {
        assert(bucket_fits(data, spans[k].0, spans[k].1));
        assert(buckets[k] == bucket_of(data, spans[k].0, spans[k].1));
    }
    lemma_span_totals(to_asset_counts_of(data), spans, to_asset_counts_of(buckets), spans.len() as int);
    assert forall|k: int| 0 <= k < spans.len() implies #[trigger] to_rune_counts_of(buckets)[k] == total(
        to_rune_counts_of(data),
        spans[k].0,
        spans[k].1,
    ) by {
        assert(bucket_fits(data, spans[k].0, spans[k].1));
        assert(buckets[k] == bucket_of(data, spans[k].0, spans[k].1));
    }
    lemma_span_totals(to_rune_counts_of(data), spans, to_rune_counts_of(buckets), spans.len() as int);
    assert forall|k: int| 0 <= k < spans.len() implies #[trigger] to_trade_counts_of(buckets)[k] == total(
        to_trade_counts_of(data),
        spans[k].0,
        spans[k].1,
    ) by {
        assert(bucket_fits(data, spans[k].0, spans[k].1));
        assert(buckets[k] == bucket_of(data, spans[k].0, spans[k].1));
    }
    lemma_span_totals(to_trade_counts_of(data), spans, to_trade_counts_of(buckets), spans.len() as int);
    assert forall|k: int| 0 <= k < spans.len() implies #[trigger] from_trade_counts_of(buckets)[k] == total(
        from_trade_counts_of(data),
        spans[k].0,
        spans[k].1,
    ) by {
        assert(bucket_fits(data, spans[k].0, spans[k].1));
        assert(buckets[k] == bucket_of(data, spans[k].0, spans[k].1));
    }
    lemma_span_totals(from_trade_counts_of(data), spans, from_trade_counts_of(buckets), spans.len() as int);
    assert forall|k: int| 0 <= k < spans.len() implies #[trigger] synth_mint_counts_of(buckets)[k] == total(
        synth_mint_counts_of(data),
        spans[k].0,
        spans[k].1,
    ) by {
        assert(bucket_fits(data, spans[k].0, spans[k].1));
        assert(buckets[k] == bucket_of(data, spans[k].0, spans[k].1));
    }
    lemma_span_totals(synth_mint_counts_of(data), spans, synth_mint_counts_of(buckets), spans.len() as int);
    assert forall|k: int| 0 <= k < spans.len() implies #[trigger] synth_redeem_counts_of(buckets)[k] == total(
        synth_redeem_counts_of(data),
        spans[k].0,
        spans[k].1,
    ) by {
        assert(bucket_fits(data, spans[k].0, spans[k].1));
        assert(buckets[k] == bucket_of(data, spans[k].0, spans[k].1));
    }
    lemma_span_totals(synth_redeem_counts_of(data), spans, synth_redeem_counts_of(buckets), spans.len() as int);
    assert forall|k: int| 0 <= k < spans.len() implies #[trigger] total_counts_of(buckets)[k] == total(
        total_counts_of(data),
        spans[k].0,
        spans[k].1,
    ) by {
        assert(bucket_fits(data, spans[k].0, spans[k].1));
        assert(buckets[k] == bucket_of(data, spans[k].0, spans[k].1));
    }
    lemma_span_totals(total_counts_of(data), spans, total_counts_of(buckets), spans.len() as int);
}

} // verus!
