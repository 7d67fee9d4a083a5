//! Buckets of depth snapshots.

use crate::buckets::{
    bucket_spans, bucket_spans_of, covered_rows, lemma_bucket_spans, span_pairs, Span,
};
use crate::models::{Interval, QueryParams};
use crate::query::{response_spans, response_spans_of};
use crate::totals::{
    lemma_peak, lemma_span_totals, lemma_total_one, peak, running_sums_within, total,
};
use vstd::prelude::*;

verus! {

/// The start times of the rows.
pub open spec fn starts_of(data: Seq<Interval>) -> Seq<i64> {
    Seq::new(data.len(), |i: int| data[i].start_time)
}

/// The column of `end_time`.
pub open spec fn end_times_of(data: Seq<Interval>) -> Seq<int> {
    Seq::new(data.len(), |i: int| data[i].end_time as int)
}

/// The column of `asset_depth`.
pub open spec fn asset_depths_of(data: Seq<Interval>) -> Seq<int> {
    Seq::new(data.len(), |i: int| data[i].asset_depth as int)
}

/// The column of `liquidity_units`.
pub open spec fn liquidity_units_of(data: Seq<Interval>) -> Seq<int> {
    Seq::new(data.len(), |i: int| data[i].liquidity_units as int)
}

/// The column of `members_count`.
pub open spec fn members_counts_of(data: Seq<Interval>) -> Seq<int> {
    Seq::new(data.len(), |i: int| data[i].members_count as int)
}

/// The column of `rune_depth`.
pub open spec fn rune_depths_of(data: Seq<Interval>) -> Seq<int> {
    Seq::new(data.len(), |i: int| data[i].rune_depth as int)
}

/// The column of `synth_supply`.
pub open spec fn synth_supplies_of(data: Seq<Interval>) -> Seq<int> {
    Seq::new(data.len(), |i: int| data[i].synth_supply as int)
}

/// The column of `synth_units`.
pub open spec fn synth_units_of(data: Seq<Interval>) -> Seq<int> {
    Seq::new(data.len(), |i: int| data[i].synth_units as int)
}

/// The column of `units`.
pub open spec fn units_of(data: Seq<Interval>) -> Seq<int> {
    Seq::new(data.len(), |i: int| data[i].units as int)
}

/// The record that the rows `first..end` fold to.
pub open spec fn bucket_of(data: Seq<Interval>, first: int, end: int) -> Interval {
    Interval {
        start_time: data[first].start_time,
        end_time: peak(end_times_of(data), first, end) as i64,
        asset_depth: total(asset_depths_of(data), first, end) as i64,
        liquidity_units: total(liquidity_units_of(data), first, end) as i64,
        members_count: total(members_counts_of(data), first, end) as i32,
        rune_depth: total(rune_depths_of(data), first, end) as i64,
        synth_supply: total(synth_supplies_of(data), first, end) as i64,
        synth_units: total(synth_units_of(data), first, end) as i64,
        units: total(units_of(data), first, end) as i64,
    }
}

/// Whether folding the rows `first..end` from left to right keeps every sum
/// within the range of its field.
pub open spec fn bucket_fits(data: Seq<Interval>, first: int, end: int) -> bool {
    &&& running_sums_within(asset_depths_of(data), first, end, i64::MIN as int, i64::MAX as int)
    &&& running_sums_within(liquidity_units_of(data), first, end, i64::MIN as int, i64::MAX as int)
    &&& running_sums_within(members_counts_of(data), first, end, i32::MIN as int, i32::MAX as int)
    &&& running_sums_within(rune_depths_of(data), first, end, i64::MIN as int, i64::MAX as int)
    &&& running_sums_within(synth_supplies_of(data), first, end, i64::MIN as int, i64::MAX as int)
    &&& running_sums_within(synth_units_of(data), first, end, i64::MIN as int, i64::MAX as int)
    &&& running_sums_within(units_of(data), first, end, i64::MIN as int, i64::MAX as int)
}

/// The records that the given spans of rows fold to, one for each span.
pub open spec fn folds_of(data: Seq<Interval>, spans: Seq<(int, int)>) -> Seq<Interval> {
    Seq::new(spans.len(), |k: int| bucket_of(data, spans[k].0, spans[k].1))
}

/// Whether every one of the given spans folds within the range of its fields.
pub open spec fn folds_fit(data: Seq<Interval>, spans: Seq<(int, int)>) -> bool {
    forall|k: int| 0 <= k < spans.len() ==> bucket_fits(data, (#[trigger] spans[k]).0, spans[k].1)
}

/// The buckets of `data` for a width and a limit, each folded to one record.
pub open spec fn buckets_of(data: Seq<Interval>, width: i64, limit: nat) -> Seq<Interval> {
    folds_of(data, bucket_spans_of(starts_of(data), width, limit))
}

/// Whether every bucket of `data` folds within the range of its fields.
pub open spec fn buckets_fit(data: Seq<Interval>, width: i64, limit: nat) -> bool {
    folds_fit(data, bucket_spans_of(starts_of(data), width, limit))
}

/// The records of the response to a request over the stored rows `data`.
pub open spec fn response_of(data: Seq<Interval>, params: QueryParams) -> Seq<Interval> {
    folds_of(data, response_spans_of(starts_of(data), params))
}

/// Whether every record of the response folds within the range of its fields.
pub open spec fn response_fits(data: Seq<Interval>, params: QueryParams) -> bool {
    folds_fit(data, response_spans_of(starts_of(data), params))
}

impl Interval {
    /// Whether the sums of `aggregate` stay within the range of their fields.
    pub open spec fn sums_fit(self, other: Self) -> bool {
        &&& i64::MIN <= self.asset_depth + other.asset_depth <= i64::MAX
        &&& i64::MIN <= self.liquidity_units + other.liquidity_units <= i64::MAX
        &&& i32::MIN <= self.members_count + other.members_count <= i32::MAX
        &&& i64::MIN <= self.rune_depth + other.rune_depth <= i64::MAX
        &&& i64::MIN <= self.synth_supply + other.synth_supply <= i64::MAX
        &&& i64::MIN <= self.synth_units + other.synth_units <= i64::MAX
        &&& i64::MIN <= self.units + other.units <= i64::MAX
    }

    /// The record after `other` has been folded into `self`.
    pub open spec fn folded(self, other: Self) -> Self {
        Interval {
            start_time: self.start_time,
            end_time: if self.end_time >= other.end_time {
                self.end_time
            } else {
                other.end_time
            },
            asset_depth: (self.asset_depth + other.asset_depth) as i64,
            liquidity_units: (self.liquidity_units + other.liquidity_units) as i64,
            members_count: (self.members_count + other.members_count) as i32,
            rune_depth: (self.rune_depth + other.rune_depth) as i64,
            synth_supply: (self.synth_supply + other.synth_supply) as i64,
            synth_units: (self.synth_units + other.synth_units) as i64,
            units: (self.units + other.units) as i64,
        }
    }

    /// Tests whether `other` can be folded into `self` without overflow.
    pub fn can_aggregate(&self, other: &Self) -> (ok: bool)
        ensures
            ok == self.sums_fit(*other),
    {
        self.asset_depth.checked_add(other.asset_depth).is_some()
            && self.liquidity_units.checked_add(other.liquidity_units).is_some()
            && self.members_count.checked_add(other.members_count).is_some()
            && self.rune_depth.checked_add(other.rune_depth).is_some()
            && self.synth_supply.checked_add(other.synth_supply).is_some()
            && self.synth_units.checked_add(other.synth_units).is_some()
            && self.units.checked_add(other.units).is_some()
    }

    /// Folds `other` into `self`: depths, units, supply and member count add
    /// up, `end_time` becomes the later of the two, `start_time` stays.
    pub fn aggregate(&mut self, other: &Self)
        requires
            old(self).sums_fit(*other),
        ensures
            *final(self) == old(self).folded(*other),
    {
        self.asset_depth = self.asset_depth + other.asset_depth;
        self.liquidity_units = self.liquidity_units + other.liquidity_units;
        self.members_count = self.members_count + other.members_count;
        self.rune_depth = self.rune_depth + other.rune_depth;
        self.synth_supply = self.synth_supply + other.synth_supply;
        self.synth_units = self.synth_units + other.synth_units;
        self.units = self.units + other.units;
        if other.end_time > self.end_time {
            self.end_time = other.end_time;
        }
    }
}

/// Folds the rows of one span into one record, or returns `None` where a sum
/// leaves the range of its field.
pub fn fold_span(data: &Vec<Interval>, span: Span) -> (out: Option<Interval>)
    requires
        span.first < span.end <= data.len(),
    ensures
        out is Some <==> bucket_fits(data@, span.first as int, span.end as int),
        out is Some ==> out->0 == bucket_of(data@, span.first as int, span.end as int),
{
    let mut acc: Interval = data[span.first];
    let mut j: usize = span.first + 1;
    proof {
        lemma_total_one(asset_depths_of(data@), span.first as int);
        lemma_total_one(liquidity_units_of(data@), span.first as int);
        lemma_total_one(members_counts_of(data@), span.first as int);
        lemma_total_one(rune_depths_of(data@), span.first as int);
        lemma_total_one(synth_supplies_of(data@), span.first as int);
        lemma_total_one(synth_units_of(data@), span.first as int);
        lemma_total_one(units_of(data@), span.first as int);
    }
    while j < span.end
        invariant
            span.first < j <= span.end <= data.len(),
            acc == bucket_of(data@, span.first as int, j as int),
            bucket_fits(data@, span.first as int, j as int),
        decreases span.end - j,
    {
        let row: &Interval = &data[j];
        proof {
            lemma_peak(end_times_of(data@), span.first as int, j as int);
            assert(total(asset_depths_of(data@), span.first as int, j + 1) == acc.asset_depth + row.asset_depth);
            assert(total(liquidity_units_of(data@), span.first as int, j + 1) == acc.liquidity_units + row.liquidity_units);
            assert(total(members_counts_of(data@), span.first as int, j + 1) == acc.members_count + row.members_count);
            assert(total(rune_depths_of(data@), span.first as int, j + 1) == acc.rune_depth + row.rune_depth);
            assert(total(synth_supplies_of(data@), span.first as int, j + 1) == acc.synth_supply + row.synth_supply);
            assert(total(synth_units_of(data@), span.first as int, j + 1) == acc.synth_units + row.synth_units);
            assert(total(units_of(data@), span.first as int, j + 1) == acc.units + row.units);
        }
        if !acc.can_aggregate(row) {
            return None;
        }
        acc.aggregate(row);
        j = j + 1;
    }
    Some(acc)
}

/// Folds each of the given spans into one record, in their order, or returns
/// `None` where a sum leaves the range of its field.
pub fn fold_spans(data: &Vec<Interval>, spans: &Vec<Span>) -> (out: Option<Vec<Interval>>)
    requires
        forall|k: int|
            0 <= k < spans.len() ==> (#[trigger] spans[k]).first < spans[k].end <= data.len(),
    ensures
        out is Some <==> folds_fit(data@, span_pairs(spans@)),
        out is Some ==> out->0@ == folds_of(data@, span_pairs(spans@)),
{
    let ghost pairs = span_pairs(spans@);
    let mut out: Vec<Interval> = Vec::new();
    let mut k: usize = 0;
    while k < spans.len()
        invariant
            k <= spans.len(),
            pairs == span_pairs(spans@),
            forall|m: int|
                0 <= m < spans.len() ==> (#[trigger] spans[m]).first < spans[m].end <= data.len(),
            out.len() == k,
            forall|m: int|
                0 <= m < k ==> #[trigger] out[m] == bucket_of(data@, pairs[m].0, pairs[m].1),
            forall|m: int| 0 <= m < k ==> bucket_fits(data@, (#[trigger] pairs[m]).0, pairs[m].1),
        decreases spans.len() - k,
    {
        let span = spans[k];
        proof {
            assert(pairs[k as int] == (span.first as int, span.end as int));
        }
        match fold_span(data, span) {
            Some(bucket) => {
                out.push(bucket);
            },
            None => {
                return None;
            },
        }
        k = k + 1;
    }
    proof {
        assert(out@ =~= folds_of(data@, pairs));
    }
    Some(out)
}

/// Aggregates depth snapshots, sorted by `start_time`, into buckets of
/// `interval_duration` seconds, stopping once `limit` buckets are closed.
/// Returns `None` where a sum within a bucket leaves the range of its field.
pub fn aggregate_depth_by_interval(
    data: Vec<Interval>,
    interval_duration: i64,
    limit: usize,
) -> (out: Option<Vec<Interval>>)
    ensures
        out is Some <==> buckets_fit(data@, interval_duration, limit as nat),
        out is Some ==> out->0@ == buckets_of(data@, interval_duration, limit as nat),
{
    let starts = start_times(&data);
    let spans = bucket_spans(&starts, interval_duration, limit);
    proof {
        lemma_bucket_spans(starts_of(data@), interval_duration, limit as nat);
        assert forall|k: int| 0 <= k < spans.len() implies (#[trigger] spans[k]).first
            < spans[k].end <= data.len() by {
            assert(span_pairs(spans@)[k] == (spans[k].first as int, spans[k].end as int));
        }
    }
    fold_spans(&data, &spans)
}

/// Answers a request over the stored rows that pass its filters, given in
/// ascending order of `start_time`: buckets them where the request names an
/// interval, takes the page, and reverses it for descending order. Returns
/// `None` where a sum within a bucket leaves the range of its field.
pub fn depth_history(rows: &Vec<Interval>, params: &QueryParams) -> (out: Option<Vec<Interval>>)
    ensures
        out is Some <==> response_fits(rows@, *params),
        out is Some ==> out->0@ == response_of(rows@, *params),
{
    let starts = start_times(rows);
    let spans = response_spans(&starts, params);
    fold_spans(rows, &spans)
}

/// The start times of the rows, in order.
pub fn start_times(data: &Vec<Interval>) -> (starts: Vec<i64>)
    ensures
        starts@ == starts_of(data@),
{
    let mut starts: Vec<i64> = Vec::new();
    let mut i: usize = 0;
    while i < data.len()
        invariant
            i <= data.len(),
            starts.len() == i,
            forall|m: int| 0 <= m < i ==> #[trigger] starts[m] == data[m].start_time,
        decreases data.len() - i,
    {
        starts.push(data[i].start_time);
        i = i + 1;
    }
    proof {
        assert(starts@ =~= starts_of(data@));
    }
    starts
}

/// Bucket completeness: summed over all emitted buckets, every additive
/// field equals its sum over the rows that the buckets cover, which are all
/// rows unless the limit cut the buckets off.
pub proof fn lemma_buckets_complete(data: Seq<Interval>, width: i64, limit: nat)
    requires
        buckets_fit(data, width, limit),
    ensures
        total(asset_depths_of(buckets_of(data, width, limit)), 0, buckets_of(data, width, limit).len() as int)
            == total(asset_depths_of(data), 0, covered_rows(starts_of(data), width, limit)),
        total(liquidity_units_of(buckets_of(data, width, limit)), 0, buckets_of(data, width, limit).len() as int)
            == total(liquidity_units_of(data), 0, covered_rows(starts_of(data), width, limit)),
        total(members_counts_of(buckets_of(data, width, limit)), 0, buckets_of(data, width, limit).len() as int)
            == total(members_counts_of(data), 0, covered_rows(starts_of(data), width, limit)),
        total(rune_depths_of(buckets_of(data, width, limit)), 0, buckets_of(data, width, limit).len() as int)
            == total(rune_depths_of(data), 0, covered_rows(starts_of(data), width, limit)),
        total(synth_supplies_of(buckets_of(data, width, limit)), 0, buckets_of(data, width, limit).len() as int)
            == total(synth_supplies_of(data), 0, covered_rows(starts_of(data), width, limit)),
        total(synth_units_of(buckets_of(data, width, limit)), 0, buckets_of(data, width, limit).len() as int)
            == total(synth_units_of(data), 0, covered_rows(starts_of(data), width, limit)),
        total(units_of(buckets_of(data, width, limit)), 0, buckets_of(data, width, limit).len() as int)
            == total(units_of(data), 0, covered_rows(starts_of(data), width, limit)),
        bucket_spans_of(starts_of(data), width, limit).len() < crate::buckets::bucket_cap(limit)
            ==> covered_rows(starts_of(data), width, limit) == data.len(),
{
    let spans = bucket_spans_of(starts_of(data), width, limit);
    let buckets = buckets_of(data, width, limit);
    lemma_bucket_spans(starts_of(data), width, limit);
    assert forall|k: int| 0 <= k < spans.len() implies #[trigger] asset_depths_of(buckets)[k] == total(
        asset_depths_of(data),
        spans[k].0,
        spans[k].1,
    ) by {
        assert(bucket_fits(data, spans[k].0, spans[k].1));
        assert(buckets[k] == bucket_of(data, spans[k].0, spans[k].1));
    }
    lemma_span_totals(asset_depths_of(data), spans, asset_depths_of(buckets), spans.len() as int);
    assert forall|k: int| 0 <= k < spans.len() implies #[trigger] liquidity_units_of(buckets)[k] == total(
        liquidity_units_of(data),
        spans[k].0,
        spans[k].1,
    ) by {
        assert(bucket_fits(data, spans[k].0, spans[k].1));
        assert(buckets[k] == bucket_of(data, spans[k].0, spans[k].1));
    }
    lemma_span_totals(liquidity_units_of(data), spans, liquidity_units_of(buckets), spans.len() as int);
    assert forall|k: int| 0 <= k < spans.len() implies #[trigger] members_counts_of(buckets)[k] == total(
        members_counts_of(data),
        spans[k].0,
        spans[k].1,
    ) by {
        assert(bucket_fits(data, spans[k].0, spans[k].1));
        assert(buckets[k] == bucket_of(data, spans[k].0, spans[k].1));
    }
    lemma_span_totals(members_counts_of(data), spans, members_counts_of(buckets), spans.len() as int);
    assert forall|k: int| 0 <= k < spans.len() implies #[trigger] rune_depths_of(buckets)[k] == total(
        rune_depths_of(data),
        spans[k].0,
        spans[k].1,
    ) by {
        assert(bucket_fits(data, spans[k].0, spans[k].1));
        assert(buckets[k] == bucket_of(data, spans[k].0, spans[k].1));
    }
    lemma_span_totals(rune_depths_of(data), spans, rune_depths_of(buckets), spans.len() as int);
    assert forall|k: int| 0 <= k < spans.len() implies #[trigger] synth_supplies_of(buckets)[k] == total(
        synth_supplies_of(data),
        spans[k].0,
        spans[k].1,
    ) by {
        assert(bucket_fits(data, spans[k].0, spans[k].1));
        assert(buckets[k] == bucket_of(data, spans[k].0, spans[k].1));
    }
    lemma_span_totals(synth_supplies_of(data), spans, synth_supplies_of(buckets), spans.len() as int);
    assert forall|k: int| 0 <= k < spans.len() implies #[trigger] synth_units_of(buckets)[k] == total(
        synth_units_of(data),
        spans[k].0,
        spans[k].1,
    ) by {
        assert(bucket_fits(data, spans[k].0, spans[k].1));
        assert(buckets[k] == bucket_of(data, spans[k].0, spans[k].1));
    }
    lemma_span_totals(synth_units_of(data), spans, synth_units_of(buckets), spans.len() as int);
    assert forall|k: int| 0 <= k < spans.len() implies #[trigger] units_of(buckets)[k] == total(
        units_of(data),
        spans[k].0,
        spans[k].1,
    ) by {
        assert(bucket_fits(data, spans[k].0, spans[k].1));
        assert(buckets[k] == bucket_of(data, spans[k].0, spans[k].1));
    }
    lemma_span_totals(units_of(data), spans, units_of(buckets), spans.len() as int);
}

} // verus!
