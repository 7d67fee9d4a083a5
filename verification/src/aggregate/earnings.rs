//! Buckets of earnings snapshots, with their pools merged by name.

use crate::buckets::{
    bucket_spans, bucket_spans_of, covered_rows, lemma_bucket_spans, span_pairs, Span,
};
use crate::models::{
    names_of, EarningsInterval, EarningsModel, Pool, PoolWithStartTime, QueryParams,
};
use crate::query::{response_spans, response_spans_of};
use crate::totals::{
    lemma_peak, lemma_span_totals, lemma_total_one, peak, running_sums_within, total,
};
use vstd::prelude::*;

verus! {

/// The rows as mathematical values.
pub open spec fn models_of(data: Seq<EarningsInterval>) -> Seq<EarningsModel> {
    Seq::new(data.len(), |i: int| data[i]@)
}

/// The start times of the rows.
pub open spec fn starts_of(data: Seq<EarningsModel>) -> Seq<i64> {
    Seq::new(data.len(), |i: int| data[i].start_time)
}

/// The column of `end_time`.
pub open spec fn end_times_of(data: Seq<EarningsModel>) -> Seq<int> {
    Seq::new(data.len(), |i: int| data[i].end_time as int)
}

/// The column of `block_rewards`.
pub open spec fn block_rewards_of(data: Seq<EarningsModel>) -> Seq<int> {
    Seq::new(data.len(), |i: int| data[i].block_rewards as int)
}

/// The pool names of a bucket after the first `upto` pools of an incoming
/// row have been merged in: a name that the bucket holds stays where it is,
/// a new name is appended.
pub open spec fn merge_names(mine: Seq<Seq<char>>, theirs: Seq<Seq<char>>, upto: int) -> Seq<
    Seq<char>,
>
    decreases upto,
{
    if upto <= 0 {
        mine
    } else if merge_names(mine, theirs, upto - 1).contains(theirs[upto - 1]) {
        merge_names(mine, theirs, upto - 1)
    } else {
        merge_names(mine, theirs, upto - 1).push(theirs[upto - 1])
    }
}

/// The pool names of the bucket that the rows `first..end` fold to.
pub open spec fn merged_pools(data: Seq<EarningsModel>, first: int, end: int) -> Seq<Seq<char>>
    decreases end - first,
{
    if end <= first + 1 {
        data[first].pools
    } else {
        merge_names(
            merged_pools(data, first, end - 1),
            data[end - 1].pools,
            data[end - 1].pools.len() as int,
        )
    }
}

/// The record that the rows `first..end` fold to.
pub open spec fn bucket_of(data: Seq<EarningsModel>, first: int, end: int) -> EarningsModel {
    EarningsModel {
        start_time: data[first].start_time,
        end_time: peak(end_times_of(data), first, end) as i64,
        block_rewards: total(block_rewards_of(data), first, end) as i64,
        pools: merged_pools(data, first, end),
    }
}

/// Whether folding the rows `first..end` from left to right keeps the sum of
/// block rewards within `i64`.
pub open spec fn bucket_fits(data: Seq<EarningsModel>, first: int, end: int) -> bool {
    running_sums_within(block_rewards_of(data), first, end, i64::MIN as int, i64::MAX as int)
}

/// The records that the given spans of rows fold to, one for each span.
pub open spec fn folds_of(data: Seq<EarningsModel>, spans: Seq<(int, int)>) -> Seq<
    EarningsModel,
> {
    Seq::new(spans.len(), |k: int| bucket_of(data, spans[k].0, spans[k].1))
}

/// Whether every one of the given spans folds within `i64`.
pub open spec fn folds_fit(data: Seq<EarningsModel>, spans: Seq<(int, int)>) -> bool {
    forall|k: int| 0 <= k < spans.len() ==> bucket_fits(data, (#[trigger] spans[k]).0, spans[k].1)
}

/// The buckets of `data` for a width and a limit, each folded to one record.
pub open spec fn buckets_of(data: Seq<EarningsModel>, width: i64, limit: nat) -> Seq<
    EarningsModel,
> {
    folds_of(data, bucket_spans_of(starts_of(data), width, limit))
}

/// Whether every bucket of `data` folds within `i64`.
pub open spec fn buckets_fit(data: Seq<EarningsModel>, width: i64, limit: nat) -> bool {
    folds_fit(data, bucket_spans_of(starts_of(data), width, limit))
}

/// The records of the response to a request over the stored rows `data`.
pub open spec fn response_of(data: Seq<EarningsModel>, params: QueryParams) -> Seq<
    EarningsModel,
> {
    folds_of(data, response_spans_of(starts_of(data), params))
}

/// Whether every record of the response folds within `i64`.
pub open spec fn response_fits(data: Seq<EarningsModel>, params: QueryParams) -> bool {
    folds_fit(data, response_spans_of(starts_of(data), params))
}

impl EarningsModel {
    /// Whether the sum of `aggregate` stays within `i64`.
    pub open spec fn sums_fit(self, other: Self) -> bool {
        i64::MIN <= self.block_rewards + other.block_rewards <= i64::MAX
    }

    /// The record after `other` has been folded into `self`.
    pub open spec fn folded(self, other: Self) -> Self {
        EarningsModel {
            start_time: self.start_time,
            end_time: if self.end_time >= other.end_time {
                self.end_time
            } else {
                other.end_time
            },
            block_rewards: (self.block_rewards + other.block_rewards) as i64,
            pools: merge_names(self.pools, other.pools, other.pools.len() as int),
        }
    }
}

/// The place of the first pool named `name`, if there is one.
pub fn pool_slot(pools: &Vec<Pool>, name: &String) -> (slot: Option<usize>)
    ensures
        match slot {
            Some(i) => i < pools.len() && pools[i as int]@ == name@ && forall|j: int|
                0 <= j < i ==> (#[trigger] pools[j])@ != name@,
            None => !names_of(pools@).contains(name@),
        },
{
    let mut i: usize = 0;
    while i < pools.len()
        invariant
            i <= pools.len(),
            forall|j: int| 0 <= j < i ==> (#[trigger] pools[j])@ != name@,
        decreases pools.len() - i,
    {
        if pools[i].pool_name == *name {
            return Some(i);
        }
        i = i + 1;
    }
    proof {
        let names = names_of(pools@);
        assert forall|j: int| 0 <= j < names.len() implies names[j] != name@ by {
            assert(pools[j]@ != name@);
        }
    }
    None
}

impl EarningsInterval {
    /// Tests whether `other` can be folded into `self` without overflow.
    pub fn can_aggregate(&self, other: &Self) -> (ok: bool)
        ensures
            ok == self@.sums_fit(other@),
    {
        self.block_rewards.checked_add(other.block_rewards).is_some()
    }

    /// Folds `other` into `self`: block rewards add up, `end_time` becomes
    /// the later of the two, `start_time` stays, and each pool of `other`
    /// whose name `self` does not hold yet is appended to the pools of `self`.
    pub fn aggregate(&mut self, other: &Self)
        requires
            old(self)@.sums_fit(other@),
        ensures
            final(self)@ == old(self)@.folded(other@),
    {
        self.block_rewards = self.block_rewards + other.block_rewards;
        if other.end_time > self.end_time {
            self.end_time = other.end_time;
        }
        let ghost theirs = names_of(other.pools@);
        let mut i: usize = 0;
        while i < other.pools.len()
            invariant
                i <= other.pools.len(),
                theirs == names_of(other.pools@),
                self.start_time == old(self).start_time,
                self.end_time == old(self)@.folded(other@).end_time,
                self.block_rewards == old(self)@.folded(other@).block_rewards,
                names_of(self.pools@) == merge_names(old(self)@.pools, theirs, i as int),
            decreases other.pools.len() - i,
        {
            let incoming: &Pool = &other.pools[i];
            let ghost before = names_of(self.pools@);
            match pool_slot(&self.pools, &incoming.pool_name) {
                Some(slot) => {
                    proof {
                        assert(before[slot as int] == incoming@);
                    }
                },
                None => {
                    self.pools.push(incoming.duplicate());
                    proof {
                        assert(names_of(self.pools@) =~= before.push(incoming@));
                    }
                },
            }
            i = i + 1;
        }
    }
}

/// Folds the rows of one span into one record, or returns `None` where the
/// sum of block rewards leaves `i64`.
pub fn fold_span(data: &Vec<EarningsInterval>, span: Span) -> (out: Option<EarningsInterval>)
    requires
        span.first < span.end <= data.len(),
    ensures
        out is Some <==> bucket_fits(models_of(data@), span.first as int, span.end as int),
        out is Some ==> out->0@ == bucket_of(
            models_of(data@),
            span.first as int,
            span.end as int,
        ),
{
    let ghost rows = models_of(data@);
    let mut acc: EarningsInterval = data[span.first].duplicate();
    let mut j: usize = span.first + 1;
    proof {
        lemma_total_one(block_rewards_of(rows), span.first as int);
    }
    while j < span.end
        invariant
            span.first < j <= span.end <= data.len(),
            rows == models_of(data@),
            acc@ == bucket_of(rows, span.first as int, j as int),
            bucket_fits(rows, span.first as int, j as int),
        decreases span.end - j,
    {
        let row: &EarningsInterval = &data[j];
        proof {
            assert(rows[j as int] == row@);
            lemma_peak(end_times_of(rows), span.first as int, j as int);
            assert(total(block_rewards_of(rows), span.first as int, j + 1) == acc.block_rewards
                + row.block_rewards);
        }
        if !acc.can_aggregate(row) {
            return None;
        }
        acc.aggregate(row);
        j = j + 1;
    }
    Some(acc)
}

/// Folds each of the given spans into one record, in their order, or returns
/// `None` where a sum leaves `i64`.
pub fn fold_spans(data: &Vec<EarningsInterval>, spans: &Vec<Span>) -> (out: Option<
    Vec<EarningsInterval>,
>)
    requires
        forall|k: int|
            0 <= k < spans.len() ==> (#[trigger] spans[k]).first < spans[k].end <= data.len(),
    ensures
        out is Some <==> folds_fit(models_of(data@), span_pairs(spans@)),
        out is Some ==> models_of(out->0@) == folds_of(models_of(data@), span_pairs(spans@)),
{
    let ghost rows = models_of(data@);
    let ghost pairs = span_pairs(spans@);
    let mut out: Vec<EarningsInterval> = Vec::new();
    let mut k: usize = 0;
    while k < spans.len()
        invariant
            k <= spans.len(),
            rows == models_of(data@),
            pairs == span_pairs(spans@),
            forall|m: int|
                0 <= m < spans.len() ==> (#[trigger] spans[m]).first < spans[m].end <= data.len(),
            out.len() == k,
            forall|m: int|
                0 <= m < k ==> (#[trigger] out[m])@ == bucket_of(rows, pairs[m].0, pairs[m].1),
            forall|m: int| 0 <= m < k ==> bucket_fits(rows, (#[trigger] pairs[m]).0, pairs[m].1),
        decreases spans.len() - k,
    {
        let span = spans[k];
        proof {
            assert(pairs[k as int] == (span.first as int, span.end as int));
        }
        match fold_span(data, span) {
            Some(bucket) => {
                out.push(bucket);
            },
            None => {
                return None;
            },
        }
        k = k + 1;
    }
    proof {
        assert(models_of(out@) =~= folds_of(rows, pairs));
    }
    Some(out)
}

/// Aggregates earnings snapshots, sorted by `start_time`, into buckets of
/// `interval_duration` seconds, stopping once `limit` buckets are closed.
/// Returns `None` where a sum within a bucket leaves `i64`.
pub fn aggregate_earnings_by_interval(
    data: Vec<EarningsInterval>,
    interval_duration: i64,
    limit: usize,
) -> (out: Option<Vec<EarningsInterval>>)
    ensures
        out is Some <==> buckets_fit(models_of(data@), interval_duration, limit as nat),
        out is Some ==> models_of(out->0@) == buckets_of(
            models_of(data@),
            interval_duration,
            limit as nat,
        ),
{
    let starts = start_times(&data);
    let spans = bucket_spans(&starts, interval_duration, limit);
    proof {
        lemma_bucket_spans(starts_of(models_of(data@)), interval_duration, limit as nat);
        assert forall|k: int| 0 <= k < spans.len() implies (#[trigger] spans[k]).first
            < spans[k].end <= data.len() by {
            assert(span_pairs(spans@)[k] == (spans[k].first as int, spans[k].end as int));
        }
    }
    fold_spans(&data, &spans)
}

/// Answers a request over the stored rows that pass its filters, given in
/// ascending order of `start_time`: buckets them where the request names an
/// interval, takes the page, and reverses it for descending order. Returns
/// `None` where a sum within a bucket leaves `i64`.
pub fn earnings_history(rows: &Vec<EarningsInterval>, params: &QueryParams) -> (out: Option<
    Vec<EarningsInterval>,
>)
    ensures
        out is Some <==> response_fits(models_of(rows@), *params),
        out is Some ==> models_of(out->0@) == response_of(models_of(rows@), *params),
{
    let starts = start_times(rows);
    let spans = response_spans(&starts, params);
    fold_spans(rows, &spans)
}

/// The start times of the rows, in order.
pub fn start_times(data: &Vec<EarningsInterval>) -> (starts: Vec<i64>)
    ensures
        starts@ == starts_of(models_of(data@)),
{
    let mut starts: Vec<i64> = Vec::new();
    let mut i: usize = 0;
    while i < data.len()
        invariant
            i <= data.len(),
            starts.len() == i,
            forall|m: int| 0 <= m < i ==> #[trigger] starts[m] == data[m].start_time,
        decreases data.len() - i,
    {
        starts.push(data[i].start_time);
        i = i + 1;
    }
    proof {
        assert(starts@ =~= starts_of(models_of(data@)));
    }
    starts
}

/// The places among the first `upto` stored pools of those that belong to the
/// snapshot that starts at `start_time`, in ascending order.
pub open spec fn pool_rows_of(rows: Seq<PoolWithStartTime>, start_time: i64, upto: int) -> Seq<int>
    decreases upto,
{
    if upto <= 0 {
        Seq::empty()
    } else if rows[upto - 1].earnings_start_time == start_time {
        pool_rows_of(rows, start_time, upto - 1).push(upto - 1)
    } else {
        pool_rows_of(rows, start_time, upto - 1)
    }
}

/// A snapshot with the stored pools that belong to it in place of its own;
/// the snapshot as it is where the store holds no pool for it.
pub open spec fn with_pools(interval: EarningsModel, rows: Seq<PoolWithStartTime>) -> EarningsModel {
    let found = pool_rows_of(rows, interval.start_time, rows.len() as int);
    if found.len() > 0 {
        EarningsModel { pools: Seq::new(found.len(), |j: int| rows[found[j]].pool@), ..interval }
    } else {
        interval
    }
}

/// Finds the stored pools that belong to the snapshot that starts at
/// `start_time`.
pub fn find_pool_rows(rows: &Vec<PoolWithStartTime>, start_time: i64) -> (found: Vec<usize>)
    ensures
        found@.len() == pool_rows_of(rows@, start_time, rows.len() as int).len(),
        forall|j: int|
            0 <= j < found.len() ==> #[trigger] found[j] as int == pool_rows_of(
                rows@,
                start_time,
                rows.len() as int,
            )[j],
        forall|j: int| 0 <= j < found.len() ==> #[trigger] found[j] < rows.len(),
{
    let mut found: Vec<usize> = Vec::new();
    let mut i: usize = 0;
    while i < rows.len()
        invariant
            i <= rows.len(),
            found@.len() == pool_rows_of(rows@, start_time, i as int).len(),
            forall|j: int|
                0 <= j < found.len() ==> #[trigger] found[j] as int == pool_rows_of(
                    rows@,
                    start_time,
                    i as int,
                )[j],
            forall|j: int| 0 <= j < found.len() ==> #[trigger] found[j] < rows.len(),
        decreases rows.len() - i,
    {
        if rows[i].earnings_start_time == start_time {
            found.push(i);
        }
        i = i + 1;
    }
    found
}

/// Gives each snapshot of a page the stored pools that belong to it. A
/// snapshot for which the store holds no pool keeps the pools it has.
pub fn attach_pools(page: &Vec<EarningsInterval>, rows: &Vec<PoolWithStartTime>) -> (out: Vec<
    EarningsInterval,
>)
    ensures
        out.len() == page.len(),
        forall|k: int| 0 <= k < page.len() ==> (#[trigger] out[k])@ == with_pools(page[k]@, rows@),
{
    let mut out: Vec<EarningsInterval> = Vec::new();
    let mut k: usize = 0;
    while k < page.len()
        invariant
            k <= page.len(),
            out.len() == k,
            forall|m: int| 0 <= m < k ==> (#[trigger] out[m])@ == with_pools(page[m]@, rows@),
        decreases page.len() - k,
    {
        let interval: &EarningsInterval = &page[k];
        let found: Vec<usize> = find_pool_rows(rows, interval.start_time);
        if found.len() == 0 {
            out.push(interval.duplicate());
        } else {
            let ghost places = pool_rows_of(rows@, interval.start_time, rows.len() as int);
            let mut pools: Vec<Pool> = Vec::new();
            let mut j: usize = 0;
            while j < found.len()
                invariant
                    j <= found.len(),
                    pools.len() == j,
                    found@.len() == places.len(),
                    forall|m: int| 0 <= m < found.len() ==> #[trigger] found[m] as int == places[m],
                    forall|m: int| 0 <= m < found.len() ==> #[trigger] found[m] < rows.len(),
                    forall|m: int| 0 <= m < j ==> (#[trigger] pools[m])@ == rows[places[m]].pool@,
                decreases found.len() - j,
            {
                pools.push(rows[found[j]].pool.duplicate());
                j = j + 1;
            }
            proof {
                assert(names_of(pools@) =~= Seq::new(
                    places.len(),
                    |m: int| rows@[places[m]].pool@,
                ));
            }
            out.push(
                EarningsInterval {
                    start_time: interval.start_time,
                    end_time: interval.end_time,
                    block_rewards: interval.block_rewards,
                    pools,
                },
            );
        }
        k = k + 1;
    }
    out
}

/// Bucket completeness: summed over all emitted buckets, block rewards equal
/// their sum over the rows that the buckets cover, which are all rows unless
/// the limit cut the buckets off.
pub proof fn lemma_buckets_complete(data: Seq<EarningsModel>, width: i64, limit: nat)
    requires
        buckets_fit(data, width, limit),
    ensures
        total(
            block_rewards_of(buckets_of(data, width, limit)),
            0,
            buckets_of(data, width, limit).len() as int,
        ) == total(block_rewards_of(data), 0, covered_rows(starts_of(data), width, limit)),
        bucket_spans_of(starts_of(data), width, limit).len() < crate::buckets::bucket_cap(limit)
            ==> covered_rows(starts_of(data), width, limit) == data.len(),
{
    let spans = bucket_spans_of(starts_of(data), width, limit);
    let buckets = buckets_of(data, width, limit);
    lemma_bucket_spans(starts_of(data), width, limit);
    assert forall|k: int| 0 <= k < spans.len() implies #[trigger] block_rewards_of(buckets)[k]
        == total(block_rewards_of(data), spans[k].0, spans[k].1) by {
        assert(bucket_fits(data, spans[k].0, spans[k].1));
        assert(buckets[k] == bucket_of(data, spans[k].0, spans[k].1));
    }
    lemma_span_totals(block_rewards_of(data), spans, block_rewards_of(buckets), spans.len() as int);
}

} // verus!
