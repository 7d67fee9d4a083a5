//! Fixed-width time buckets over a sequence of start times.
//!
//! A bucket is anchored at the start time of its first row. A later row stays
//! in the bucket while its distance to the anchor is below the bucket width;
//! the first row at or beyond the width closes the bucket and anchors the next.

use vstd::prelude::*;

verus! {

/// A run of consecutive rows, `first..end`, that form one bucket.
#[derive(Clone, Copy, Debug, PartialEq, Eq, Structural)]
pub struct Span {
    pub first: usize,
    pub end: usize,
}

/// Whether a row starting at `start` belongs to the bucket anchored at `anchor`.
pub open spec fn belongs(anchor: i64, start: i64, width: i64) -> bool {
    start - anchor < width
}

/// The end (exclusive) of the bucket anchored at row `first`, given that the
/// rows `first..from` are already known to belong to it.
pub open spec fn bucket_end(starts: Seq<i64>, width: i64, first: int, from: int) -> int
    decreases starts.len() - from,
{
    if 0 <= first < from < starts.len() && belongs(starts[first], starts[from], width) {
        bucket_end(starts, width, first, from + 1)
    } else if from < starts.len() {
        from
    } else {
        starts.len() as int
    }
}

/// The buckets that start at row `first`, at most `cap` of them.
pub open spec fn spans_from(starts: Seq<i64>, width: i64, first: int, cap: nat) -> Seq<(int, int)>
    decreases cap,
{
    if cap == 0 || first < 0 || first >= starts.len() {
        Seq::empty()
    } else {
        seq![(first, bucket_end(starts, width, first, first + 1))] + spans_from(
            starts,
            width,
            bucket_end(starts, width, first, first + 1),
            (cap - 1) as nat,
        )
    }
}

/// The number of buckets a limit allows: the first bucket is always emitted,
/// so a limit of zero allows one.
pub open spec fn bucket_cap(limit: nat) -> nat {
    if limit == 0 {
        1
    } else {
        limit
    }
}

/// The buckets of `starts`, in order, cut off after `bucket_cap(limit)`.
pub open spec fn bucket_spans_of(starts: Seq<i64>, width: i64, limit: nat) -> Seq<(int, int)> {
    spans_from(starts, width, 0, bucket_cap(limit))
}

/// The spans of a vector as pairs of mathematical integers.
pub open spec fn span_pairs(spans: Seq<Span>) -> Seq<(int, int)> {
    Seq::new(spans.len(), |k: int| (spans[k].first as int, spans[k].end as int))
}

/// The number of leading rows that the buckets of `starts` cover: all of them
/// unless the limit cut the buckets off.
pub open spec fn covered_rows(starts: Seq<i64>, width: i64, limit: nat) -> int {
    let spans = bucket_spans_of(starts, width, limit);
    if spans.len() == 0 {
        0
    } else {
        spans.last().1
    }
}

/// Spans that follow one another without gap, starting at row 0, none empty.
pub open spec fn chained(spans: Seq<(int, int)>) -> bool {
    &&& spans.len() > 0 ==> spans[0].0 == 0
    &&& forall|k: int| 0 <= k < spans.len() ==> (#[trigger] spans[k]).0 < spans[k].1
    &&& forall|k: int| 0 < k < spans.len() ==> (#[trigger] spans[k]).0 == spans[k - 1].1
}

/// Every row of a bucket after its anchor is within the width of the anchor,
/// and the row that follows the bucket, if there is one, is not.
pub proof fn lemma_bucket_end(starts: Seq<i64>, width: i64, first: int, from: int)
    requires
        0 <= first < from <= starts.len(),
    ensures
        from <= bucket_end(starts, width, first, from) <= starts.len(),
        forall|j: int|
            from <= j < bucket_end(starts, width, first, from) ==> belongs(
                starts[first],
                #[trigger] starts[j],
                width,
            ),
        bucket_end(starts, width, first, from) < starts.len() ==> !belongs(
            starts[first],
            starts[bucket_end(starts, width, first, from)],
            width,
        ),
    decreases starts.len() - from,
{
    if from < starts.len() && belongs(starts[first], starts[from], width) {
        lemma_bucket_end(starts, width, first, from + 1);
    }
}

/// The buckets from row `first` lie inside the rows, follow one another
/// without gap, and stop early only when the cap is reached.
pub proof fn lemma_spans_from(starts: Seq<i64>, width: i64, first: int, cap: nat)
    requires
        0 <= first <= starts.len(),
    ensures
        spans_from(starts, width, first, cap).len() <= cap,
        first < starts.len() && cap > 0 ==> spans_from(starts, width, first, cap).len() > 0
            && spans_from(starts, width, first, cap)[0].0 == first,
        forall|k: int|
            0 <= k < spans_from(starts, width, first, cap).len() ==> {
                let span = #[trigger] spans_from(starts, width, first, cap)[k];
                &&& first <= span.0 < span.1 <= starts.len()
                &&& span.1 == bucket_end(starts, width, span.0, span.0 + 1)
            },
        forall|k: int|
            0 < k < spans_from(starts, width, first, cap).len() ==> (#[trigger] spans_from(
                starts,
                width,
                first,
                cap,
            )[k]).0 == spans_from(starts, width, first, cap)[k - 1].1,
        spans_from(starts, width, first, cap).len() < cap ==> if spans_from(
            starts,
            width,
            first,
            cap,
        ).len() == 0 {
            first == starts.len()
        } else {
            spans_from(starts, width, first, cap).last().1 == starts.len()
        },
    decreases cap,
{
    if cap > 0 && first < starts.len() {
        let end = bucket_end(starts, width, first, first + 1);
        let rest = spans_from(starts, width, end, (cap - 1) as nat);
        let all = spans_from(starts, width, first, cap);
        lemma_bucket_end(starts, width, first, first + 1);
        lemma_spans_from(starts, width, end, (cap - 1) as nat);
        assert forall|k: int| 0 < k < all.len() implies all[k] == rest[k - 1] by {}
    }
}

/// The buckets of `starts` are chained and lie inside the rows; they reach
/// the last row unless the cap cut them off.
pub proof fn lemma_bucket_spans(starts: Seq<i64>, width: i64, limit: nat)
    ensures
        chained(bucket_spans_of(starts, width, limit)),
        bucket_spans_of(starts, width, limit).len() <= bucket_cap(limit),
        starts.len() > 0 ==> bucket_spans_of(starts, width, limit).len() > 0,
        forall|k: int|
            0 <= k < bucket_spans_of(starts, width, limit).len() ==> {
                let span = #[trigger] bucket_spans_of(starts, width, limit)[k];
                &&& 0 <= span.0 < span.1 <= starts.len()
                &&& span.1 == bucket_end(starts, width, span.0, span.0 + 1)
            },
        0 <= covered_rows(starts, width, limit) <= starts.len(),
        bucket_spans_of(starts, width, limit).len() < bucket_cap(limit) ==> covered_rows(
            starts,
            width,
            limit,
        ) == starts.len(),
{
    lemma_spans_from(starts, width, 0, bucket_cap(limit));
}

/// Tests `belongs` without leaving the range of `i64`.
pub fn in_bucket(anchor: i64, start: i64, width: i64) -> (inside: bool)
    ensures
        inside == belongs(anchor, start, width),
{
    (start as i128) - (anchor as i128) < (width as i128)
}

/// Splits rows, given by their start times, into buckets of `width` seconds.
///
/// Emission stops once `limit` buckets are closed; the rows after them are
/// left out. A limit of zero still yields the first bucket.
pub fn bucket_spans(starts: &Vec<i64>, width: i64, limit: usize) -> (spans: Vec<Span>)
    ensures
        span_pairs(spans@) == bucket_spans_of(starts@, width, limit as nat),
{
    let mut spans: Vec<Span> = Vec::new();
    let n: usize = starts.len();
    if n == 0 {
        return spans;
    }
    let ghost cap: nat = bucket_cap(limit as nat);
    let mut first: usize = 0;
    let mut i: usize = 1;
    while i < n
        invariant
            n == starts.len(),
            cap == bucket_cap(limit as nat),
            first < i <= n,
            spans.len() < cap,
            bucket_end(starts@, width, first as int, i as int) == bucket_end(
                starts@,
                width,
                first as int,
                first + 1,
            ),
            span_pairs(spans@) + spans_from(
                starts@,
                width,
                first as int,
                (cap - spans.len()) as nat,
            ) == bucket_spans_of(starts@, width, limit as nat),
        decreases n - i,
    {
        if in_bucket(starts[first], starts[i], width) {
            i = i + 1;
        } else {
            let ghost before = spans@;
            spans.push(Span { first, end: i });
            proof {
                // The bucket that `first` anchors ends at row `i`.
                let rest = spans_from(starts@, width, i as int, (cap - spans.len()) as nat);
                assert(span_pairs(spans@) + rest =~= span_pairs(before) + (seq![
                    (first as int, i as int),
                ] + rest));
            }
            if spans.len() >= limit {
                return spans;
            }
            first = i;
            i = i + 1;
        }
    }
    let ghost before = spans@;
    spans.push(Span { first, end: n });
    proof {
        // The last bucket reaches the end of the rows, and none follows it.
        let rest = spans_from(starts@, width, n as int, (cap - spans.len()) as nat);
        assert(span_pairs(spans@) + rest =~= span_pairs(before) + (seq![(first as int, n as int)]
            + rest));
    }
    spans
}

} // verus!
