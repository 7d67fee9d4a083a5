//! Sums and maxima over a range of a column of integers.

use vstd::prelude::*;

verus! {

/// The sum of `col[lo..hi]`.
pub open spec fn total(col: Seq<int>, lo: int, hi: int) -> int
    decreases hi - lo,
{
    if hi <= lo {
        0
    } else {
        total(col, lo, hi - 1) + col[hi - 1]
    }
}

/// The largest value of `col[lo..hi]`; `col[lo]` where the range holds no more.
pub open spec fn peak(col: Seq<int>, lo: int, hi: int) -> int
    decreases hi - lo,
{
    if hi <= lo + 1 {
        col[lo]
    } else if peak(col, lo, hi - 1) >= col[hi - 1] {
        peak(col, lo, hi - 1)
    } else {
        col[hi - 1]
    }
}

/// Whether every running sum `col[lo..e]`, for `lo < e <= hi`, lies within
/// `min..=max`.
pub open spec fn running_sums_within(col: Seq<int>, lo: int, hi: int, min: int, max: int) -> bool {
    forall|e: int| lo < e <= hi ==> min <= #[trigger] total(col, lo, e) <= max
}

/// The sum over a single row is that row.
pub proof fn lemma_total_one(col: Seq<int>, lo: int)
    ensures
        total(col, lo, lo + 1) == col[lo],
{
    assert(total(col, lo, lo) == 0);
}

/// The peak of a range is one of its rows, and no row of the range exceeds it.
pub proof fn lemma_peak(col: Seq<int>, lo: int, hi: int)
    requires
        lo < hi,
    ensures
        forall|i: int| lo <= i < hi ==> #[trigger] col[i] <= peak(col, lo, hi),
        exists|i: int| lo <= i < hi && #[trigger] col[i] == peak(col, lo, hi),
    decreases hi - lo,
{
    if hi > lo + 1 {
        lemma_peak(col, lo, hi - 1);
        if peak(col, lo, hi - 1) >= col[hi - 1] {
            let i = choose|i: int| lo <= i < hi - 1 && #[trigger] col[i] == peak(col, lo, hi - 1);
            assert(col[i] == peak(col, lo, hi));
        } else {
            assert(col[hi - 1] == peak(col, lo, hi));
        }
    } else {
        assert(col[lo] == peak(col, lo, hi));
    }
}

/// A sum over a range is the sum over its two parts.
pub proof fn lemma_total_split(col: Seq<int>, lo: int, mid: int, hi: int)
    requires
        lo <= mid <= hi,
    ensures
        total(col, lo, hi) == total(col, lo, mid) + total(col, mid, hi),
    decreases hi - mid,
{
    if mid < hi {
        lemma_total_split(col, lo, mid, hi - 1);
    }
}

/// Summing the sums of the first `n` of a chain of spans gives the sum over
/// the rows that those spans cover.
pub proof fn lemma_span_totals(col: Seq<int>, spans: Seq<(int, int)>, sums: Seq<int>, n: int)
    requires
        crate::buckets::chained(spans),
        sums.len() == spans.len(),
        0 <= n <= spans.len(),
        forall|k: int|
            0 <= k < spans.len() ==> #[trigger] sums[k] == total(col, spans[k].0, spans[k].1),
    ensures
        total(sums, 0, n) == total(
            col,
            0,
            if n == 0 {
                0
            } else {
                spans[n - 1].1
            },
        ),
    decreases n,
{
    if n > 0 {
        lemma_span_totals(col, spans, sums, n - 1);
        let lo = spans[n - 1].0;
        let hi = spans[n - 1].1;
        if n > 1 {
            lemma_chain_starts(spans, n - 2);
            assert(lo == spans[n - 2].1);
        }
        lemma_total_split(col, 0, lo, hi);
    }
}

/// No span of a chain starts before row 0.
pub proof fn lemma_chain_starts(spans: Seq<(int, int)>, k: int)
    requires
        crate::buckets::chained(spans),
        0 <= k < spans.len(),
    ensures
        0 <= spans[k].0 < spans[k].1,
    decreases k,
{
    if k > 0 {
        lemma_chain_starts(spans, k - 1);
        assert(spans[k].0 == spans[k - 1].1);
    }
}

} // verus!
