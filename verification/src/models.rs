//! The interval records of the four series and the query parameters.

use vstd::prelude::*;

verus! {

/// One of the four series.
#[derive(Clone, Copy, Debug, PartialEq, Eq, Structural)]
pub enum Series {
    Depth,
    RunePool,
    Swap,
    Earnings,
}

/// One rune-pool snapshot, keyed by `start_time` (Unix seconds).
#[derive(Clone, Copy, Debug, PartialEq, Eq, Structural)]
pub struct RunePoolInterval {
    pub start_time: i64,
    pub end_time: i64,
    pub units: i64,
    pub count: i64,
}

/// The integer fields of one depth snapshot, keyed by `start_time`.
///
/// Prices and LUVI are fractional; the caller keeps them beside this record
/// and folds them along the same spans.
#[derive(Clone, Copy, Debug, PartialEq, Eq, Structural)]
pub struct Interval {
    pub asset_depth: i64,
    pub end_time: i64,
    pub liquidity_units: i64,
    pub members_count: i32,
    pub rune_depth: i64,
    pub start_time: i64,
    pub synth_supply: i64,
    pub synth_units: i64,
    pub units: i64,
}

/// The integer fields of one swap snapshot, keyed by `start_time`.
///
/// Volumes, fees, slippage and prices are fractional; the caller keeps them
/// beside this record and folds them along the same spans.
#[derive(Clone, Copy, Debug, PartialEq, Eq, Structural)]
pub struct SwapInterval {
    pub start_time: i64,
    pub end_time: i64,
    pub to_asset_count: i64,
    pub to_rune_count: i64,
    pub to_trade_count: i64,
    pub from_trade_count: i64,
    pub synth_mint_count: i64,
    pub synth_redeem_count: i64,
    pub total_count: i64,
}

/// One pool of an earnings snapshot, known by its name.
///
/// The earnings and fees of a pool are fractional; the caller keeps them
/// beside this record, in the same order.
#[derive(Clone, Debug)]
pub struct Pool {
    pub pool_name: String,
}

/// The integer fields of one earnings snapshot, keyed by `start_time`, and
/// the pools it breaks down into.
#[derive(Clone, Debug)]
pub struct EarningsInterval {
    pub start_time: i64,
    pub end_time: i64,
    pub block_rewards: i64,
    pub pools: Vec<Pool>,
}

/// A pool as the store keeps it: under the `start_time` of the earnings
/// snapshot that it belongs to.
#[derive(Clone, Debug)]
pub struct PoolWithStartTime {
    pub earnings_start_time: i64,
    pub pool: Pool,
}

/// An earnings snapshot as a mathematical value: its pools by name.
pub struct EarningsModel {
    pub start_time: i64,
    pub end_time: i64,
    pub block_rewards: i64,
    pub pools: Seq<Seq<char>>,
}

/// The names of a list of pools.
pub open spec fn names_of(pools: Seq<Pool>) -> Seq<Seq<char>> {
    Seq::new(pools.len(), |i: int| pools[i].pool_name@)
}

impl View for Pool {
    type V = Seq<char>;

    open spec fn view(&self) -> Seq<char> {
        self.pool_name@
    }
}

impl View for EarningsInterval {
    type V = EarningsModel;

    open spec fn view(&self) -> EarningsModel {
        EarningsModel {
            start_time: self.start_time,
            end_time: self.end_time,
            block_rewards: self.block_rewards,
            pools: names_of(self.pools@),
        }
    }
}

impl Pool {
    /// A pool of the same name.
    pub fn duplicate(&self) -> (copy: Pool)
        ensures
            copy@ == self@,
    {
        Pool { pool_name: self.pool_name.clone() }
    }
}

impl EarningsInterval {
    /// A snapshot with the same fields and pools.
    pub fn duplicate(&self) -> (copy: EarningsInterval)
        ensures
            copy@ == self@,
    {
        let mut pools: Vec<Pool> = Vec::new();
        let mut i: usize = 0;
        while i < self.pools.len()
            invariant
                i <= self.pools.len(),
                pools.len() == i,
                forall|m: int| 0 <= m < i ==> (#[trigger] pools[m])@ == self.pools[m]@,
            decreases self.pools.len() - i,
        {
            pools.push(self.pools[i].duplicate());
            i = i + 1;
        }
        proof {
            assert(names_of(pools@) =~= names_of(self.pools@));
        }
        EarningsInterval {
            start_time: self.start_time,
            end_time: self.end_time,
            block_rewards: self.block_rewards,
            pools,
        }
    }
}

/// A page of earnings snapshots as the upstream API returns it.
#[derive(Clone, Debug)]
pub struct EarningsHistoryResponse {
    pub intervals: Vec<EarningsInterval>,
}

/// A page of depth snapshots as the upstream API returns it.
#[derive(Clone, Debug)]
pub struct DepthHistoryResponse {
    pub intervals: Vec<Interval>,
}

/// A page of swap snapshots as the upstream API returns it.
#[derive(Clone, Debug)]
pub struct SwapHistoryResponse {
    pub intervals: Vec<SwapInterval>,
}

/// A page of rune-pool snapshots as the upstream API returns it.
#[derive(Clone, Debug)]
pub struct RunePoolHistoryResponse {
    pub intervals: Vec<RunePoolInterval>,
}

/// The parameters of a history query, as the request carries them.
///
/// `from` and `to` are Unix timestamps in decimal text, `order` is `asc` or
/// `desc`, `page` counts from 1, and `interval` names a bucket width.
#[derive(Clone, Debug)]
pub struct QueryParams {
    pub from: Option<String>,
    pub to: Option<String>,
    pub order: Option<String>,
    pub page: Option<i64>,
    pub limit: Option<i64>,
    pub interval: Option<String>,
}

} // verus!
