//! Incremental ingestion and time-bucket aggregation for four history series
//! (depth, rune pool, swap, earnings).
//!
//! The crate holds the decisions of the pipeline as verified functions on
//! plain values: which rows form a bucket and what a bucket sums to, how a
//! paginated fetch advances, when a series is stale, what an idempotent write
//! does to a store, and how query parameters select a page.

pub mod aggregate;
pub mod buckets;
pub mod fetch;
pub mod models;
pub mod query;
pub mod scheduler;
pub mod text;
pub mod totals;
pub mod writer;
