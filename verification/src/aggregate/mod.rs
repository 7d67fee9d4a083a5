//! The aggregation engine: folds the rows of each bucket into one record.
//!
//! Additive fields are summed, `end_time` takes the maximum, `start_time`
//! stays that of the bucket's first row.

pub mod depth;
pub mod earnings;
pub mod rune_pool;
pub mod swap;
