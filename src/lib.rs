//! A concentrated-liquidity market maker for a single pool: a fixed-point
//! tick-to-price table, a ledger of per-tick liquidity, and a swap engine
//! that steps the price across tick boundaries.
pub mod error;
pub mod pool;
pub mod price_math;
pub mod tick_registry;
