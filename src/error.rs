//! Errors that pool operations report to their callers.
use vstd::prelude::*;

verus! {

/// Why a pool operation was refused. Every refused operation leaves the pool
/// and the account as they were.
#[derive(Clone, Copy, Debug, PartialEq, Eq, Structural)]
pub enum PoolError {
    /// A tick lies outside `[MIN_TICK, MAX_TICK]`, the range is empty, or
    /// the liquidity is zero.
    InvalidRange,
    /// A deposit or a swap input exceeds what the account holds.
    InsufficientBalance,
    /// A swap starts at a tick with no liquidity.
    NoLiquidity,
    /// The liquidity at a tick would exceed `MAX_LIQUIDITY`.
    LiquidityOverflow,
    /// A removal asks for more liquidity than the tick holds.
    LiquidityUnderflow,
    /// A credit would take a balance beyond what a `u128` holds.
    BalanceOverflow,
}

impl PoolError {
    /// A short description of the error.
    pub fn message(&self) -> (r: String) {
        match self {
            PoolError::InvalidRange => "invalid tick range".to_string(),
            PoolError::InsufficientBalance => "insufficient balance".to_string(),
            PoolError::NoLiquidity => "no liquidity at the current tick".to_string(),
            PoolError::LiquidityOverflow => "liquidity would exceed its maximum".to_string(),
            PoolError::LiquidityUnderflow => "liquidity would become negative".to_string(),
            PoolError::BalanceOverflow => "balance would overflow".to_string(),
        }
    }
}

} // verus!
