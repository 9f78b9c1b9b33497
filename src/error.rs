//! Error types of the engine.
use vstd::prelude::*;

verus! {

/// Failures of the price math, the tick registry and the position ledger.
#[derive(Clone, Copy, Debug, PartialEq, Eq, Structural)]
pub enum LiquidityHelperError {
    TickError,
    AddOverflowBalance0,
    AddOverflowBalance1,
    M0,
    M1,
    CheckedNeg0,
    CheckedNeg1,
    BurningInsuficientBalance,
    /// A tick outside `[MIN_TICK, MAX_TICK]`.
    TickOutOfRange,
    /// A square-root price outside `[MIN_SQRT_RATIO, MAX_SQRT_RATIO)`.
    SqrtRatioOutOfRange,
    /// A zero denominator, or a quotient too wide for the result.
    DivisionOverflow,
    /// Gross liquidity of a tick above the per-tick cap, or liquidity out of range.
    LiquidityOverflow,
    /// An oracle lookup older than the oldest observation kept.
    ObservationTooOld,
    /// A position without liquidity cannot be updated with a zero change.
    NoLiquidity,
    /// A tick left with no gross liquidity still carries net liquidity.
    UnbalancedTick,
}

} // verus!
