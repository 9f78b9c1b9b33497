//! A concentrated-liquidity market maker engine: tick and price math, the
//! swap-step algorithm, tick and position bookkeeping, the price oracle, and
//! the pool and registry operations built on them.

pub mod wide;
pub mod error;
pub mod tick_math;
pub mod swap_math;
pub mod tick;
pub mod tick_bitmap;
pub mod oracle;
pub mod position;
pub mod pool;
pub mod swap;
pub mod factory;
pub mod allowance;
