//! Tick-indexed liquidity and fee/reward accounting for a concentrated-
//! liquidity pool: fixed-point math, the tick ledger and its bitmap index,
//! the per-range and per-depositor position records, and the step that adds
//! liquidity to a position and settles what it is owed.
pub mod error;
pub mod full_math;
pub mod tick;
pub mod position;
pub mod tick_bitmap;
pub mod liquidity;
pub mod metadata;
