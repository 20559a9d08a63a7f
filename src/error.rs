use vstd::prelude::*;

verus! {

/// Every way a liquidity mutation can be rejected. Each one aborts the whole
/// mutation: no record is left partly updated.
#[derive(PartialEq, Eq, Structural, Debug, Clone, Copy)]
pub enum ErrorCode {
    /// A checked add or multiply on an owed or liquidity counter overflowed.
    ArithmeticOverflow,
    /// A checked subtraction on an owed or liquidity counter went below zero.
    ArithmeticUnderflow,
    /// A division by a zero denominator: a configuration error upstream.
    DivideByZero,
    /// The requested delta would push a tick's gross liquidity over its cap,
    /// or is too large to apply as a signed delta.
    LiquidityOverflow,
    /// The requested delta removes more liquidity than is held.
    LiquidityUnderflow,
    /// The amounts consumed fall under the caller's minimums.
    SlippageExceeded,
    /// A tick lies outside the indexable range.
    TickOutOfRange,
    /// A tick is not a multiple of the tick spacing, the range is empty, or a
    /// position record belongs to another range.
    InvalidTickSpacing,
}

} // verus!
