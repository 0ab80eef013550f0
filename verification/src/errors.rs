//! The conditions under which an operation is refused.

use vstd::prelude::*;

verus! {

/// Why an operation was refused. A refused operation changes nothing.
#[derive(Clone, Copy, Debug, PartialEq, Eq, Structural)]
pub enum Error {
    /// The operation needs a non-zero amount.
    AmountZero,
    /// The account holds less than the amount to be taken from it.
    BalanceLow,
    /// The spender is approved for less than the amount.
    AllowanceLow,
    /// The asset has never been issued, nor created as a pool's share asset.
    AssetNotExists,
    /// The pair is not open for trading.
    TradingPairNotAllowed,
    /// The path has fewer than two assets, or more than the longest path has.
    InvalidTradingPathLength,
    /// One side of a pool on the path is empty.
    InsufficientLiquidity,
    /// A hop of an exact-supply trade pays out nothing.
    ZeroTargetAmount,
    /// A hop of an exact-target trade cannot be paid for.
    ZeroSupplyAmount,
    /// The trade pays out less than the caller's minimum.
    InsufficientTargetAmount,
    /// The trade costs more than the caller's maximum.
    ExcessiveSupplyAmount,
    /// A hop takes too large a part of the pool's target reserve.
    ExceedPriceImpactLimit,
    /// One of the amounts of a liquidity change would be zero.
    InvalidLiquidityIncrement,
    /// A share asset stands where a plain asset is needed, or the reverse.
    InvalidCurrencyId,
}

} // verus!
