//! The closed error type shared by every operation of the engine.
//!
//! Errors fall into the families described by the protocol's error
//! taxonomy: validation errors (bad shape, checked first), state
//! preconditions, resource limits, arithmetic failures, and slippage.
//! Every operation either fully succeeds or fails with exactly one of
//! these variants and no state change.

use vstd::prelude::*;

verus! {

#[derive(Clone, Copy, Debug, PartialEq, Eq, Structural)]
pub enum LikeliError {
    /// The market question exceeds the maximum length of 200 characters.
    QuestionTooLong,
    /// The resolution time is not in the future.
    InvalidResolutionTime,
    /// Initial liquidity is below the minimum of 100 units.
    InsufficientLiquidity,
    /// The market has already been resolved.
    MarketResolved,
    /// The market has not been resolved yet.
    MarketNotResolved,
    /// A zero amount or quantity was supplied.
    InvalidAmount,
    /// The caller is not the market creator.
    Unauthorized,
    /// The market cannot be resolved before its resolution time.
    TooEarlyToResolve,
    /// A limit price outside 1..=9999 basis points.
    InvalidPrice,
    /// The position does not hold enough shares.
    InsufficientShares,
    /// The orderbook side already holds the maximum of 100 orders.
    OrderbookFull,
    /// The order is not present in the orderbook.
    OrderNotFound,
    /// The configured fees sum to more than 1000 basis points.
    FeesTooHigh,
    /// The trade yielded less than the caller's stated minimum.
    SlippageExceeded,
    /// The position holds no winning shares to claim.
    NoWinningShares,
    /// The answer count is outside 2..=10.
    InvalidAnswerCount,
    /// The answer index is not below the market's answer count.
    InvalidAnswerIndex,
    /// The operation applies only to one-winner markets.
    NotOneWinnerMarket,
    /// The conversion index set is empty or has bits beyond the answer count.
    InvalidIndexSet,
    /// The conversion index set selects no NO positions.
    NoConvertiblePositions,
    /// The answer has already been resolved.
    AnswerAlreadyResolved,
    /// A winner has already been declared for this one-winner market.
    WinnerAlreadyDeclared,
    /// The trade exceeds 25% of the answer's total pool.
    TradeTooLarge,
    /// Fewer sibling records were supplied than the market has siblings.
    MissingSiblings,
    /// A checked arithmetic step would overflow or divide by zero; the
    /// whole operation aborts with no state change.
    ArithmeticOverflow,
}

} // verus!
