//! Binary YES/NO markets: creation, resolution, fee configuration,
//! claims, and the pool/orderbook trades `buy_shares` / `sell_shares`.

use vstd::prelude::*;
use vstd::string::StrSliceExecFns;
use crate::errors::LikeliError;
use crate::fees::{fee_of, calculate_fee};
use crate::pool::{
    side_price_of, shares_out_of, sell_payout_of, current_price, calculate_shares_out,
    pool_sell_payout, yes_price_of,
};
use crate::orderbook::{Orderbook, LimitOrder, match_remaining, match_orders_rec,
    find_matching_orders, compute_match};

verus! {

/// A binary prediction market.  Both pools start equal to the initial
/// liquidity and stay strictly positive forever.
#[derive(Debug)]
pub struct Market {
    pub creator: u64,
    pub question: String,
    pub resolution_time: i64,
    pub yes_pool: u64,
    pub no_pool: u64,
    pub total_volume: u64,
    pub resolved: bool,
    pub outcome: bool,
    pub created_at: i64,
    pub group_id: Option<String>,
    pub answer_label: Option<String>,
    pub fee_bps: u16,
    pub creator_fee_bps: u16,
    pub platform_fee_bps: u16,
    pub liquidity_fee_bps: u16,
    pub collected_fees: u64,
}

impl Market {
    /// Well-formedness: strictly positive pools, a bounded question,
    /// and configured fees that sum to at most 1000 basis points.
    pub open spec fn wf(self) -> bool {
        &&& self.yes_pool >= 1
        &&& self.no_pool >= 1
        &&& self.question@.len() <= 200
        &&& self.fee_bps as int + self.creator_fee_bps as int + self.platform_fee_bps as int
            + self.liquidity_fee_bps as int <= 1000
    }
}

/// A holder's share balances in one binary market.
#[derive(Clone, Copy, Debug, PartialEq, Eq, Structural)]
pub struct UserPosition {
    pub owner: u64,
    pub market: u64,
    pub yes_shares: u64,
    pub no_shares: u64,
}

impl UserPosition {
    /// A fresh, empty position.
    pub fn new(owner: u64, market: u64) -> (p: UserPosition)
        ensures
            p == (UserPosition { owner, market, yes_shares: 0, no_shares: 0 }),
    {
        UserPosition { owner, market, yes_shares: 0, no_shares: 0 }
    }
}

/// Creates a binary market with equal starting pools.
///
/// Rejects an overlong question, a resolution time not in the future,
/// and initial liquidity under 100 units, in that order.
pub fn create_market(
    question: String,
    resolution_time: i64,
    initial_liquidity: u64,
    group_id: Option<String>,
    answer_label: Option<String>,
    creator: u64,
    now: i64,
) -> (r: Result<Market, LikeliError>)
    ensures
        r is Ok <==> question@.len() <= 200 && resolution_time > now && initial_liquidity >= 100,
        question@.len() > 200 ==> r == Err::<Market, LikeliError>(LikeliError::QuestionTooLong),
        question@.len() <= 200 && resolution_time <= now ==> r == Err::<Market, LikeliError>(
            LikeliError::InvalidResolutionTime,
        ),
        question@.len() <= 200 && resolution_time > now && initial_liquidity < 100 ==> r == Err::<
            Market,
            LikeliError,
        >(LikeliError::InsufficientLiquidity),
        r is Ok ==> r->Ok_0 == (Market {
            creator,
            question,
            resolution_time,
            yes_pool: initial_liquidity,
            no_pool: initial_liquidity,
            total_volume: 0,
            resolved: false,
            outcome: false,
            created_at: now,
            group_id,
            answer_label,
            fee_bps: 0,
            creator_fee_bps: 0,
            platform_fee_bps: 0,
            liquidity_fee_bps: 0,
            collected_fees: 0,
        }),
        r is Ok ==> r->Ok_0.wf(),
{
    if question.as_str().unicode_len() > 200 {
        return Err(LikeliError::QuestionTooLong);
    }
    if resolution_time <= now {
        return Err(LikeliError::InvalidResolutionTime);
    }
    if initial_liquidity < 100 {
        return Err(LikeliError::InsufficientLiquidity);
    }
    Ok(
        Market {
            creator,
            question,
            resolution_time,
            yes_pool: initial_liquidity,
            no_pool: initial_liquidity,
            total_volume: 0,
            resolved: false,
            outcome: false,
            created_at: now,
            group_id,
            answer_label,
            fee_bps: 0,
            creator_fee_bps: 0,
            platform_fee_bps: 0,
            liquidity_fee_bps: 0,
            collected_fees: 0,
        },
    )
}

/// Resolves a binary market to an outcome.  Only the creator may
/// resolve, only once, and only at or after the resolution time.
pub fn resolve_market(market: &mut Market, resolver: u64, outcome: bool, now: i64) -> (r: Result<
    (),
    LikeliError,
>)
    ensures
        r is Ok <==> !old(market).resolved && resolver == old(market).creator && now
            >= old(market).resolution_time,
        old(market).resolved ==> r == Err::<(), LikeliError>(LikeliError::MarketResolved),
        !old(market).resolved && resolver != old(market).creator ==> r == Err::<(), LikeliError>(
            LikeliError::Unauthorized,
        ),
        !old(market).resolved && resolver == old(market).creator && now
            < old(market).resolution_time ==> r == Err::<(), LikeliError>(
            LikeliError::TooEarlyToResolve,
        ),
        r is Ok ==> *final(market) == (Market { resolved: true, outcome, ..*old(market) }),
        r is Err ==> *final(market) == *old(market),
{
    if market.resolved {
        return Err(LikeliError::MarketResolved);
    }
    if resolver != market.creator {
        return Err(LikeliError::Unauthorized);
    }
    if now < market.resolution_time {
        return Err(LikeliError::TooEarlyToResolve);
    }
    market.resolved = true;
    market.outcome = outcome;
    Ok(())
}

/// The winning-side balance of a position once the market is resolved.
pub open spec fn winning_shares_of(market: Market, position: UserPosition) -> u64 {
    if market.outcome {
        position.yes_shares
    } else {
        position.no_shares
    }
}

/// Claims winnings after resolution: pays one collateral unit per
/// winning share and zeroes both sides of the position before any
/// transfer can happen, so a second claim finds nothing.
pub fn claim_winnings(market: &Market, user_position: &mut UserPosition) -> (r: Result<
    u64,
    LikeliError,
>)
    ensures
        r is Ok <==> market.resolved && winning_shares_of(*market, *old(user_position)) > 0,
        !market.resolved ==> r == Err::<u64, LikeliError>(LikeliError::MarketNotResolved),
        market.resolved && winning_shares_of(*market, *old(user_position)) == 0 ==> r == Err::<
            u64,
            LikeliError,
        >(LikeliError::NoWinningShares),
        r is Ok ==> r->Ok_0 == winning_shares_of(*market, *old(user_position))
            && *final(user_position) == (UserPosition {
            yes_shares: 0,
            no_shares: 0,
            ..*old(user_position)
        }),
        r is Err ==> *final(user_position) == *old(user_position),
{
    if !market.resolved {
        return Err(LikeliError::MarketNotResolved);
    }
    let winning_shares: u64 = if market.outcome {
        user_position.yes_shares
    } else {
        user_position.no_shares
    };
    if winning_shares == 0 {
        return Err(LikeliError::NoWinningShares);
    }
    user_position.yes_shares = 0;
    user_position.no_shares = 0;
    Ok(winning_shares)
}

/// Claims winnings for payment out of a collateral vault: the same
/// computation as `claim_winnings`; the host must transfer exactly the
/// returned payout from the vault to the claimer.
pub fn claim_winnings_with_vault(market: &Market, user_position: &mut UserPosition) -> (r: Result<
    u64,
    LikeliError,
>)
    ensures
        r is Ok <==> market.resolved && winning_shares_of(*market, *old(user_position)) > 0,
        !market.resolved ==> r == Err::<u64, LikeliError>(LikeliError::MarketNotResolved),
        market.resolved && winning_shares_of(*market, *old(user_position)) == 0 ==> r == Err::<
            u64,
            LikeliError,
        >(LikeliError::NoWinningShares),
        r is Ok ==> r->Ok_0 == winning_shares_of(*market, *old(user_position))
            && *final(user_position) == (UserPosition {
            yes_shares: 0,
            no_shares: 0,
            ..*old(user_position)
        }),
        r is Err ==> *final(user_position) == *old(user_position),
{
    claim_winnings(market, user_position)
}

/// Configures the market's fee categories.  Only the creator may set
/// fees, and the categories must sum to at most 1000 basis points.
pub fn set_market_fees(
    market: &mut Market,
    caller: u64,
    fee_bps: u16,
    creator_fee_bps: u16,
    platform_fee_bps: u16,
    liquidity_fee_bps: u16,
) -> (r: Result<(), LikeliError>)
    ensures
        r is Ok <==> caller == old(market).creator && fee_bps as int + creator_fee_bps as int
            + platform_fee_bps as int + liquidity_fee_bps as int <= 1000,
        caller != old(market).creator ==> r == Err::<(), LikeliError>(LikeliError::Unauthorized),
        caller == old(market).creator && fee_bps as int + creator_fee_bps as int
            + platform_fee_bps as int + liquidity_fee_bps as int > 1000 ==> r == Err::<
            (),
            LikeliError,
        >(LikeliError::FeesTooHigh),
        r is Ok ==> *final(market) == (Market {
            fee_bps,
            creator_fee_bps,
            platform_fee_bps,
            liquidity_fee_bps,
            ..*old(market)
        }),
        r is Err ==> *final(market) == *old(market),
        old(market).wf() ==> final(market).wf(),
{
    if caller != market.creator {
        return Err(LikeliError::Unauthorized);
    }
    let total_fees: u32 = fee_bps as u32 + creator_fee_bps as u32 + platform_fee_bps as u32
        + liquidity_fee_bps as u32;
    if total_fees > 1000 {
        return Err(LikeliError::FeesTooHigh);
    }
    market.fee_bps = fee_bps;
    market.creator_fee_bps = creator_fee_bps;
    market.platform_fee_bps = platform_fee_bps;
    market.liquidity_fee_bps = liquidity_fee_bps;
    Ok(())
}

/// Summary of a completed buy: shares credited, how much of the net
/// amount resting orders absorbed, and the fee collected.
#[derive(Clone, Copy, Debug, PartialEq, Eq, Structural)]
pub struct BuySummary {
    pub total_shares: u64,
    pub matched_amount: u64,
    pub fee: u64,
}

/// Summary of a completed sell: collateral paid out after fees, how
/// many shares resting orders absorbed, and the fee collected.
#[derive(Clone, Copy, Debug, PartialEq, Eq, Structural)]
pub struct SellSummary {
    pub payout: u64,
    pub matched_amount: u64,
    pub fee: u64,
}

/// Shares handed out for the quantity resting orders absorbed, at the
/// quoted price: `filled * 10000 / max(price, 1)`, truncated to 64 bits.
pub open spec fn matched_shares_of(filled: u64, price: int) -> u64 {
    (filled as int * 10000 / (if price == 0 {
        1int
    } else {
        price
    })) as u64
}

/// The complete effect of a binary buy: either every validation,
/// matching, pricing and checked-arithmetic step succeeds and the
/// resulting market, position, candidate list and summary are returned,
/// or the first failing step's error is returned and nothing changes.
pub open spec fn buy_shares_spec(
    m: Market,
    p: UserPosition,
    book_market: u64,
    orders: Seq<LimitOrder>,
    buyer: u64,
    market_id: u64,
    outcome: bool,
    amount: u64,
    min_shares_out: u64,
) -> Result<(Market, UserPosition, Seq<LimitOrder>, BuySummary), LikeliError> {
    if m.resolved {
        Err(LikeliError::MarketResolved)
    } else if amount == 0 {
        Err(LikeliError::InvalidAmount)
    } else {
        let fee = fee_of(amount, m.fee_bps) as u64;
        let amount_after_fee = (amount - fee) as u64;
        if m.collected_fees + fee > u64::MAX {
            Err(LikeliError::ArithmeticOverflow)
        } else if m.yes_pool + m.no_pool > u64::MAX {
            Err(LikeliError::ArithmeticOverflow)
        } else {
            let price = side_price_of(m.yes_pool, m.no_pool, outcome);
            let rem = match_remaining(orders, book_market, None, outcome, true, price as u64,
                amount_after_fee);
            let filled = (amount_after_fee - rem) as u64;
            let matched_shares = matched_shares_of(filled, price);
            let pool_shares = shares_out_of(m.yes_pool, m.no_pool, rem, outcome) as u64;
            if matched_shares + pool_shares > u64::MAX {
                Err(LikeliError::ArithmeticOverflow)
            } else if (if outcome {
                m.no_pool + rem
            } else {
                m.yes_pool + rem
            }) > u64::MAX {
                Err(LikeliError::ArithmeticOverflow)
            } else {
                let total_shares = (matched_shares + pool_shares) as u64;
                if total_shares < min_shares_out {
                    Err(LikeliError::SlippageExceeded)
                } else if (if outcome {
                    p.yes_shares
                } else {
                    p.no_shares
                }) + total_shares > u64::MAX {
                    Err(LikeliError::ArithmeticOverflow)
                } else if m.total_volume + amount > u64::MAX {
                    Err(LikeliError::ArithmeticOverflow)
                } else {
                    let m2 = Market {
                        yes_pool: if outcome {
                            m.yes_pool
                        } else {
                            (m.yes_pool + rem) as u64
                        },
                        no_pool: if outcome {
                            (m.no_pool + rem) as u64
                        } else {
                            m.no_pool
                        },
                        total_volume: (m.total_volume + amount) as u64,
                        collected_fees: (m.collected_fees + fee) as u64,
                        ..m
                    };
                    let p2 = UserPosition {
                        owner: buyer,
                        market: market_id,
                        yes_shares: if outcome {
                            (p.yes_shares + total_shares) as u64
                        } else {
                            p.yes_shares
                        },
                        no_shares: if outcome {
                            p.no_shares
                        } else {
                            (p.no_shares + total_shares) as u64
                        },
                    };
                    let orders2 = match_orders_rec(orders, book_market, None, outcome, true,
                        price as u64, amount_after_fee).0;
                    Ok(
                        (
                            m2,
                            p2,
                            orders2,
                            BuySummary { total_shares, matched_amount: filled, fee },
                        ),
                    )
                }
            }
        }
    }
}

/// Buys shares in a binary market with slippage protection.
///
/// The request is first offered to the caller-supplied resting orders
/// at the current pool price; the unmatched remainder is priced by the
/// pool, whose opposite side then grows by that remainder.  The fee is
/// taken off `amount` up front and accrues to the market.
pub fn buy_shares(
    market: &mut Market,
    user_position: &mut UserPosition,
    book: &Orderbook,
    candidates: &mut Vec<LimitOrder>,
    buyer: u64,
    market_id: u64,
    outcome: bool,
    amount: u64,
    min_shares_out: u64,
) -> (r: Result<BuySummary, LikeliError>)
    requires
        old(market).wf(),
    ensures
        ({
            let s = buy_shares_spec(*old(market), *old(user_position), book.market,
                old(candidates)@, buyer, market_id, outcome, amount, min_shares_out);
            match r {
                Ok(summary) => s is Ok && summary == s->Ok_0.3 && *final(market) == s->Ok_0.0
                    && *final(user_position) == s->Ok_0.1 && final(candidates)@ == s->Ok_0.2,
                Err(e) => s is Err && e == s->Err_0 && *final(market) == *old(market)
                    && *final(user_position) == *old(user_position) && final(candidates)@
                    == old(candidates)@,
            }
        }),
        final(market).wf(),
{
    if market.resolved {
        return Err(LikeliError::MarketResolved);
    }
    if amount == 0 {
        return Err(LikeliError::InvalidAmount);
    }
    let fee = calculate_fee(amount, market.fee_bps);
    let amount_after_fee = amount - fee;
    let new_collected = match market.collected_fees.checked_add(fee) {
        Some(v) => v,
        None => { return Err(LikeliError::ArithmeticOverflow) },
    };
    // the combined pool must fit before any price can be quoted
    let _total_pool = match market.yes_pool.checked_add(market.no_pool) {
        Some(v) => v,
        None => { return Err(LikeliError::ArithmeticOverflow) },
    };
    let cpmm_price = current_price(market.yes_pool, market.no_pool, outcome);
    let rem = compute_match(candidates, book.market, None, outcome, true, cpmm_price,
        amount_after_fee);
    let filled = amount_after_fee - rem;
    let denominator: u64 = if cpmm_price == 0 {
        1
    } else {
        cpmm_price
    };
    let matched_shares = #[verifier::truncate] (((filled as u128) * 10000 / (
    denominator as u128)) as u64);
    let pool_shares = calculate_shares_out(market.yes_pool, market.no_pool, rem, outcome);
    let total_shares = match matched_shares.checked_add(pool_shares) {
        Some(v) => v,
        None => { return Err(LikeliError::ArithmeticOverflow) },
    };
    let grown_pool = if outcome {
        market.no_pool
    } else {
        market.yes_pool
    };
    let grown_pool = match grown_pool.checked_add(rem) {
        Some(v) => v,
        None => { return Err(LikeliError::ArithmeticOverflow) },
    };
    if total_shares < min_shares_out {
        return Err(LikeliError::SlippageExceeded);
    }
    let side_shares = if outcome {
        user_position.yes_shares
    } else {
        user_position.no_shares
    };
    let side_shares = match side_shares.checked_add(total_shares) {
        Some(v) => v,
        None => { return Err(LikeliError::ArithmeticOverflow) },
    };
    let new_volume = match market.total_volume.checked_add(amount) {
        Some(v) => v,
        None => { return Err(LikeliError::ArithmeticOverflow) },
    };
    let _ = find_matching_orders(book, candidates, None, outcome, true, cpmm_price,
        amount_after_fee);
    market.collected_fees = new_collected;
    if outcome {
        market.no_pool = grown_pool;
        user_position.yes_shares = side_shares;
    } else {
        market.yes_pool = grown_pool;
        user_position.no_shares = side_shares;
    }
    market.total_volume = new_volume;
    user_position.owner = buyer;
    user_position.market = market_id;
    Ok(BuySummary { total_shares, matched_amount: filled, fee })
}

/// The complete effect of a binary sell, in the same all-or-nothing
/// style as `buy_shares_spec`: matching first at the quoted price, the
/// remainder priced by the pool formula and drained from the opposite
/// pool, the fee taken off the combined payout.
pub open spec fn sell_shares_spec(
    m: Market,
    p: UserPosition,
    book_market: u64,
    orders: Seq<LimitOrder>,
    outcome: bool,
    shares_to_sell: u64,
    min_payout: u64,
) -> Result<(Market, UserPosition, Seq<LimitOrder>, SellSummary), LikeliError> {
    if m.resolved {
        Err(LikeliError::MarketResolved)
    } else if shares_to_sell == 0 {
        Err(LikeliError::InvalidAmount)
    } else if (if outcome {
        p.yes_shares
    } else {
        p.no_shares
    }) < shares_to_sell {
        Err(LikeliError::InsufficientShares)
    } else if m.yes_pool + m.no_pool > u64::MAX {
        Err(LikeliError::ArithmeticOverflow)
    } else {
        let price = side_price_of(m.yes_pool, m.no_pool, outcome);
        let rem = match_remaining(orders, book_market, None, outcome, false, price as u64,
            shares_to_sell);
        let filled = (shares_to_sell - rem) as u64;
        let matched_payout = (filled as int * price / 10000) as u64;
        let same_pool = if outcome {
            m.yes_pool
        } else {
            m.no_pool
        };
        let opposite_pool = if outcome {
            m.no_pool
        } else {
            m.yes_pool
        };
        let pool_payout = if rem > 0 {
            sell_payout_of(same_pool, opposite_pool, rem) as u64
        } else {
            0u64
        };
        if matched_payout + pool_payout > u64::MAX {
            Err(LikeliError::ArithmeticOverflow)
        } else {
            let total_payout = (matched_payout + pool_payout) as u64;
            let fee = fee_of(total_payout, m.fee_bps) as u64;
            let final_payout = (total_payout - fee) as u64;
            if m.collected_fees + fee > u64::MAX {
                Err(LikeliError::ArithmeticOverflow)
            } else if final_payout < min_payout {
                Err(LikeliError::SlippageExceeded)
            } else if m.total_volume + final_payout > u64::MAX {
                Err(LikeliError::ArithmeticOverflow)
            } else {
                let m2 = Market {
                    yes_pool: if outcome {
                        m.yes_pool
                    } else {
                        (m.yes_pool - pool_payout) as u64
                    },
                    no_pool: if outcome {
                        (m.no_pool - pool_payout) as u64
                    } else {
                        m.no_pool
                    },
                    total_volume: (m.total_volume + final_payout) as u64,
                    collected_fees: (m.collected_fees + fee) as u64,
                    ..m
                };
                let p2 = UserPosition {
                    yes_shares: if outcome {
                        (p.yes_shares - shares_to_sell) as u64
                    } else {
                        p.yes_shares
                    },
                    no_shares: if outcome {
                        p.no_shares
                    } else {
                        (p.no_shares - shares_to_sell) as u64
                    },
                    ..p
                };
                let orders2 = match_orders_rec(orders, book_market, None, outcome, false,
                    price as u64, shares_to_sell).0;
                Ok(
                    (
                        m2,
                        p2,
                        orders2,
                        SellSummary { payout: final_payout, matched_amount: filled, fee },
                    ),
                )
            }
        }
    }
}

/// Sells shares in a binary market with slippage protection.
///
/// The shares are first offered to the caller-supplied resting bids at
/// the current pool price; the remainder is paid out of the opposite
/// pool, which shrinks by exactly the payout.  The fee comes off the
/// combined payout at the end.
pub fn sell_shares(
    market: &mut Market,
    user_position: &mut UserPosition,
    book: &Orderbook,
    candidates: &mut Vec<LimitOrder>,
    outcome: bool,
    shares_to_sell: u64,
    min_payout: u64,
) -> (r: Result<SellSummary, LikeliError>)
    requires
        old(market).wf(),
    ensures
        ({
            let s = sell_shares_spec(*old(market), *old(user_position), book.market,
                old(candidates)@, outcome, shares_to_sell, min_payout);
            match r {
                Ok(summary) => s is Ok && summary == s->Ok_0.3 && *final(market) == s->Ok_0.0
                    && *final(user_position) == s->Ok_0.1 && final(candidates)@ == s->Ok_0.2,
                Err(e) => s is Err && e == s->Err_0 && *final(market) == *old(market)
                    && *final(user_position) == *old(user_position) && final(candidates)@
                    == old(candidates)@,
            }
        }),
        final(market).wf(),
{
    if market.resolved {
        return Err(LikeliError::MarketResolved);
    }
    if shares_to_sell == 0 {
        return Err(LikeliError::InvalidAmount);
    }
    let held = if outcome {
        user_position.yes_shares
    } else {
        user_position.no_shares
    };
    if held < shares_to_sell {
        return Err(LikeliError::InsufficientShares);
    }
    // the combined pool must fit before any price can be quoted
    let _total_pool = match market.yes_pool.checked_add(market.no_pool) {
        Some(v) => v,
        None => { return Err(LikeliError::ArithmeticOverflow) },
    };
    let cpmm_price = current_price(market.yes_pool, market.no_pool, outcome);
    let rem = compute_match(candidates, book.market, None, outcome, false, cpmm_price,
        shares_to_sell);
    let filled = shares_to_sell - rem;
    proof {
        assert(filled as int * cpmm_price as int <= u64::MAX as int * 10000) by (nonlinear_arith)
            requires
                0 <= filled as int <= u64::MAX as int,
                0 <= cpmm_price as int <= 10000;
        assert(filled as int * cpmm_price as int / 10000 <= filled as int) by (nonlinear_arith)
            requires
                filled as int >= 0,
                0 <= cpmm_price as int <= 10000;
    }
    let matched_payout = ((filled as u128) * (cpmm_price as u128) / 10000) as u64;
    let same_pool = if outcome {
        market.yes_pool
    } else {
        market.no_pool
    };
    let opposite_pool = if outcome {
        market.no_pool
    } else {
        market.yes_pool
    };
    let pool_payout = if rem > 0 {
        pool_sell_payout(same_pool, opposite_pool, rem)
    } else {
        0
    };
    let total_payout = match matched_payout.checked_add(pool_payout) {
        Some(v) => v,
        None => { return Err(LikeliError::ArithmeticOverflow) },
    };
    let fee = calculate_fee(total_payout, market.fee_bps);
    let final_payout = total_payout - fee;
    let new_collected = match market.collected_fees.checked_add(fee) {
        Some(v) => v,
        None => { return Err(LikeliError::ArithmeticOverflow) },
    };
    if final_payout < min_payout {
        return Err(LikeliError::SlippageExceeded);
    }
    let new_volume = match market.total_volume.checked_add(final_payout) {
        Some(v) => v,
        None => { return Err(LikeliError::ArithmeticOverflow) },
    };
    let _ = find_matching_orders(book, candidates, None, outcome, false, cpmm_price,
        shares_to_sell);
    if outcome {
        market.no_pool = market.no_pool - pool_payout;
        user_position.yes_shares = user_position.yes_shares - shares_to_sell;
    } else {
        market.yes_pool = market.yes_pool - pool_payout;
        user_position.no_shares = user_position.no_shares - shares_to_sell;
    }
    market.collected_fees = new_collected;
    market.total_volume = new_volume;
    Ok(SellSummary { payout: final_payout, matched_amount: filled, fee })
}

/// Quotes the market's displayed prices in basis points: the YES price
/// from the pools, and the NO price as its exact complement, so the two
/// always sum to 10000.
pub fn get_market_price(market: &Market) -> (r: (u64, u64))
    requires
        market.wf(),
    ensures
        r.0 == yes_price_of(market.yes_pool, market.no_pool),
        r.1 == 10000 - r.0,
        r.0 + r.1 == 10000,
{
    let yes_prob: u64 = current_price(market.yes_pool, market.no_pool, true);
    (yes_prob, 10000 - yes_prob)
}

} // verus!
