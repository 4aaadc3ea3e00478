//! Trades on one answer of a multi-outcome market: matching first, the
//! pool for the remainder, and — in one-winner markets — a negative-risk
//! rebalance of the sibling answers after every pool mutation.

use vstd::prelude::*;
use crate::errors::LikeliError;
use crate::fees::{fee_of, calculate_fee};
use crate::pool::{side_price_of, yes_price_of, shares_out_of, sell_payout_of, current_price,
    calculate_shares_out, pool_sell_payout};
use crate::orderbook::{Orderbook, LimitOrder, match_remaining, match_orders_rec,
    find_matching_orders, compute_match};
use crate::market::{BuySummary, SellSummary, matched_shares_of};
use crate::multi::{MultiMarket, Answer, MultiPosition};
use crate::negrisk::{sync_spec, sync_sibling_pools};

verus! {

/// Everything a successful multi-outcome trade changes, stated over
/// mathematical views.
pub ghost struct TradeEffect {
    pub market: MultiMarket,
    pub answer: Answer,
    pub yes_shares: Seq<u64>,
    pub no_shares: Seq<u64>,
    pub orders: Seq<LimitOrder>,
    pub siblings: Seq<Answer>,
    pub shares_or_payout: u64,
    pub matched_amount: u64,
    pub fee: u64,
}

/// The answer's pools after a buy's own mutation, before any
/// rebalance: the opposite pool grows by the unmatched remainder.
pub open spec fn bought_answer(a: Answer, outcome: bool, rem: u64) -> Answer {
    Answer {
        yes_pool: if outcome {
            a.yes_pool
        } else {
            (a.yes_pool + rem) as u64
        },
        no_pool: if outcome {
            (a.no_pool + rem) as u64
        } else {
            a.no_pool
        },
        ..a
    }
}

/// The answer's pools after a sell's own mutation: the opposite pool
/// shrinks by the pool payout.
pub open spec fn sold_answer(a: Answer, outcome: bool, pool_payout: u64) -> Answer {
    Answer {
        yes_pool: if outcome {
            a.yes_pool
        } else {
            (a.yes_pool - pool_payout) as u64
        },
        no_pool: if outcome {
            (a.no_pool - pool_payout) as u64
        } else {
            a.no_pool
        },
        ..a
    }
}

/// The complete effect of a buy on one answer: every validation,
/// pricing and checked-arithmetic step either succeeds, ending in a
/// sibling rebalance for one-winner markets, or the first failing
/// step's error is returned and nothing changes.  Unlike binary
/// markets, the amount may not exceed 25% of the answer's total pool.
pub open spec fn buy_multi_spec(
    m: MultiMarket,
    a: Answer,
    p: MultiPosition,
    book_market: u64,
    orders: Seq<LimitOrder>,
    siblings: Seq<Answer>,
    buyer: u64,
    market_id: u64,
    outcome: bool,
    amount: u64,
    min_shares_out: u64,
) -> Result<TradeEffect, LikeliError> {
    if m.resolved {
        Err(LikeliError::MarketResolved)
    } else if amount == 0 {
        Err(LikeliError::InvalidAmount)
    } else if a.yes_pool + a.no_pool > u64::MAX {
        Err(LikeliError::ArithmeticOverflow)
    } else if amount > (a.yes_pool + a.no_pool) as u64 / 4 {
        Err(LikeliError::TradeTooLarge)
    } else {
        let fee = fee_of(amount, m.fee_bps) as u64;
        let amount_after_fee = (amount - fee) as u64;
        let price = side_price_of(a.yes_pool, a.no_pool, outcome);
        let rem = match_remaining(orders, book_market, Some(a.index), outcome, true, price as u64,
            amount_after_fee);
        let filled = (amount_after_fee - rem) as u64;
        let matched_shares = matched_shares_of(filled, price);
        let pool_shares = shares_out_of(a.yes_pool, a.no_pool, rem, outcome) as u64;
        if matched_shares + pool_shares > u64::MAX {
            Err(LikeliError::ArithmeticOverflow)
        } else if (if outcome {
            a.no_pool + rem
        } else {
            a.yes_pool + rem
        }) > u64::MAX {
            Err(LikeliError::ArithmeticOverflow)
        } else {
            let total_shares = (matched_shares + pool_shares) as u64;
            let a2 = bought_answer(a, outcome, rem);
            let held = if outcome {
                p.yes_shares@[a.index as int]
            } else {
                p.no_shares@[a.index as int]
            };
            if m.is_one_winner && a2.yes_pool + a2.no_pool > u64::MAX {
                Err(LikeliError::ArithmeticOverflow)
            } else if m.is_one_winner && siblings.len() < m.answer_count - 1 {
                Err(LikeliError::MissingSiblings)
            } else if total_shares < min_shares_out {
                Err(LikeliError::SlippageExceeded)
            } else if held + total_shares > u64::MAX {
                Err(LikeliError::ArithmeticOverflow)
            } else if a.volume + amount > u64::MAX {
                Err(LikeliError::ArithmeticOverflow)
            } else if m.volume + amount > u64::MAX {
                Err(LikeliError::ArithmeticOverflow)
            } else {
                let new_price = yes_price_of(a2.yes_pool, a2.no_pool);
                let sync_r = if m.is_one_winner {
                    sync_spec(siblings, a.index, market_id, new_price as u64, (m.answer_count
                        - 1) as u8)
                } else {
                    Ok(siblings)
                };
                if sync_r is Err {
                    Err(sync_r->Err_0)
                } else {
                    Ok(
                        TradeEffect {
                            market: MultiMarket { volume: (m.volume + amount) as u64, ..m },
                            answer: Answer { volume: (a.volume + amount) as u64, ..a2 },
                            yes_shares: if outcome {
                                p.yes_shares@.update(a.index as int, (held + total_shares) as u64)
                            } else {
                                p.yes_shares@
                            },
                            no_shares: if outcome {
                                p.no_shares@
                            } else {
                                p.no_shares@.update(a.index as int, (held + total_shares) as u64)
                            },
                            orders: match_orders_rec(orders, book_market, Some(a.index), outcome,
                                true, price as u64, amount_after_fee).0,
                            siblings: sync_r->Ok_0,
                            shares_or_payout: total_shares,
                            matched_amount: filled,
                            fee,
                        },
                    )
                }
            }
        }
    }
}

/// Buys shares in one answer of a multi-outcome market with slippage
/// protection; in a one-winner market the sibling answers are
/// rebalanced to the answer's new YES probability as part of the same
/// operation.
pub fn buy_multi(
    market: &mut MultiMarket,
    answer: &mut Answer,
    position: &mut MultiPosition,
    book: &Orderbook,
    candidates: &mut Vec<LimitOrder>,
    siblings: &mut Vec<Answer>,
    buyer: u64,
    market_id: u64,
    outcome: bool,
    amount: u64,
    min_shares_out: u64,
) -> (r: Result<BuySummary, LikeliError>)
    requires
        old(market).wf(),
        old(answer).wf(),
        old(position).wf(),
    ensures
        ({
            let s = buy_multi_spec(*old(market), *old(answer), *old(position), book.market,
                old(candidates)@, old(siblings)@, buyer, market_id, outcome, amount,
                min_shares_out);
            match r {
                Ok(summary) => s is Ok && {
                    let eff = s->Ok_0;
                    &&& summary == (BuySummary {
                        total_shares: eff.shares_or_payout,
                        matched_amount: eff.matched_amount,
                        fee: eff.fee,
                    })
                    &&& *final(market) == eff.market
                    &&& *final(answer) == eff.answer
                    &&& final(position).yes_shares@ == eff.yes_shares
                    &&& final(position).no_shares@ == eff.no_shares
                    &&& final(position).owner == buyer
                    &&& final(position).market == market_id
                    &&& final(candidates)@ == eff.orders
                    &&& final(siblings)@ == eff.siblings
                },
                Err(e) => s is Err && e == s->Err_0 && *final(market) == *old(market)
                    && *final(answer) == *old(answer)
                    && final(position).yes_shares@ == old(position).yes_shares@
                    && final(position).no_shares@ == old(position).no_shares@
                    && final(position).owner == old(position).owner
                    && final(position).market == old(position).market
                    && final(candidates)@ == old(candidates)@
                    && final(siblings)@ == old(siblings)@,
            }
        }),
        final(market).wf(),
        final(answer).wf(),
        final(position).wf(),
{
    if market.resolved {
        return Err(LikeliError::MarketResolved);
    }
    if amount == 0 {
        return Err(LikeliError::InvalidAmount);
    }
    let total_pool = match answer.yes_pool.checked_add(answer.no_pool) {
        Some(v) => v,
        None => { return Err(LikeliError::ArithmeticOverflow) },
    };
    let max_trade = total_pool / 4;
    if amount > max_trade {
        return Err(LikeliError::TradeTooLarge);
    }
    let fee = calculate_fee(amount, market.fee_bps);
    let amount_after_fee = amount - fee;
    let cpmm_price = current_price(answer.yes_pool, answer.no_pool, outcome);
    let rem = compute_match(candidates, book.market, Some(answer.index), outcome, true,
        cpmm_price, amount_after_fee);
    let filled = amount_after_fee - rem;
    let denominator: u64 = if cpmm_price == 0 {
        1
    } else {
        cpmm_price
    };
    let matched_shares = #[verifier::truncate] (((filled as u128) * 10000 / (
    denominator as u128)) as u64);
    let pool_shares = calculate_shares_out(answer.yes_pool, answer.no_pool, rem, outcome);
    let total_shares = match matched_shares.checked_add(pool_shares) {
        Some(v) => v,
        None => { return Err(LikeliError::ArithmeticOverflow) },
    };
    let grown_pool = if outcome {
        answer.no_pool
    } else {
        answer.yes_pool
    };
    let grown_pool = match grown_pool.checked_add(rem) {
        Some(v) => v,
        None => { return Err(LikeliError::ArithmeticOverflow) },
    };
    let a2_yes = if outcome {
        answer.yes_pool
    } else {
        grown_pool
    };
    let a2_no = if outcome {
        grown_pool
    } else {
        answer.no_pool
    };
    if market.is_one_winner {
        match a2_yes.checked_add(a2_no) {
            Some(v) => v,
            None => { return Err(LikeliError::ArithmeticOverflow) },
        };
        if siblings.len() < (market.answer_count - 1) as usize {
            return Err(LikeliError::MissingSiblings);
        }
    }
    if total_shares < min_shares_out {
        return Err(LikeliError::SlippageExceeded);
    }
    let idx = answer.index as usize;
    let held = if outcome {
        position.yes_shares[idx]
    } else {
        position.no_shares[idx]
    };
    let new_held = match held.checked_add(total_shares) {
        Some(v) => v,
        None => { return Err(LikeliError::ArithmeticOverflow) },
    };
    let new_answer_volume = match answer.volume.checked_add(amount) {
        Some(v) => v,
        None => { return Err(LikeliError::ArithmeticOverflow) },
    };
    let new_market_volume = match market.volume.checked_add(amount) {
        Some(v) => v,
        None => { return Err(LikeliError::ArithmeticOverflow) },
    };
    if market.is_one_winner {
        let new_price = current_price(a2_yes, a2_no, true);
        match sync_sibling_pools(answer.index, new_price, market_id, market.answer_count - 1,
            siblings) {
            Ok(u) => u,
            Err(e) => { return Err(e) },
        };
    }
    let _ = find_matching_orders(book, candidates, Some(answer.index), outcome, true, cpmm_price,
        amount_after_fee);
    answer.yes_pool = a2_yes;
    answer.no_pool = a2_no;
    answer.volume = new_answer_volume;
    market.volume = new_market_volume;
    if outcome {
        position.yes_shares.set(idx, new_held);
    } else {
        position.no_shares.set(idx, new_held);
    }
    position.owner = buyer;
    position.market = market_id;
    Ok(BuySummary { total_shares, matched_amount: filled, fee })
}

/// The complete effect of a sell on one answer, in the same style as
/// `buy_multi_spec`: matching first, the remainder paid out of the
/// opposite pool, the fee off the combined payout, and a sibling
/// rebalance for one-winner markets.  No trade-size guard applies to
/// sells.
pub open spec fn sell_multi_spec(
    m: MultiMarket,
    a: Answer,
    p: MultiPosition,
    book_market: u64,
    orders: Seq<LimitOrder>,
    siblings: Seq<Answer>,
    market_id: u64,
    outcome: bool,
    shares_to_sell: u64,
    min_payout: u64,
) -> Result<TradeEffect, LikeliError> {
    if m.resolved {
        Err(LikeliError::MarketResolved)
    } else if shares_to_sell == 0 {
        Err(LikeliError::InvalidAmount)
    } else if (if outcome {
        p.yes_shares@[a.index as int]
    } else {
        p.no_shares@[a.index as int]
    }) < shares_to_sell {
        Err(LikeliError::InsufficientShares)
    } else if a.yes_pool + a.no_pool > u64::MAX {
        Err(LikeliError::ArithmeticOverflow)
    } else if a.yes_pool + a.no_pool == 0 {
        Err(LikeliError::ArithmeticOverflow)
    } else {
        let price = side_price_of(a.yes_pool, a.no_pool, outcome);
        let rem = match_remaining(orders, book_market, Some(a.index), outcome, false,
            price as u64, shares_to_sell);
        let filled = (shares_to_sell - rem) as u64;
        let matched_payout = (filled as int * price / 10000) as u64;
        let same_pool = if outcome {
            a.yes_pool
        } else {
            a.no_pool
        };
        let opposite_pool = if outcome {
            a.no_pool
        } else {
            a.yes_pool
        };
        let pool_payout = if rem > 0 {
            sell_payout_of(same_pool, opposite_pool, rem) as u64
        } else {
            0u64
        };
        if matched_payout + pool_payout > u64::MAX {
            Err(LikeliError::ArithmeticOverflow)
        } else {
            let total_payout = (matched_payout + pool_payout) as u64;
            let a2 = sold_answer(a, outcome, pool_payout);
            let fee = fee_of(total_payout, m.fee_bps) as u64;
            let final_payout = (total_payout - fee) as u64;
            let held = if outcome {
                p.yes_shares@[a.index as int]
            } else {
                p.no_shares@[a.index as int]
            };
            if m.is_one_winner && a2.yes_pool + a2.no_pool == 0 {
                Err(LikeliError::ArithmeticOverflow)
            } else if m.is_one_winner && siblings.len() < m.answer_count - 1 {
                Err(LikeliError::MissingSiblings)
            } else if final_payout < min_payout {
                Err(LikeliError::SlippageExceeded)
            } else if a.volume + final_payout > u64::MAX {
                Err(LikeliError::ArithmeticOverflow)
            } else if m.volume + final_payout > u64::MAX {
                Err(LikeliError::ArithmeticOverflow)
            } else {
                let new_price = yes_price_of(a2.yes_pool, a2.no_pool);
                let sync_r = if m.is_one_winner {
                    sync_spec(siblings, a.index, market_id, new_price as u64, (m.answer_count
                        - 1) as u8)
                } else {
                    Ok(siblings)
                };
                if sync_r is Err {
                    Err(sync_r->Err_0)
                } else {
                    Ok(
                        TradeEffect {
                            market: MultiMarket { volume: (m.volume + final_payout) as u64, ..m },
                            answer: Answer { volume: (a.volume + final_payout) as u64, ..a2 },
                            yes_shares: if outcome {
                                p.yes_shares@.update(a.index as int, (held - shares_to_sell) as u64)
                            } else {
                                p.yes_shares@
                            },
                            no_shares: if outcome {
                                p.no_shares@
                            } else {
                                p.no_shares@.update(a.index as int, (held - shares_to_sell) as u64)
                            },
                            orders: match_orders_rec(orders, book_market, Some(a.index), outcome,
                                false, price as u64, shares_to_sell).0,
                            siblings: sync_r->Ok_0,
                            shares_or_payout: final_payout,
                            matched_amount: filled,
                            fee,
                        },
                    )
                }
            }
        }
    }
}

/// Sells shares in one answer of a multi-outcome market with slippage
/// protection; in a one-winner market the sibling answers are
/// rebalanced to the answer's new YES probability as part of the same
/// operation.
pub fn sell_multi(
    market: &mut MultiMarket,
    answer: &mut Answer,
    position: &mut MultiPosition,
    book: &Orderbook,
    candidates: &mut Vec<LimitOrder>,
    siblings: &mut Vec<Answer>,
    market_id: u64,
    outcome: bool,
    shares_to_sell: u64,
    min_payout: u64,
) -> (r: Result<SellSummary, LikeliError>)
    requires
        old(market).wf(),
        old(answer).wf(),
        old(position).wf(),
    ensures
        ({
            let s = sell_multi_spec(*old(market), *old(answer), *old(position), book.market,
                old(candidates)@, old(siblings)@, market_id, outcome, shares_to_sell, min_payout);
            match r {
                Ok(summary) => s is Ok && {
                    let eff = s->Ok_0;
                    &&& summary == (SellSummary {
                        payout: eff.shares_or_payout,
                        matched_amount: eff.matched_amount,
                        fee: eff.fee,
                    })
                    &&& *final(market) == eff.market
                    &&& *final(answer) == eff.answer
                    &&& final(position).yes_shares@ == eff.yes_shares
                    &&& final(position).no_shares@ == eff.no_shares
                    &&& final(position).owner == old(position).owner
                    &&& final(position).market == old(position).market
                    &&& final(candidates)@ == eff.orders
                    &&& final(siblings)@ == eff.siblings
                },
                Err(e) => s is Err && e == s->Err_0 && *final(market) == *old(market)
                    && *final(answer) == *old(answer)
                    && final(position).yes_shares@ == old(position).yes_shares@
                    && final(position).no_shares@ == old(position).no_shares@
                    && final(position).owner == old(position).owner
                    && final(position).market == old(position).market
                    && final(candidates)@ == old(candidates)@
                    && final(siblings)@ == old(siblings)@,
            }
        }),
        final(market).wf(),
        final(answer).wf(),
        final(position).wf(),
{
    if market.resolved {
        return Err(LikeliError::MarketResolved);
    }
    if shares_to_sell == 0 {
        return Err(LikeliError::InvalidAmount);
    }
    let idx = answer.index as usize;
    let held = if outcome {
        position.yes_shares[idx]
    } else {
        position.no_shares[idx]
    };
    if held < shares_to_sell {
        return Err(LikeliError::InsufficientShares);
    }
    let total_pool = match answer.yes_pool.checked_add(answer.no_pool) {
        Some(v) => v,
        None => { return Err(LikeliError::ArithmeticOverflow) },
    };
    if total_pool == 0 {
        return Err(LikeliError::ArithmeticOverflow);
    }
    let cpmm_price = current_price(answer.yes_pool, answer.no_pool, outcome);
    let rem = compute_match(candidates, book.market, Some(answer.index), outcome, false,
        cpmm_price, shares_to_sell);
    let filled = shares_to_sell - rem;
    proof {
        assert(filled as int * cpmm_price as int <= u64::MAX as int * 10000) by (nonlinear_arith)
            requires
                0 <= filled as int <= u64::MAX as int,
                0 <= cpmm_price as int <= 10000;
        assert(filled as int * cpmm_price as int / 10000 <= filled as int) by (nonlinear_arith)
            requires
                filled as int >= 0,
                0 <= cpmm_price as int <= 10000;
    }
    let matched_payout = ((filled as u128) * (cpmm_price as u128) / 10000) as u64;
    let same_pool = if outcome {
        answer.yes_pool
    } else {
        answer.no_pool
    };
    let opposite_pool = if outcome {
        answer.no_pool
    } else {
        answer.yes_pool
    };
    let pool_payout = if rem > 0 {
        pool_sell_payout(same_pool, opposite_pool, rem)
    } else {
        0
    };
    let total_payout = match matched_payout.checked_add(pool_payout) {
        Some(v) => v,
        None => { return Err(LikeliError::ArithmeticOverflow) },
    };
    let a2_yes = if outcome {
        answer.yes_pool
    } else {
        answer.yes_pool - pool_payout
    };
    let a2_no = if outcome {
        answer.no_pool - pool_payout
    } else {
        answer.no_pool
    };
    let fee = calculate_fee(total_payout, market.fee_bps);
    let final_payout = total_payout - fee;
    if market.is_one_winner {
        if a2_yes == 0 && a2_no == 0 {
            return Err(LikeliError::ArithmeticOverflow);
        }
        if siblings.len() < (market.answer_count - 1) as usize {
            return Err(LikeliError::MissingSiblings);
        }
    }
    if final_payout < min_payout {
        return Err(LikeliError::SlippageExceeded);
    }
    let new_answer_volume = match answer.volume.checked_add(final_payout) {
        Some(v) => v,
        None => { return Err(LikeliError::ArithmeticOverflow) },
    };
    let new_market_volume = match market.volume.checked_add(final_payout) {
        Some(v) => v,
        None => { return Err(LikeliError::ArithmeticOverflow) },
    };
    if market.is_one_winner {
        let new_price = current_price(a2_yes, a2_no, true);
        match sync_sibling_pools(answer.index, new_price, market_id, market.answer_count - 1,
            siblings) {
            Ok(u) => u,
            Err(e) => { return Err(e) },
        };
    }
    let _ = find_matching_orders(book, candidates, Some(answer.index), outcome, false, cpmm_price,
        shares_to_sell);
    answer.yes_pool = a2_yes;
    answer.no_pool = a2_no;
    answer.volume = new_answer_volume;
    market.volume = new_market_volume;
    if outcome {
        position.yes_shares.set(idx, held - shares_to_sell);
    } else {
        position.no_shares.set(idx, held - shares_to_sell);
    }
    Ok(SellSummary { payout: final_payout, matched_amount: filled, fee })
}

/// Manually rebalances a one-winner market's pools around one answer:
/// the siblings are rescaled so that all implied probabilities again
/// sum to 100% against the answer's current YES price.
pub fn rebalance_market(
    market: &MultiMarket,
    answer: &Answer,
    market_id: u64,
    siblings: &mut Vec<Answer>,
) -> (r: Result<(), LikeliError>)
    requires
        market.wf(),
    ensures
        !market.is_one_winner ==> r == Err::<(), LikeliError>(LikeliError::NotOneWinnerMarket)
            && final(siblings)@ == old(siblings)@,
        market.is_one_winner && (answer.yes_pool + answer.no_pool > u64::MAX || answer.yes_pool
            + answer.no_pool == 0) ==> r == Err::<(), LikeliError>(LikeliError::ArithmeticOverflow)
            && final(siblings)@ == old(siblings)@,
        market.is_one_winner && 0 < answer.yes_pool + answer.no_pool <= u64::MAX ==> ({
            let s = sync_spec(old(siblings)@, answer.index, market_id,
                crate::pool::yes_price_of(answer.yes_pool, answer.no_pool) as u64,
                (market.answer_count - 1) as u8);
            match r {
                Ok(u) => s is Ok && final(siblings)@ == s->Ok_0,
                Err(e) => s is Err && e == s->Err_0 && final(siblings)@ == old(siblings)@,
            }
        }),
{
    if !market.is_one_winner {
        return Err(LikeliError::NotOneWinnerMarket);
    }
    let total = match answer.yes_pool.checked_add(answer.no_pool) {
        Some(v) => v,
        None => { return Err(LikeliError::ArithmeticOverflow) },
    };
    if total == 0 {
        return Err(LikeliError::ArithmeticOverflow);
    }
    let current_yes_price = current_price(answer.yes_pool, answer.no_pool, true);
    sync_sibling_pools(answer.index, current_yes_price, market_id, market.answer_count - 1,
        siblings)
}

} // verus!
