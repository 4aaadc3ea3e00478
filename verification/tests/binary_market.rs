use likeli::errors::LikeliError;
use likeli::market::{
    create_market, resolve_market, claim_winnings, claim_winnings_with_vault, set_market_fees,
    get_market_price, buy_shares, sell_shares, UserPosition,
};
use likeli::orderbook::create_orderbook;

const CREATOR: u64 = 11;
const BUYER: u64 = 22;
const MARKET_ID: u64 = 1;

fn fresh_market() -> likeli::market::Market {
    create_market(
        String::from("will it rain tomorrow"),
        1000,
        1000,
        None,
        None,
        CREATOR,
        100,
    )
    .unwrap()
}

#[test]
fn create_market_rejects_long_question() {
    let question: String = std::iter::repeat('q').take(201).collect();
    let r = create_market(question, 1000, 1000, None, None, CREATOR, 100);
    assert_eq!(r.unwrap_err(), LikeliError::QuestionTooLong);
}

#[test]
fn create_market_rejects_past_resolution_time() {
    let r = create_market(String::from("q"), 100, 1000, None, None, CREATOR, 100);
    assert_eq!(r.unwrap_err(), LikeliError::InvalidResolutionTime);
}

#[test]
fn create_market_rejects_small_liquidity() {
    let r = create_market(String::from("q"), 1000, 99, None, None, CREATOR, 100);
    assert_eq!(r.unwrap_err(), LikeliError::InsufficientLiquidity);
}

#[test]
fn create_market_sets_equal_pools() {
    let m = fresh_market();
    assert_eq!(m.yes_pool, 1000);
    assert_eq!(m.no_pool, 1000);
    assert_eq!(m.total_volume, 0);
    assert_eq!(m.fee_bps, 0);
    assert!(!m.resolved);
}

#[test]
fn displayed_prices_sum_to_10000() {
    let m = fresh_market();
    let (yes, no) = get_market_price(&m);
    assert_eq!(yes, 5000);
    assert_eq!(no, 5000);
    let mut m = m;
    let mut pos = UserPosition::new(BUYER, MARKET_ID);
    let book = create_orderbook(MARKET_ID);
    let mut candidates = Vec::new();
    buy_shares(
        &mut m, &mut pos, &book, &mut candidates, BUYER, MARKET_ID, true, 100, 0,
    )
    .unwrap();
    let (yes2, no2) = get_market_price(&m);
    assert_eq!(yes2 + no2, 10000);
}

#[test]
fn buy_yes_pays_pool_formula_and_grows_no_pool() {
    let mut m = fresh_market();
    let mut pos = UserPosition::new(BUYER, MARKET_ID);
    let book = create_orderbook(MARKET_ID);
    let mut candidates = Vec::new();
    let summary = buy_shares(
        &mut m, &mut pos, &book, &mut candidates, BUYER, MARKET_ID, true, 100, 0,
    )
    .unwrap();
    // 100 + 100 * 1000 / 1100 = 190 shares, nothing matched, no fee
    assert_eq!(summary.total_shares, 190);
    assert_eq!(summary.matched_amount, 0);
    assert_eq!(summary.fee, 0);
    assert_eq!(m.yes_pool, 1000);
    assert_eq!(m.no_pool, 1100);
    assert_eq!(m.total_volume, 100);
    assert_eq!(pos.yes_shares, 190);
    assert_eq!(pos.no_shares, 0);
}

#[test]
fn buy_then_sell_at_zero_fee_is_not_a_round_trip() {
    let mut m = fresh_market();
    let mut pos = UserPosition::new(BUYER, MARKET_ID);
    let book = create_orderbook(MARKET_ID);
    let mut candidates = Vec::new();
    buy_shares(
        &mut m, &mut pos, &book, &mut candidates, BUYER, MARKET_ID, true, 100, 0,
    )
    .unwrap();
    // selling the 190 shares straight back pays 190 * 1100 / 1190 = 175,
    // not the 100 that was paid in: the buy and sell formulas are not
    // algebraic inverses, and here the seller comes out ahead
    let summary = sell_shares(&mut m, &mut pos, &book, &mut candidates, true, 190, 0).unwrap();
    assert_eq!(summary.payout, 175);
    assert_ne!(summary.payout, 100);
    assert_eq!(m.no_pool, 925);
    assert_eq!(m.yes_pool, 1000);
    assert_eq!(pos.yes_shares, 0);
}

#[test]
fn buy_with_fee_deducts_before_pricing() {
    let mut m = fresh_market();
    set_market_fees(&mut m, CREATOR, 250, 0, 0, 0).unwrap();
    let mut pos = UserPosition::new(BUYER, MARKET_ID);
    let book = create_orderbook(MARKET_ID);
    let mut candidates = Vec::new();
    let summary = buy_shares(
        &mut m, &mut pos, &book, &mut candidates, BUYER, MARKET_ID, true, 12345, 0,
    )
    .unwrap();
    assert_eq!(summary.fee, 308);
    assert_eq!(m.collected_fees, 308);
    // the net 12037 goes into the NO pool
    assert_eq!(m.no_pool, 1000 + 12037);
}

#[test]
fn buy_rejects_zero_amount_and_resolved_market() {
    let mut m = fresh_market();
    let mut pos = UserPosition::new(BUYER, MARKET_ID);
    let book = create_orderbook(MARKET_ID);
    let mut candidates = Vec::new();
    let r = buy_shares(
        &mut m, &mut pos, &book, &mut candidates, BUYER, MARKET_ID, true, 0, 0,
    );
    assert_eq!(r.unwrap_err(), LikeliError::InvalidAmount);
    resolve_market(&mut m, CREATOR, true, 2000).unwrap();
    let r = buy_shares(
        &mut m, &mut pos, &book, &mut candidates, BUYER, MARKET_ID, true, 100, 0,
    );
    assert_eq!(r.unwrap_err(), LikeliError::MarketResolved);
}

#[test]
fn buy_slippage_guard_rejects_thin_output() {
    let mut m = fresh_market();
    let mut pos = UserPosition::new(BUYER, MARKET_ID);
    let book = create_orderbook(MARKET_ID);
    let mut candidates = Vec::new();
    let r = buy_shares(
        &mut m, &mut pos, &book, &mut candidates, BUYER, MARKET_ID, true, 100, 191,
    );
    assert_eq!(r.unwrap_err(), LikeliError::SlippageExceeded);
    // nothing changed
    assert_eq!(m.no_pool, 1000);
    assert_eq!(m.total_volume, 0);
    assert_eq!(pos.yes_shares, 0);
}

#[test]
fn overflowing_buy_aborts_with_no_state_change() {
    let mut m = fresh_market();
    let mut pos = UserPosition::new(BUYER, MARKET_ID);
    let book = create_orderbook(MARKET_ID);
    let mut candidates = Vec::new();
    let r = buy_shares(
        &mut m, &mut pos, &book, &mut candidates, BUYER, MARKET_ID, true, u64::MAX, 0,
    );
    assert_eq!(r.unwrap_err(), LikeliError::ArithmeticOverflow);
    assert_eq!(m.yes_pool, 1000);
    assert_eq!(m.no_pool, 1000);
    assert_eq!(m.total_volume, 0);
    assert_eq!(m.collected_fees, 0);
    assert_eq!(pos.yes_shares, 0);
    assert_eq!(pos.no_shares, 0);
}

#[test]
fn sell_requires_enough_shares() {
    let mut m = fresh_market();
    let mut pos = UserPosition::new(BUYER, MARKET_ID);
    let book = create_orderbook(MARKET_ID);
    let mut candidates = Vec::new();
    let r = sell_shares(&mut m, &mut pos, &book, &mut candidates, true, 10, 0);
    assert_eq!(r.unwrap_err(), LikeliError::InsufficientShares);
}

#[test]
fn resolve_market_is_creator_only_and_time_gated() {
    let mut m = fresh_market();
    assert_eq!(
        resolve_market(&mut m, BUYER, true, 2000).unwrap_err(),
        LikeliError::Unauthorized
    );
    assert_eq!(
        resolve_market(&mut m, CREATOR, true, 999).unwrap_err(),
        LikeliError::TooEarlyToResolve
    );
    resolve_market(&mut m, CREATOR, true, 1000).unwrap();
    assert!(m.resolved);
    assert!(m.outcome);
    assert_eq!(
        resolve_market(&mut m, CREATOR, true, 2000).unwrap_err(),
        LikeliError::MarketResolved
    );
}

#[test]
fn claim_pays_winning_side_once() {
    let mut m = fresh_market();
    let mut pos = UserPosition::new(BUYER, MARKET_ID);
    pos.yes_shares = 70;
    pos.no_shares = 30;
    assert_eq!(
        claim_winnings(&m, &mut pos).unwrap_err(),
        LikeliError::MarketNotResolved
    );
    resolve_market(&mut m, CREATOR, true, 2000).unwrap();
    assert_eq!(claim_winnings(&m, &mut pos).unwrap(), 70);
    // both sides are zeroed, so a second claim finds nothing
    assert_eq!(pos.yes_shares, 0);
    assert_eq!(pos.no_shares, 0);
    assert_eq!(
        claim_winnings(&m, &mut pos).unwrap_err(),
        LikeliError::NoWinningShares
    );
}

#[test]
fn claim_with_vault_reports_transferable_payout() {
    let mut m = fresh_market();
    let mut pos = UserPosition::new(BUYER, MARKET_ID);
    pos.no_shares = 40;
    resolve_market(&mut m, CREATOR, false, 2000).unwrap();
    assert_eq!(claim_winnings_with_vault(&m, &mut pos).unwrap(), 40);
    assert_eq!(pos.no_shares, 0);
}

#[test]
fn set_market_fees_enforces_cap_and_identity() {
    let mut m = fresh_market();
    assert_eq!(
        set_market_fees(&mut m, BUYER, 100, 0, 0, 0).unwrap_err(),
        LikeliError::Unauthorized
    );
    assert_eq!(
        set_market_fees(&mut m, CREATOR, 500, 300, 200, 1).unwrap_err(),
        LikeliError::FeesTooHigh
    );
    set_market_fees(&mut m, CREATOR, 500, 300, 200, 0).unwrap();
    assert_eq!(m.fee_bps, 500);
    assert_eq!(m.creator_fee_bps, 300);
    assert_eq!(m.platform_fee_bps, 200);
    assert_eq!(m.liquidity_fee_bps, 0);
}

fn resting_no_ask(price: u64, qty: u64) -> likeli::orderbook::LimitOrder {
    likeli::orderbook::LimitOrder {
        owner: 5,
        market: MARKET_ID,
        answer_index: None,
        price,
        qty,
        filled_qty: 0,
        is_yes: false,
        is_bid: false,
        created_at: 0,
        expires_at: None,
    }
}

#[test]
fn buy_consumes_resting_liquidity_before_the_pool() {
    let mut m = fresh_market();
    let mut pos = UserPosition::new(BUYER, MARKET_ID);
    let book = create_orderbook(MARKET_ID);
    let mut candidates = vec![resting_no_ask(4500, 300)];
    let summary = buy_shares(
        &mut m, &mut pos, &book, &mut candidates, BUYER, MARKET_ID, true, 500, 0,
    )
    .unwrap();
    // 300 fill at the quoted 5000: 300 * 10000 / 5000 = 600 shares;
    // the 200 remainder buys 200 + 200 * 1000 / 1200 = 366 from the pool
    assert_eq!(summary.matched_amount, 300);
    assert_eq!(summary.total_shares, 600 + 366);
    assert_eq!(candidates[0].filled_qty, 300);
    // only the unmatched remainder reaches the pool
    assert_eq!(m.no_pool, 1200);
    assert_eq!(pos.yes_shares, 966);
}

#[test]
fn sell_crosses_resting_bids_before_the_pool() {
    let mut m = fresh_market();
    let mut pos = UserPosition::new(BUYER, MARKET_ID);
    pos.yes_shares = 100;
    let book = create_orderbook(MARKET_ID);
    let mut bid = resting_no_ask(5500, 40);
    bid.is_bid = true;
    let mut candidates = vec![bid];
    let summary = sell_shares(&mut m, &mut pos, &book, &mut candidates, true, 100, 0).unwrap();
    // 40 shares match at the quoted 5000: 40 * 5000 / 10000 = 20; the
    // other 60 drain 60 * 1000 / 1060 = 56 from the NO pool
    assert_eq!(summary.matched_amount, 40);
    assert_eq!(summary.payout, 20 + 56);
    assert_eq!(m.no_pool, 1000 - 56);
    assert_eq!(pos.yes_shares, 0);
}
