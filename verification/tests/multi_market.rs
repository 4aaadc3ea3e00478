use likeli::errors::LikeliError;
use likeli::multi::{
    create_multi_market, add_answer, resolve_answer, set_multi_market_config, has_winner,
    claim_multi_winnings, claim_multi_winnings_with_vault, MultiPosition,
};
use likeli::multi_trade::{buy_multi, sell_multi};
use likeli::orderbook::create_orderbook;

const CREATOR: u64 = 11;
const BUYER: u64 = 22;
const MARKET_ID: u64 = 7;

fn fresh_multi(one_winner: bool) -> likeli::multi::MultiMarket {
    create_multi_market([0u8; 32], 3, one_winner, 1000, 0, 1000, CREATOR, 100).unwrap()
}

#[test]
fn create_multi_market_validates_shape() {
    assert_eq!(
        create_multi_market([0u8; 32], 1, false, 1000, 0, 1000, CREATOR, 100).unwrap_err(),
        LikeliError::InvalidAnswerCount
    );
    assert_eq!(
        create_multi_market([0u8; 32], 11, false, 1000, 0, 1000, CREATOR, 100).unwrap_err(),
        LikeliError::InvalidAnswerCount
    );
    assert_eq!(
        create_multi_market([0u8; 32], 3, false, 1000, 0, 50, CREATOR, 100).unwrap_err(),
        LikeliError::InvalidResolutionTime
    );
    assert_eq!(
        create_multi_market([0u8; 32], 3, false, 99, 0, 1000, CREATOR, 100).unwrap_err(),
        LikeliError::InsufficientLiquidity
    );
    assert_eq!(
        create_multi_market([0u8; 32], 3, false, 1000, 1001, 1000, CREATOR, 100).unwrap_err(),
        LikeliError::FeesTooHigh
    );
}

#[test]
fn add_answer_starts_at_uniform_probability() {
    let m = fresh_multi(true);
    let a = add_answer(&m, MARKET_ID, 0, [1u8; 32], 1000).unwrap();
    // no = 1000, yes = (3 - 1) * 1000: price = 1000 * 10000 / 3000 = 3333
    assert_eq!(a.no_pool, 1000);
    assert_eq!(a.yes_pool, 2000);
    assert_eq!(a.volume, 0);
    assert!(!a.resolved);
    assert_eq!(a.outcome, None);
    assert_eq!(
        add_answer(&m, MARKET_ID, 3, [1u8; 32], 1000).unwrap_err(),
        LikeliError::InvalidAnswerIndex
    );
    assert_eq!(
        add_answer(&m, MARKET_ID, 0, [1u8; 32], 10).unwrap_err(),
        LikeliError::InsufficientLiquidity
    );
}

#[test]
fn buy_multi_enforces_trade_size_guard() {
    let mut m = fresh_multi(false);
    let mut a = add_answer(&m, MARKET_ID, 0, [1u8; 32], 1000).unwrap();
    let mut pos = MultiPosition::new(BUYER, MARKET_ID);
    let book = create_orderbook(MARKET_ID);
    let mut candidates = Vec::new();
    let mut siblings = Vec::new();
    // total pool 3000: anything above 750 is rejected wholesale
    let r = buy_multi(
        &mut m, &mut a, &mut pos, &book, &mut candidates, &mut siblings, BUYER, MARKET_ID, true,
        751, 0,
    );
    assert_eq!(r.unwrap_err(), LikeliError::TradeTooLarge);
    assert_eq!(a.no_pool, 1000);
}

#[test]
fn buy_multi_prices_through_the_answer_pool() {
    let mut m = fresh_multi(false);
    let mut a = add_answer(&m, MARKET_ID, 0, [1u8; 32], 1000).unwrap();
    let mut pos = MultiPosition::new(BUYER, MARKET_ID);
    let book = create_orderbook(MARKET_ID);
    let mut candidates = Vec::new();
    let mut siblings = Vec::new();
    let summary = buy_multi(
        &mut m, &mut a, &mut pos, &book, &mut candidates, &mut siblings, BUYER, MARKET_ID, true,
        600, 0,
    )
    .unwrap();
    // 600 + 600 * 2000 / 1600 = 1350 shares
    assert_eq!(summary.total_shares, 1350);
    assert_eq!(a.no_pool, 1600);
    assert_eq!(a.yes_pool, 2000);
    assert_eq!(a.volume, 600);
    assert_eq!(m.volume, 600);
    assert_eq!(pos.yes_shares[0], 1350);
}

#[test]
fn sell_multi_requires_held_shares_on_the_answer() {
    let mut m = fresh_multi(false);
    let mut a = add_answer(&m, MARKET_ID, 1, [1u8; 32], 1000).unwrap();
    let mut pos = MultiPosition::new(BUYER, MARKET_ID);
    let book = create_orderbook(MARKET_ID);
    let mut candidates = Vec::new();
    let mut siblings = Vec::new();
    let r = sell_multi(
        &mut m, &mut a, &mut pos, &book, &mut candidates, &mut siblings, MARKET_ID, true, 10, 0,
    );
    assert_eq!(r.unwrap_err(), LikeliError::InsufficientShares);
}

#[test]
fn sell_multi_pays_from_the_opposite_pool() {
    let mut m = fresh_multi(false);
    let mut a = add_answer(&m, MARKET_ID, 0, [1u8; 32], 1000).unwrap();
    let mut pos = MultiPosition::new(BUYER, MARKET_ID);
    let book = create_orderbook(MARKET_ID);
    let mut candidates = Vec::new();
    let mut siblings = Vec::new();
    buy_multi(
        &mut m, &mut a, &mut pos, &book, &mut candidates, &mut siblings, BUYER, MARKET_ID, true,
        600, 0,
    )
    .unwrap();
    // 1350 * 1600 / (2000 + 1350) = 644
    let summary = sell_multi(
        &mut m, &mut a, &mut pos, &book, &mut candidates, &mut siblings, MARKET_ID, true, 1350, 0,
    )
    .unwrap();
    assert_eq!(summary.payout, 644);
    assert_eq!(a.no_pool, 1600 - 644);
    assert_eq!(pos.yes_shares[0], 0);
    assert_eq!(m.volume, 600 + 644);
}

#[test]
fn resolve_answer_counts_up_to_market_resolution() {
    let mut m = fresh_multi(true);
    let mut a0 = add_answer(&m, MARKET_ID, 0, [1u8; 32], 1000).unwrap();
    let mut a1 = add_answer(&m, MARKET_ID, 1, [1u8; 32], 1000).unwrap();
    let mut a2 = add_answer(&m, MARKET_ID, 2, [1u8; 32], 1000).unwrap();
    assert_eq!(
        resolve_answer(&mut m, &mut a0, BUYER, true, 2000).unwrap_err(),
        LikeliError::Unauthorized
    );
    assert_eq!(
        resolve_answer(&mut m, &mut a0, CREATOR, true, 500).unwrap_err(),
        LikeliError::TooEarlyToResolve
    );
    resolve_answer(&mut m, &mut a0, CREATOR, true, 2000).unwrap();
    assert_eq!(a0.outcome, Some(true));
    assert_eq!(m.answers_resolved, 1);
    assert!(!m.resolved);
    assert_eq!(
        resolve_answer(&mut m, &mut a0, CREATOR, true, 2000).unwrap_err(),
        LikeliError::AnswerAlreadyResolved
    );
    resolve_answer(&mut m, &mut a1, CREATOR, false, 2000).unwrap();
    resolve_answer(&mut m, &mut a2, CREATOR, false, 2000).unwrap();
    assert_eq!(m.answers_resolved, 3);
    assert!(m.resolved);
}

#[test]
fn winner_detection_is_permissive() {
    let m = fresh_multi(true);
    assert!(!has_winner(&m));
}

#[test]
fn claim_multi_sums_yes_balances_and_zeroes_position() {
    let mut m = fresh_multi(true);
    m.resolved = true;
    let mut pos = MultiPosition::new(BUYER, MARKET_ID);
    pos.yes_shares[0] = 10;
    pos.yes_shares[2] = 25;
    pos.no_shares[1] = 99;
    assert_eq!(claim_multi_winnings(&m, &mut pos).unwrap(), 35);
    for i in 0..10 {
        assert_eq!(pos.yes_shares[i], 0);
        assert_eq!(pos.no_shares[i], 0);
    }
    // a second claim pays nothing
    assert_eq!(claim_multi_winnings(&m, &mut pos).unwrap(), 0);
}

#[test]
fn claim_multi_with_vault_rejects_empty_claims() {
    let mut m = fresh_multi(true);
    let mut pos = MultiPosition::new(BUYER, MARKET_ID);
    assert_eq!(
        claim_multi_winnings_with_vault(&m, &mut pos).unwrap_err(),
        LikeliError::MarketNotResolved
    );
    m.resolved = true;
    assert_eq!(
        claim_multi_winnings_with_vault(&m, &mut pos).unwrap_err(),
        LikeliError::NoWinningShares
    );
    pos.yes_shares[4] = 12;
    assert_eq!(claim_multi_winnings_with_vault(&m, &mut pos).unwrap(), 12);
    assert_eq!(pos.yes_shares[4], 0);
}

#[test]
fn set_multi_market_config_rewrites_terms() {
    let mut m = fresh_multi(false);
    assert_eq!(
        set_multi_market_config(&mut m, BUYER, true, 100, 5000).unwrap_err(),
        LikeliError::Unauthorized
    );
    assert_eq!(
        set_multi_market_config(&mut m, CREATOR, true, 1001, 5000).unwrap_err(),
        LikeliError::FeesTooHigh
    );
    set_multi_market_config(&mut m, CREATOR, true, 100, 5000).unwrap();
    assert!(m.is_one_winner);
    assert_eq!(m.fee_bps, 100);
    assert_eq!(m.resolution_time, 5000);
}
