use likeli::errors::LikeliError;
use likeli::multi::{create_multi_market, add_answer, Answer, MultiPosition};
use likeli::multi_trade::{buy_multi, rebalance_market};
use likeli::negrisk::sync_sibling_pools;
use likeli::orderbook::create_orderbook;

const CREATOR: u64 = 11;
const BUYER: u64 = 22;
const MARKET_ID: u64 = 7;

fn sibling(index: u8, yes_pool: u64, no_pool: u64) -> Answer {
    Answer {
        market: MARKET_ID,
        index,
        label_hash: [0u8; 32],
        yes_pool,
        no_pool,
        volume: 0,
        resolved: false,
        outcome: None,
    }
}

fn prob(a: &Answer) -> u64 {
    (a.no_pool as u128 * 10000 / (a.yes_pool as u128 + a.no_pool as u128)) as u64
}

#[test]
fn rebalanced_probabilities_sum_exactly_to_the_budget() {
    // the traded answer moved to 4000 bps, so the two siblings must
    // end up sharing exactly 6000 between them
    let mut siblings = vec![sibling(1, 12000, 8000), sibling(2, 7000, 3000)];
    sync_sibling_pools(0, 4000, MARKET_ID, 2, &mut siblings).unwrap();
    // proportional rescale: 4000 -> 3428, 3000 -> 2571, one basis
    // point short; the last sibling is nudged up to close the gap
    assert_eq!(siblings[0].no_pool, 6856);
    assert_eq!(siblings[0].yes_pool, 13144);
    assert_eq!(siblings[1].no_pool, 2572);
    assert_eq!(siblings[1].yes_pool, 7428);
    assert_eq!(prob(&siblings[0]), 3428);
    assert_eq!(prob(&siblings[1]), 2572);
    assert_eq!(4000 + prob(&siblings[0]) + prob(&siblings[1]), 10000);
    // each sibling keeps its total pool size
    assert_eq!(siblings[0].yes_pool + siblings[0].no_pool, 20000);
    assert_eq!(siblings[1].yes_pool + siblings[1].no_pool, 10000);
}

#[test]
fn rebalance_requires_enough_sibling_records() {
    let mut siblings = vec![sibling(1, 12000, 8000)];
    assert_eq!(
        sync_sibling_pools(0, 4000, MARKET_ID, 2, &mut siblings).unwrap_err(),
        LikeliError::MissingSiblings
    );
    assert_eq!(siblings[0].no_pool, 8000);
}

#[test]
fn rebalance_skips_foreign_and_current_records() {
    let mut foreign = sibling(1, 5000, 5000);
    foreign.market = 99;
    let current = sibling(0, 5000, 5000);
    let mut siblings = vec![foreign, current, sibling(1, 10000, 10000)];
    sync_sibling_pools(0, 4000, MARKET_ID, 2, &mut siblings).unwrap();
    // the foreign record and the just-traded answer are untouched
    assert_eq!(siblings[0].no_pool, 5000);
    assert_eq!(siblings[1].no_pool, 5000);
    // the one valid sibling takes the whole 6000 target
    assert_eq!(prob(&siblings[2]), 6000);
    assert_eq!(siblings[2].yes_pool + siblings[2].no_pool, 20000);
}

#[test]
fn rebalance_with_no_valid_sibling_is_a_noop() {
    let mut siblings = vec![sibling(0, 5000, 5000)];
    sync_sibling_pools(0, 4000, MARKET_ID, 1, &mut siblings).unwrap();
    assert_eq!(siblings[0].yes_pool, 5000);
    assert_eq!(siblings[0].no_pool, 5000);
}

#[test]
fn one_winner_buy_keeps_the_probability_budget() {
    let mut m = create_multi_market([0u8; 32], 3, true, 10000, 0, 1000, CREATOR, 100).unwrap();
    let mut a0 = add_answer(&m, MARKET_ID, 0, [1u8; 32], 10000).unwrap();
    let a1 = add_answer(&m, MARKET_ID, 1, [1u8; 32], 10000).unwrap();
    let a2 = add_answer(&m, MARKET_ID, 2, [1u8; 32], 10000).unwrap();
    let mut pos = MultiPosition::new(BUYER, MARKET_ID);
    let book = create_orderbook(MARKET_ID);
    let mut candidates = Vec::new();
    let mut siblings = vec![a1, a2];
    assert_eq!(prob(&a0), 3333);
    buy_multi(
        &mut m, &mut a0, &mut pos, &book, &mut candidates, &mut siblings, BUYER, MARKET_ID, true,
        600, 0,
    )
    .unwrap();
    // the traded answer rose to 3464; the siblings were rescaled so
    // the three probabilities again cover exactly 100%
    assert_eq!(prob(&a0), 3464);
    assert_eq!(prob(&a0) + prob(&siblings[0]) + prob(&siblings[1]), 10000);
}

#[test]
fn missing_siblings_abort_a_one_winner_buy_untouched() {
    let mut m = create_multi_market([0u8; 32], 3, true, 10000, 0, 1000, CREATOR, 100).unwrap();
    let mut a0 = add_answer(&m, MARKET_ID, 0, [1u8; 32], 10000).unwrap();
    let mut pos = MultiPosition::new(BUYER, MARKET_ID);
    let book = create_orderbook(MARKET_ID);
    let mut candidates = Vec::new();
    let mut siblings = Vec::new();
    let r = buy_multi(
        &mut m, &mut a0, &mut pos, &book, &mut candidates, &mut siblings, BUYER, MARKET_ID, true,
        600, 0,
    );
    assert_eq!(r.unwrap_err(), LikeliError::MissingSiblings);
    assert_eq!(a0.no_pool, 10000);
    assert_eq!(m.volume, 0);
    assert_eq!(pos.yes_shares[0], 0);
}

#[test]
fn manual_rebalance_is_one_winner_only() {
    let m = create_multi_market([0u8; 32], 3, false, 10000, 0, 1000, CREATOR, 100).unwrap();
    let a = sibling(0, 10000, 10000);
    let mut siblings = vec![sibling(1, 10000, 10000), sibling(2, 10000, 10000)];
    assert_eq!(
        rebalance_market(&m, &a, MARKET_ID, &mut siblings).unwrap_err(),
        LikeliError::NotOneWinnerMarket
    );
}

#[test]
fn manual_rebalance_restores_consistency() {
    let m = create_multi_market([0u8; 32], 3, true, 10000, 0, 1000, CREATOR, 100).unwrap();
    // the traded answer sits at 5000 while both siblings also claim
    // 5000 each: 150% in total; the rebalance squeezes the siblings
    // into the remaining 5000
    let a = sibling(0, 10000, 10000);
    let mut siblings = vec![sibling(1, 10000, 10000), sibling(2, 10000, 10000)];
    rebalance_market(&m, &a, MARKET_ID, &mut siblings).unwrap();
    assert_eq!(prob(&a) + prob(&siblings[0]) + prob(&siblings[1]), 10000);
    assert_eq!(prob(&siblings[0]), 2500);
    assert_eq!(prob(&siblings[1]), 2500);
}

#[test]
fn rounding_nudge_never_creates_liquidity() {
    // the proportional rescale leaves the realized sum two basis
    // points short here; the closing nudge wants to push the last
    // sibling's NO pool past its total and is clamped at the total,
    // so probability is redistributed but liquidity never grows
    let mut siblings = vec![sibling(1, 9998, 1), sibling(2, 2, 24998)];
    sync_sibling_pools(0, 0, MARKET_ID, 2, &mut siblings).unwrap();
    assert_eq!(siblings[0].yes_pool, 9999);
    assert_eq!(siblings[0].no_pool, 0);
    assert_eq!(siblings[1].yes_pool, 0);
    assert_eq!(siblings[1].no_pool, 25000);
    assert_eq!(siblings[0].yes_pool + siblings[0].no_pool, 9999);
    assert_eq!(siblings[1].yes_pool + siblings[1].no_pool, 25000);
}

#[test]
fn one_winner_no_trade_rebalances_to_the_yes_budget() {
    // a NO trade moves the answer's YES probability down; the siblings
    // must absorb the freed budget against the YES probability, not
    // the traded side's price
    let mut m = create_multi_market([0u8; 32], 3, true, 10000, 0, 1000, CREATOR, 100).unwrap();
    let mut a0 = add_answer(&m, MARKET_ID, 0, [1u8; 32], 10000).unwrap();
    let a1 = add_answer(&m, MARKET_ID, 1, [1u8; 32], 10000).unwrap();
    let a2 = add_answer(&m, MARKET_ID, 2, [1u8; 32], 10000).unwrap();
    let mut pos = MultiPosition::new(BUYER, MARKET_ID);
    let book = create_orderbook(MARKET_ID);
    let mut candidates = Vec::new();
    let mut siblings = vec![a1, a2];
    buy_multi(
        &mut m, &mut a0, &mut pos, &book, &mut candidates, &mut siblings, BUYER, MARKET_ID, false,
        600, 0,
    )
    .unwrap();
    assert_eq!(a0.yes_pool, 20600);
    assert_eq!(prob(&a0), 3267);
    assert_eq!(prob(&siblings[0]), 3366);
    assert_eq!(prob(&siblings[1]), 3367);
    assert_eq!(prob(&a0) + prob(&siblings[0]) + prob(&siblings[1]), 10000);
}
