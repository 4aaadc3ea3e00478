use likeli::errors::LikeliError;
use likeli::market::create_market;
use likeli::orderbook::{
    Orderbook, LimitOrder, create_orderbook, find_matching_orders, try_match_against_orderbook,
    place_order, cancel_order, remove_order_from_book,
};

const MARKET_ID: u64 = 1;
const MAKER: u64 = 5;
const TAKER: u64 = 6;

fn resting_no_ask(price: u64, qty: u64) -> LimitOrder {
    LimitOrder {
        owner: MAKER,
        market: MARKET_ID,
        answer_index: None,
        price,
        qty,
        filled_qty: 0,
        is_yes: false,
        is_bid: false,
        created_at: 0,
        expires_at: None,
    }
}

fn fresh_market() -> likeli::market::Market {
    create_market(String::from("q"), 1000, 1000, None, None, MAKER, 100).unwrap()
}

#[test]
fn buy_fills_resting_sell_at_compatible_price() {
    // a resting 50-unit sell at 4000 bps against a 30-unit buy at a
    // limit of 4000: exactly 30 fill, nothing remains
    let book = create_orderbook(MARKET_ID);
    let mut candidates = vec![resting_no_ask(4000, 50)];
    let r = find_matching_orders(&book, &mut candidates, None, true, true, 4000, 30);
    assert_eq!(r.filled_amount, 30);
    assert_eq!(r.remaining_amount, 0);
    assert_eq!(r.matched_price, 4000);
    assert_eq!(candidates[0].filled_qty, 30);
}

#[test]
fn buy_skips_overpriced_resting_order() {
    let book = create_orderbook(MARKET_ID);
    let mut candidates = vec![resting_no_ask(4001, 50)];
    let r = find_matching_orders(&book, &mut candidates, None, true, true, 4000, 30);
    assert_eq!(r.filled_amount, 0);
    assert_eq!(r.remaining_amount, 30);
    assert_eq!(candidates[0].filled_qty, 0);
}

#[test]
fn matching_caps_at_available_quantity() {
    let book = create_orderbook(MARKET_ID);
    let mut candidates = vec![resting_no_ask(4000, 50)];
    let r = find_matching_orders(&book, &mut candidates, None, true, true, 5000, 60);
    assert_eq!(r.filled_amount, 50);
    assert_eq!(r.remaining_amount, 10);
    assert_eq!(candidates[0].filled_qty, 50);
}

#[test]
fn matching_consumes_candidates_in_presentation_order() {
    // the engine never re-sorts by price: the worse-priced order that
    // comes first is consumed first
    let book = create_orderbook(MARKET_ID);
    let mut candidates = vec![resting_no_ask(4000, 20), resting_no_ask(3000, 20)];
    let r = find_matching_orders(&book, &mut candidates, None, true, true, 4000, 30);
    assert_eq!(r.filled_amount, 30);
    assert_eq!(candidates[0].filled_qty, 20);
    assert_eq!(candidates[1].filled_qty, 10);
}

#[test]
fn matching_skips_other_market_and_same_side() {
    let book = create_orderbook(MARKET_ID);
    let mut foreign = resting_no_ask(4000, 50);
    foreign.market = 99;
    let mut same_side = resting_no_ask(4000, 50);
    same_side.is_yes = true;
    let mut candidates = vec![foreign, same_side];
    let r = try_match_against_orderbook(&book, &mut candidates, None, true, true, 4000, 30);
    assert_eq!(r.filled_amount, 0);
    assert_eq!(r.remaining_amount, 30);
}

#[test]
fn placed_order_rests_until_cancelled() {
    let market = fresh_market();
    let mut book = create_orderbook(MARKET_ID);
    let mut candidates: Vec<LimitOrder> = Vec::new();
    let order = place_order(
        &market, &mut book, &mut candidates, TAKER, 77, MARKET_ID, None, 4000, 10, true, true,
        500, None,
    )
    .unwrap();
    assert_eq!(order.filled_qty, 0);
    assert_eq!(book.yes_buy_orders, vec![77]);
    cancel_order(&mut book, &order, 77).unwrap();
    assert!(book.yes_buy_orders.is_empty());
    assert_eq!(
        cancel_order(&mut book, &order, 77).unwrap_err(),
        LikeliError::OrderNotFound
    );
}

#[test]
fn cancel_on_fully_filled_order_reports_not_found() {
    // the order matches completely at placement, so it never rests in
    // the book, and cancelling it reports "not found" — never a
    // successful cancel
    let market = fresh_market();
    let mut book = create_orderbook(MARKET_ID);
    let mut candidates = vec![resting_no_ask(4000, 50)];
    let order = place_order(
        &market, &mut book, &mut candidates, TAKER, 77, MARKET_ID, None, 4000, 30, true, true,
        500, None,
    )
    .unwrap();
    assert_eq!(order.filled_qty, 30);
    assert_eq!(order.qty, 30);
    assert!(book.yes_buy_orders.is_empty());
    assert_eq!(
        cancel_order(&mut book, &order, 77).unwrap_err(),
        LikeliError::OrderNotFound
    );
}

#[test]
fn place_order_validates_shape() {
    let market = fresh_market();
    let mut book = create_orderbook(MARKET_ID);
    let mut candidates: Vec<LimitOrder> = Vec::new();
    let r = place_order(
        &market, &mut book, &mut candidates, TAKER, 1, MARKET_ID, None, 4000, 0, true, true, 500,
        None,
    );
    assert_eq!(r.unwrap_err(), LikeliError::InvalidAmount);
    let r = place_order(
        &market, &mut book, &mut candidates, TAKER, 1, MARKET_ID, None, 0, 10, true, true, 500,
        None,
    );
    assert_eq!(r.unwrap_err(), LikeliError::InvalidPrice);
    let r = place_order(
        &market, &mut book, &mut candidates, TAKER, 1, MARKET_ID, None, 10000, 10, true, true,
        500, None,
    );
    assert_eq!(r.unwrap_err(), LikeliError::InvalidPrice);
}

#[test]
fn order_expiry_is_stored_relative_to_now() {
    let market = fresh_market();
    let mut book = create_orderbook(MARKET_ID);
    let mut candidates: Vec<LimitOrder> = Vec::new();
    let order = place_order(
        &market, &mut book, &mut candidates, TAKER, 1, MARKET_ID, None, 4000, 10, true, true,
        500, Some(60),
    )
    .unwrap();
    assert_eq!(order.created_at, 500);
    assert_eq!(order.expires_at, Some(560));
}

#[test]
fn orderbook_side_is_capacity_bounded_at_100() {
    let market = fresh_market();
    let mut book = create_orderbook(MARKET_ID);
    let mut candidates: Vec<LimitOrder> = Vec::new();
    for i in 0..100u64 {
        place_order(
            &market, &mut book, &mut candidates, TAKER, i, MARKET_ID, None, 4000, 10, true, true,
            500, None,
        )
        .unwrap();
    }
    assert_eq!(book.yes_buy_orders.len(), 100);
    let r = place_order(
        &market, &mut book, &mut candidates, TAKER, 100, MARKET_ID, None, 4000, 10, true, true,
        500, None,
    );
    assert_eq!(r.unwrap_err(), LikeliError::OrderbookFull);
    // a different side still has room
    let r = place_order(
        &market, &mut book, &mut candidates, TAKER, 100, MARKET_ID, None, 4000, 10, false, true,
        500, None,
    );
    assert!(r.is_ok());
    assert_eq!(book.no_buy_orders, vec![100]);
}

#[test]
fn remove_order_reports_presence() {
    let mut book = create_orderbook(MARKET_ID);
    book.no_sell_orders.push(8);
    book.no_sell_orders.push(9);
    assert!(remove_order_from_book(&mut book, 9, false, false));
    assert_eq!(book.no_sell_orders, vec![8]);
    assert!(!remove_order_from_book(&mut book, 9, false, false));
    // the same identifier under another side is untouched
    assert!(!remove_order_from_book(&mut book, 8, true, false));
    assert_eq!(book.no_sell_orders, vec![8]);
}

#[test]
fn place_multi_order_checks_the_answer_index() {
    let market = likeli::multi::create_multi_market([0u8; 32], 3, false, 1000, 0, 1000, MAKER, 100)
        .unwrap();
    let mut book = create_orderbook(MARKET_ID);
    let mut candidates: Vec<LimitOrder> = Vec::new();
    let r = likeli::orderbook::place_multi_order(
        &market, &mut book, &mut candidates, TAKER, 1, MARKET_ID, 3, 4000, 10, true, true, 500,
        None,
    );
    assert_eq!(r.unwrap_err(), LikeliError::InvalidAnswerIndex);
    let order = likeli::orderbook::place_multi_order(
        &market, &mut book, &mut candidates, TAKER, 1, MARKET_ID, 2, 4000, 10, true, true, 500,
        None,
    )
    .unwrap();
    assert_eq!(order.answer_index, Some(2));
    assert_eq!(book.yes_buy_orders, vec![1]);
}

#[test]
fn matching_separates_answer_slots() {
    // a binary request (no answer index) never consumes a multi-answer
    // resting order, and vice versa
    let book = create_orderbook(MARKET_ID);
    let mut order = resting_no_ask(4000, 50);
    order.answer_index = Some(1);
    let mut candidates = vec![order];
    let r = find_matching_orders(&book, &mut candidates, None, true, true, 4000, 30);
    assert_eq!(r.filled_amount, 0);
    let r = find_matching_orders(&book, &mut candidates, Some(1), true, true, 4000, 30);
    assert_eq!(r.filled_amount, 30);
}

#[test]
fn cancel_on_order_filled_while_resting_reports_not_found() {
    // the order rests, then matching fills it completely; it is inert
    // from then on, so cancelling reports "not found" and only drops
    // the stale book entry
    let market = fresh_market();
    let mut book = create_orderbook(MARKET_ID);
    let mut candidates: Vec<LimitOrder> = Vec::new();
    let order = place_order(
        &market, &mut book, &mut candidates, TAKER, 77, MARKET_ID, None, 4000, 10, true, true,
        500, None,
    )
    .unwrap();
    assert_eq!(book.yes_buy_orders, vec![77]);
    let mut candidates = vec![order];
    let r = find_matching_orders(&book, &mut candidates, None, false, false, 4000, 10);
    assert_eq!(r.filled_amount, 10);
    let filled = candidates[0];
    assert_eq!(filled.filled_qty, filled.qty);
    // the id is still listed, but the fully filled order cannot be
    // cancelled; the stale entry is gone afterwards
    assert_eq!(
        cancel_order(&mut book, &filled, 77).unwrap_err(),
        LikeliError::OrderNotFound
    );
    assert!(book.yes_buy_orders.is_empty());
    assert_eq!(
        cancel_order(&mut book, &filled, 77).unwrap_err(),
        LikeliError::OrderNotFound
    );
}
