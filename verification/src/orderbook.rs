//! The price-time limit orderbook and the matching engine.
//!
//! The book itself stores only insertion-ordered identifiers, one
//! sequence per (side, direction).  Matching walks a caller-supplied
//! list of candidate resting orders and greedily fills every candidate
//! that is same-market, same-answer, opposite-side and price-compatible;
//! priority is entirely the order in which the caller presents the
//! candidates, never price-optimality across the set.

use vstd::prelude::*;

verus! {

/// A resting limit order.  `answer_index` is `None` for binary markets.
/// Mutated only by matching until `filled_qty == qty`, then inert.
#[derive(Clone, Copy, Debug, PartialEq, Eq, Structural)]
pub struct LimitOrder {
    pub owner: u64,
    pub market: u64,
    pub answer_index: Option<u8>,
    pub price: u64,
    pub qty: u64,
    pub filled_qty: u64,
    pub is_yes: bool,
    pub is_bid: bool,
    pub created_at: i64,
    pub expires_at: Option<i64>,
}

/// One orderbook per market: four insertion-ordered identifier lists,
/// each capacity-bounded at 100 entries.
#[derive(Debug)]
pub struct Orderbook {
    pub market: u64,
    pub yes_buy_orders: Vec<u64>,
    pub yes_sell_orders: Vec<u64>,
    pub no_buy_orders: Vec<u64>,
    pub no_sell_orders: Vec<u64>,
}

/// Initializes an empty orderbook for a market.
pub fn create_orderbook(market: u64) -> (book: Orderbook)
    ensures
        book.market == market,
        book.yes_buy_orders@ =~= Seq::<u64>::empty(),
        book.yes_sell_orders@ =~= Seq::<u64>::empty(),
        book.no_buy_orders@ =~= Seq::<u64>::empty(),
        book.no_sell_orders@ =~= Seq::<u64>::empty(),
{
    Orderbook {
        market,
        yes_buy_orders: Vec::new(),
        yes_sell_orders: Vec::new(),
        no_buy_orders: Vec::new(),
        no_sell_orders: Vec::new(),
    }
}

/// The identifier list a (side, direction) pair rests in.
pub open spec fn book_side(book: Orderbook, is_yes: bool, is_bid: bool) -> Seq<u64> {
    if is_yes {
        if is_bid {
            book.yes_buy_orders@
        } else {
            book.yes_sell_orders@
        }
    } else {
        if is_bid {
            book.no_buy_orders@
        } else {
            book.no_sell_orders@
        }
    }
}

/// Outcome of a matching pass.
#[derive(Clone, Copy, Debug, PartialEq, Eq, Structural)]
pub struct MatchResult {
    pub filled_amount: u64,
    pub remaining_amount: u64,
    pub matched_price: u64,
}

/// Whether a resting order can fill a request: same market, same answer
/// slot, opposite on both the YES/NO and bid/ask axes, not yet fully
/// filled, and price-compatible with the request's limit.
pub open spec fn order_matches(
    o: LimitOrder,
    book_market: u64,
    answer_index: Option<u8>,
    is_yes: bool,
    is_buy: bool,
    limit_price: u64,
) -> bool {
    &&& o.market == book_market
    &&& o.answer_index == answer_index
    &&& o.is_yes != is_yes
    &&& o.is_bid != is_buy
    &&& o.filled_qty < o.qty
    &&& if is_buy {
        o.price <= limit_price
    } else {
        o.price >= limit_price
    }
}

/// Quantity taken from a single compatible order.
pub open spec fn fill_of(o: LimitOrder, remaining: u64) -> u64 {
    if remaining as int <= o.qty - o.filled_qty {
        remaining
    } else {
        (o.qty - o.filled_qty) as u64
    }
}

/// The order after `fill` units are taken from it.
pub open spec fn filled_order(o: LimitOrder, fill: u64) -> LimitOrder {
    LimitOrder { filled_qty: (o.filled_qty + fill) as u64, ..o }
}

/// The matching pass over a candidate list: returns the candidates after
/// filling and the quantity still unmatched.  Candidates are consumed
/// strictly in presentation order.
pub open spec fn match_orders_rec(
    orders: Seq<LimitOrder>,
    book_market: u64,
    answer_index: Option<u8>,
    is_yes: bool,
    is_buy: bool,
    limit_price: u64,
    remaining: u64,
) -> (Seq<LimitOrder>, u64)
    decreases orders.len(),
{
    if orders.len() == 0 {
        (orders, remaining)
    } else {
        let o = orders[0];
        if remaining > 0 && order_matches(o, book_market, answer_index, is_yes, is_buy,
            limit_price) {
            let f = fill_of(o, remaining);
            let rest = match_orders_rec(orders.drop_first(), book_market, answer_index, is_yes,
                is_buy, limit_price, (remaining - f) as u64);
            (seq![filled_order(o, f)] + rest.0, rest.1)
        } else {
            let rest = match_orders_rec(orders.drop_first(), book_market, answer_index, is_yes,
                is_buy, limit_price, remaining);
            (seq![o] + rest.0, rest.1)
        }
    }
}

/// The quantity left unmatched after a pass, starting from `amount`.
pub open spec fn match_remaining(
    orders: Seq<LimitOrder>,
    book_market: u64,
    answer_index: Option<u8>,
    is_yes: bool,
    is_buy: bool,
    limit_price: u64,
    amount: u64,
) -> u64 {
    match_orders_rec(orders, book_market, answer_index, is_yes, is_buy, limit_price, amount).1
}

/// Read-only matching pass: how much of `amount` the candidates would
/// absorb, without committing any fill.
pub(crate) fn compute_match(
    orders: &Vec<LimitOrder>,
    book_market: u64,
    answer_index: Option<u8>,
    is_yes: bool,
    is_buy: bool,
    limit_price: u64,
    amount: u64,
) -> (rem: u64)
    ensures
        rem == match_remaining(orders@, book_market, answer_index, is_yes, is_buy, limit_price,
            amount),
        rem <= amount,
{
    let mut remaining: u64 = amount;
    let mut i: usize = 0;
    let n: usize = orders.len();
    proof {
        assert(orders@.skip(0) =~= orders@);
    }
    while i < n
        invariant
            0 <= i <= n,
            n == orders.len(),
            remaining <= amount,
            match_orders_rec(orders@, book_market, answer_index, is_yes, is_buy, limit_price,
                amount).1 == match_orders_rec(orders@.skip(i as int), book_market, answer_index,
                is_yes, is_buy, limit_price, remaining).1,
        decreases n - i,
    {
        let o = orders[i];
        proof {
            assert(orders@.skip(i as int)[0] == orders@[i as int]);
            assert(orders@.skip(i as int).drop_first() =~= orders@.skip(i as int + 1));
        }
        if remaining > 0 && o.market == book_market && o.answer_index == answer_index
            && o.is_yes != is_yes && o.is_bid != is_buy && o.filled_qty < o.qty
            && (if is_buy { o.price <= limit_price } else { o.price >= limit_price }) {
            let available: u64 = o.qty - o.filled_qty;
            let to_fill: u64 = if remaining < available { remaining } else { available };
            remaining = remaining - to_fill;
        }
        i = i + 1;
    }
    remaining
}

/// Commits a matching pass: fills each compatible candidate in
/// presentation order, bumping its `filled_qty`, and reports the filled
/// and unmatched quantities at the given limit price.
pub fn find_matching_orders(
    book: &Orderbook,
    orders: &mut Vec<LimitOrder>,
    answer_index: Option<u8>,
    is_yes: bool,
    is_buy: bool,
    limit_price: u64,
    amount: u64,
) -> (r: MatchResult)
    ensures
        final(orders)@ == match_orders_rec(old(orders)@, book.market, answer_index, is_yes,
            is_buy, limit_price, amount).0,
        r.remaining_amount == match_remaining(old(orders)@, book.market, answer_index, is_yes,
            is_buy, limit_price, amount),
        r.filled_amount + r.remaining_amount == amount,
        r.matched_price == limit_price,
{
    let book_market: u64 = book.market;
    let ghost orig = orders@;
    let mut remaining: u64 = amount;
    let mut filled: u64 = 0;
    let mut i: usize = 0;
    let n: usize = orders.len();
    proof {
        assert(orig.skip(0) =~= orig);
        assert(orders@.take(0) + match_orders_rec(orig, book_market, answer_index, is_yes,
            is_buy, limit_price, amount).0 =~= match_orders_rec(orig, book_market, answer_index,
            is_yes, is_buy, limit_price, amount).0);
    }
    while i < n
        invariant
            0 <= i <= n,
            n == orders.len(),
            orders@.len() == orig.len(),
            filled + remaining == amount,
            orders@.skip(i as int) =~= orig.skip(i as int),
            match_orders_rec(orig, book_market, answer_index, is_yes, is_buy, limit_price,
                amount).0 == orders@.take(i as int) + match_orders_rec(orig.skip(i as int),
                book_market, answer_index, is_yes, is_buy, limit_price, remaining).0,
            match_orders_rec(orig, book_market, answer_index, is_yes, is_buy, limit_price,
                amount).1 == match_orders_rec(orig.skip(i as int), book_market, answer_index,
                is_yes, is_buy, limit_price, remaining).1,
        decreases n - i,
    {
        let o = orders[i];
        proof {
            assert(orig.skip(i as int)[0] == orig[i as int]);
            assert(orig.skip(i as int).drop_first() =~= orig.skip(i as int + 1));
        }
        if remaining > 0 && o.market == book_market && o.answer_index == answer_index
            && o.is_yes != is_yes && o.is_bid != is_buy && o.filled_qty < o.qty
            && (if is_buy { o.price <= limit_price } else { o.price >= limit_price }) {
            let available: u64 = o.qty - o.filled_qty;
            let to_fill: u64 = if remaining < available { remaining } else { available };
            let updated = LimitOrder { filled_qty: o.filled_qty + to_fill, ..o };
            let ghost pre = orders@;
            let ghost rest = match_orders_rec(orig.skip(i as int + 1), book_market, answer_index,
                is_yes, is_buy, limit_price, (remaining - to_fill) as u64);
            orders.set(i, updated);
            proof {
                assert(updated == filled_order(o, to_fill));
                assert(orders@.take(i as int) =~= pre.take(i as int));
                assert(orders@.skip(i as int + 1) =~= pre.skip(i as int + 1));
                assert(orders@.take(i as int + 1) =~= pre.take(i as int) + seq![updated]);
                assert((pre.take(i as int) + seq![updated]) + rest.0 =~= pre.take(i as int) + (
                seq![updated] + rest.0));
            }
            filled = filled + to_fill;
            remaining = remaining - to_fill;
        } else {
            let ghost rest = match_orders_rec(orig.skip(i as int + 1), book_market, answer_index,
                is_yes, is_buy, limit_price, remaining);
            proof {
                assert(orders@.take(i as int + 1) =~= orders@.take(i as int) + seq![o]);
                assert((orders@.take(i as int) + seq![o]) + rest.0 =~= orders@.take(i as int) + (
                seq![o] + rest.0));
            }
        }
        i = i + 1;
    }
    proof {
        assert(orders@.take(n as int) =~= orders@);
        assert(orig.skip(n as int) =~= Seq::<LimitOrder>::empty());
    }
    MatchResult { filled_amount: filled, remaining_amount: remaining, matched_price: limit_price }
}

/// Matches a trade request against the caller-supplied resting orders
/// at the pool's quoted price, committing the fills.  The matched
/// price is always the quoted price passed in.
pub fn try_match_against_orderbook(
    book: &Orderbook,
    orders: &mut Vec<LimitOrder>,
    answer_index: Option<u8>,
    is_yes: bool,
    is_buy: bool,
    cpmm_price: u64,
    amount: u64,
) -> (r: MatchResult)
    ensures
        final(orders)@ == match_orders_rec(old(orders)@, book.market, answer_index, is_yes,
            is_buy, cpmm_price, amount).0,
        r.remaining_amount == match_remaining(old(orders)@, book.market, answer_index, is_yes,
            is_buy, cpmm_price, amount),
        r.filled_amount + r.remaining_amount == amount,
        r.matched_price == cpmm_price,
{
    find_matching_orders(book, orders, answer_index, is_yes, is_buy, cpmm_price, amount)
}

/// Length of the list a (side, direction) pair rests in.
fn side_len(book: &Orderbook, is_yes: bool, is_bid: bool) -> (n: usize)
    ensures
        n == book_side(*book, is_yes, is_bid).len(),
{
    if is_yes {
        if is_bid {
            book.yes_buy_orders.len()
        } else {
            book.yes_sell_orders.len()
        }
    } else {
        if is_bid {
            book.no_buy_orders.len()
        } else {
            book.no_sell_orders.len()
        }
    }
}

/// Appends an order's identifier to the list for its (side, direction).
fn push_side(book: &mut Orderbook, is_yes: bool, is_bid: bool, order_id: u64)
    ensures
        book_side(*final(book), is_yes, is_bid) == book_side(*old(book), is_yes, is_bid).push(
            order_id,
        ),
        final(book).market == old(book).market,
        forall|y: bool, b: bool|
            y != is_yes || b != is_bid ==> book_side(*final(book), y, b) == book_side(
                *old(book),
                y,
                b,
            ),
{
    if is_yes {
        if is_bid {
            book.yes_buy_orders.push(order_id);
        } else {
            book.yes_sell_orders.push(order_id);
        }
    } else {
        if is_bid {
            book.no_buy_orders.push(order_id);
        } else {
            book.no_sell_orders.push(order_id);
        }
    }
}

/// The complete effect of placing a limit order: after validation the
/// request is matched against the caller-supplied resting orders, and
/// whatever quantity is left rests in the book — unless the side
/// already holds 100 orders.  Returns the created order and whether it
/// rested.
pub open spec fn place_order_spec(
    resolved: bool,
    book: Orderbook,
    orders: Seq<LimitOrder>,
    owner: u64,
    market_id: u64,
    answer_index: Option<u8>,
    price: u64,
    qty: u64,
    is_yes: bool,
    is_bid: bool,
    now: i64,
    expires_in: Option<i64>,
) -> Result<(LimitOrder, bool), crate::errors::LikeliError> {
    if resolved {
        Err(crate::errors::LikeliError::MarketResolved)
    } else if qty == 0 {
        Err(crate::errors::LikeliError::InvalidAmount)
    } else if !(price > 0 && price < 10000) {
        Err(crate::errors::LikeliError::InvalidPrice)
    } else {
        let rem = match_remaining(orders, book.market, answer_index, is_yes, is_bid, price, qty);
        let filled = (qty - rem) as u64;
        if expires_in is Some && !(i64::MIN <= now + expires_in->0 <= i64::MAX) {
            Err(crate::errors::LikeliError::ArithmeticOverflow)
        } else {
            let order = LimitOrder {
                owner,
                market: market_id,
                answer_index,
                price,
                qty,
                filled_qty: filled,
                is_yes,
                is_bid,
                created_at: now,
                expires_at: match expires_in {
                    Option::None => None,
                    Option::Some(ei) => Some((now + ei) as i64),
                },
            };
            let rested = filled < qty;
            if rested && book_side(book, is_yes, is_bid).len() >= 100 {
                Err(crate::errors::LikeliError::OrderbookFull)
            } else {
                Ok((order, rested))
            }
        }
    }
}

/// Places a limit order on a binary market: the request matches first
/// against the caller-supplied resting orders, then the unmatched
/// quantity rests in the book under `order_id`.  A fully filled order
/// never rests, so a later cancel reports it "not found".  The host
/// persists the returned order record.
pub fn place_order(
    market: &crate::market::Market,
    book: &mut Orderbook,
    candidates: &mut Vec<LimitOrder>,
    owner: u64,
    order_id: u64,
    market_id: u64,
    answer_index: Option<u8>,
    price: u64,
    qty: u64,
    is_yes: bool,
    is_bid: bool,
    now: i64,
    expires_in: Option<i64>,
) -> (r: Result<LimitOrder, crate::errors::LikeliError>)
    ensures
        ({
            let s = place_order_spec(market.resolved, *old(book), old(candidates)@, owner,
                market_id, answer_index, price, qty, is_yes, is_bid, now, expires_in);
            match r {
                Ok(order) => s is Ok && order == s->Ok_0.0 && final(candidates)@
                    == match_orders_rec(old(candidates)@, old(book).market, answer_index, is_yes,
                    is_bid, price, qty).0 && (s->Ok_0.1 ==> book_side(*final(book), is_yes,
                    is_bid) == book_side(*old(book), is_yes, is_bid).push(order_id)) && (!s->Ok_0.1
                    ==> book_side(*final(book), is_yes, is_bid) == book_side(*old(book), is_yes,
                    is_bid)),
                Err(e) => s is Err && e == s->Err_0 && final(candidates)@ == old(candidates)@
                    && book_side(*final(book), is_yes, is_bid) == book_side(*old(book), is_yes,
                    is_bid),
            }
        }),
        final(book).market == old(book).market,
        forall|y: bool, b: bool|
            y != is_yes || b != is_bid ==> book_side(*final(book), y, b) == book_side(
                *old(book),
                y,
                b,
            ),
{
    if market.resolved {
        return Err(crate::errors::LikeliError::MarketResolved);
    }
    if qty == 0 {
        return Err(crate::errors::LikeliError::InvalidAmount);
    }
    if !(price > 0 && price < 10000) {
        return Err(crate::errors::LikeliError::InvalidPrice);
    }
    let rem = compute_match(candidates, book.market, answer_index, is_yes, is_bid, price, qty);
    let filled = qty - rem;
    let expires_at: Option<i64> = match expires_in {
        Option::None => None,
        Option::Some(ei) => {
            let wide: i128 = now as i128 + ei as i128;
            if wide > i64::MAX as i128 || wide < i64::MIN as i128 {
                return Err(crate::errors::LikeliError::ArithmeticOverflow);
            }
            Some(wide as i64)
        },
    };
    let rested = filled < qty;
    if rested {
        let n = side_len(book, is_yes, is_bid);
        if n >= 100 {
            return Err(crate::errors::LikeliError::OrderbookFull);
        }
    }
    let _ = find_matching_orders(book, candidates, answer_index, is_yes, is_bid, price, qty);
    let order = LimitOrder {
        owner,
        market: market_id,
        answer_index,
        price,
        qty,
        filled_qty: filled,
        is_yes,
        is_bid,
        created_at: now,
        expires_at,
    };
    if rested {
        push_side(book, is_yes, is_bid, order_id);
    }
    Ok(order)
}

/// Places a limit order on one answer of a multi-outcome market; the
/// answer index must address one of the market's answers, and the rest
/// behaves exactly as the binary `place_order`.
pub fn place_multi_order(
    market: &crate::multi::MultiMarket,
    book: &mut Orderbook,
    candidates: &mut Vec<LimitOrder>,
    owner: u64,
    order_id: u64,
    market_id: u64,
    answer_index: u8,
    price: u64,
    qty: u64,
    is_yes: bool,
    is_bid: bool,
    now: i64,
    expires_in: Option<i64>,
) -> (r: Result<LimitOrder, crate::errors::LikeliError>)
    ensures
        !market.resolved && qty != 0 && price > 0 && price < 10000 && answer_index
            >= market.answer_count ==> r == Err::<LimitOrder, crate::errors::LikeliError>(
            crate::errors::LikeliError::InvalidAnswerIndex,
        ) && final(candidates)@ == old(candidates)@ && book_side(*final(book), is_yes, is_bid)
            == book_side(*old(book), is_yes, is_bid),
        market.resolved || qty == 0 || !(price > 0 && price < 10000) || answer_index
            < market.answer_count ==> ({
            let s = place_order_spec(market.resolved, *old(book), old(candidates)@, owner,
                market_id, Some(answer_index), price, qty, is_yes, is_bid, now, expires_in);
            match r {
                Ok(order) => s is Ok && order == s->Ok_0.0 && final(candidates)@
                    == match_orders_rec(old(candidates)@, old(book).market, Some(answer_index),
                    is_yes, is_bid, price, qty).0 && (s->Ok_0.1 ==> book_side(*final(book),
                    is_yes, is_bid) == book_side(*old(book), is_yes, is_bid).push(order_id)) && (
                !s->Ok_0.1 ==> book_side(*final(book), is_yes, is_bid) == book_side(*old(book),
                    is_yes, is_bid)),
                Err(e) => s is Err && e == s->Err_0 && final(candidates)@ == old(candidates)@
                    && book_side(*final(book), is_yes, is_bid) == book_side(*old(book), is_yes,
                    is_bid),
            }
        }),
        final(book).market == old(book).market,
        forall|y: bool, b: bool|
            y != is_yes || b != is_bid ==> book_side(*final(book), y, b) == book_side(
                *old(book),
                y,
                b,
            ),
{
    if market.resolved {
        return Err(crate::errors::LikeliError::MarketResolved);
    }
    if qty == 0 {
        return Err(crate::errors::LikeliError::InvalidAmount);
    }
    if !(price > 0 && price < 10000) {
        return Err(crate::errors::LikeliError::InvalidPrice);
    }
    if answer_index >= market.answer_count {
        return Err(crate::errors::LikeliError::InvalidAnswerIndex);
    }
    let rem = compute_match(candidates, book.market, Some(answer_index), is_yes, is_bid, price,
        qty);
    let filled = qty - rem;
    let expires_at: Option<i64> = match expires_in {
        Option::None => None,
        Option::Some(ei) => {
            let wide: i128 = now as i128 + ei as i128;
            if wide > i64::MAX as i128 || wide < i64::MIN as i128 {
                return Err(crate::errors::LikeliError::ArithmeticOverflow);
            }
            Some(wide as i64)
        },
    };
    let rested = filled < qty;
    if rested {
        let n = side_len(book, is_yes, is_bid);
        if n >= 100 {
            return Err(crate::errors::LikeliError::OrderbookFull);
        }
    }
    let _ = find_matching_orders(book, candidates, Some(answer_index), is_yes, is_bid, price,
        qty);
    let order = LimitOrder {
        owner,
        market: market_id,
        answer_index: Some(answer_index),
        price,
        qty,
        filled_qty: filled,
        is_yes,
        is_bid,
        created_at: now,
        expires_at,
    };
    if rested {
        push_side(book, is_yes, is_bid, order_id);
    }
    Ok(order)
}

/// Removes the first occurrence of `order_id` from `list`, reporting
/// whether it was present.
fn remove_first(list: &mut Vec<u64>, order_id: u64) -> (removed: bool)
    ensures
        removed == old(list)@.contains(order_id),
        removed ==> exists|j: int|
            0 <= j < old(list)@.len() && old(list)@[j] == order_id && (forall|k: int|
                0 <= k < j ==> old(list)@[k] != order_id) && final(list)@ == old(list)@.remove(j),
        !removed ==> final(list)@ == old(list)@,
{
    let ghost l0 = list@;
    let mut i: usize = 0;
    let n: usize = list.len();
    while i < n
        invariant
            0 <= i <= n,
            n == l0.len(),
            list@ == l0,
            old(list)@ == l0,
            forall|k: int| 0 <= k < i ==> l0[k] != order_id,
        decreases n - i,
    {
        if list[i] == order_id {
            proof {
                assert(l0[i as int] == order_id);
                assert(l0.contains(order_id));
            }
            list.remove(i);
            return true;
        }
        i = i + 1;
    }
    proof {
        assert(forall|k: int| 0 <= k < l0.len() ==> l0[k] != order_id);
        assert(!l0.contains(order_id));
    }
    false
}

/// Removes an order's identifier from the (side, direction) list it
/// rests in.  Returns `false` when the identifier is absent, which the
/// cancel operation reports as "not found".
#[verifier::spinoff_prover]
#[verifier::rlimit(40)]
pub fn remove_order_from_book(
    orderbook: &mut Orderbook,
    order_id: u64,
    is_yes: bool,
    is_bid: bool,
) -> (removed: bool)
    ensures
        removed == book_side(*old(orderbook), is_yes, is_bid).contains(order_id),
        removed ==> exists|j: int|
            0 <= j < book_side(*old(orderbook), is_yes, is_bid).len() && book_side(
                *old(orderbook),
                is_yes,
                is_bid,
            )[j] == order_id && (forall|k: int|
                0 <= k < j ==> book_side(*old(orderbook), is_yes, is_bid)[k] != order_id)
                && book_side(*final(orderbook), is_yes, is_bid) == book_side(
                *old(orderbook),
                is_yes,
                is_bid,
            ).remove(j),
        !removed ==> book_side(*final(orderbook), is_yes, is_bid) == book_side(
            *old(orderbook),
            is_yes,
            is_bid,
        ),
        final(orderbook).market == old(orderbook).market,
        forall|y: bool, b: bool|
            y != is_yes || b != is_bid ==> book_side(*final(orderbook), y, b) == book_side(
                *old(orderbook),
                y,
                b,
            ),
{
    if is_yes {
        if is_bid {
            remove_first(&mut orderbook.yes_buy_orders, order_id)
        } else {
            remove_first(&mut orderbook.yes_sell_orders, order_id)
        }
    } else {
        if is_bid {
            remove_first(&mut orderbook.no_buy_orders, order_id)
        } else {
            remove_first(&mut orderbook.no_sell_orders, order_id)
        }
    }
}

/// Cancels a resting order by identity: removes it from the book list
/// for its side.  A fully filled order is inert and counts as
/// destroyed, so cancelling it reports "not found", never "cancelled"
/// — and any stale book entry it left behind is dropped on the way.
/// An order that is absent — already cancelled, or fully filled at
/// placement and therefore never rested — reports "not found" too.
pub fn cancel_order(orderbook: &mut Orderbook, order: &LimitOrder, order_id: u64) -> (r: Result<
    (),
    crate::errors::LikeliError,
>)
    ensures
        r is Ok <==> order.filled_qty < order.qty && book_side(*old(orderbook), order.is_yes,
            order.is_bid).contains(order_id),
        r is Err ==> r == Err::<(), crate::errors::LikeliError>(
            crate::errors::LikeliError::OrderNotFound,
        ),
        book_side(*old(orderbook), order.is_yes, order.is_bid).contains(order_id) ==> exists|
            j: int,
        |
            0 <= j < book_side(*old(orderbook), order.is_yes, order.is_bid).len() && book_side(
                *old(orderbook),
                order.is_yes,
                order.is_bid,
            )[j] == order_id && (forall|k: int|
                0 <= k < j ==> book_side(*old(orderbook), order.is_yes, order.is_bid)[k]
                    != order_id) && book_side(*final(orderbook), order.is_yes, order.is_bid)
                == book_side(*old(orderbook), order.is_yes, order.is_bid).remove(j),
        !book_side(*old(orderbook), order.is_yes, order.is_bid).contains(order_id) ==> book_side(
            *final(orderbook),
            order.is_yes,
            order.is_bid,
        ) == book_side(*old(orderbook), order.is_yes, order.is_bid),
        final(orderbook).market == old(orderbook).market,
        forall|y: bool, b: bool|
            y != order.is_yes || b != order.is_bid ==> book_side(*final(orderbook), y, b)
                == book_side(*old(orderbook), y, b),
{
    let removed = remove_order_from_book(orderbook, order_id, order.is_yes, order.is_bid);
    if order.filled_qty >= order.qty {
        return Err(crate::errors::LikeliError::OrderNotFound);
    }
    if removed {
        Ok(())
    } else {
        Err(crate::errors::LikeliError::OrderNotFound)
    }
}

} // verus!
