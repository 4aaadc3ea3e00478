//! Pool pricing: the two balances `yes_pool` / `no_pool` jointly price
//! trades.  The implied probability of YES, in basis points, is
//! `no_pool * 10000 / (yes_pool + no_pool)`; buys add the traded amount
//! to the opposite pool, sells drain the opposite pool by the payout.

use vstd::prelude::*;

verus! {

/// Cost of one YES share in basis points: `no_pool * 10000 / total`.
pub open spec fn yes_price_of(yes_pool: u64, no_pool: u64) -> int {
    no_pool as int * 10000 / (yes_pool as int + no_pool as int)
}

/// Cost of one NO share in basis points: `yes_pool * 10000 / total`.
pub open spec fn no_price_of(yes_pool: u64, no_pool: u64) -> int {
    yes_pool as int * 10000 / (yes_pool as int + no_pool as int)
}

/// The price used to quote a trade on side `is_yes`.
pub open spec fn side_price_of(yes_pool: u64, no_pool: u64, is_yes: bool) -> int {
    if is_yes {
        yes_price_of(yes_pool, no_pool)
    } else {
        no_price_of(yes_pool, no_pool)
    }
}

/// Shares bought for a net amount `a`: `a + a * same / max(opposite + a, 1)`,
/// where `same` is the pool of the purchased side.  The result is reduced
/// to 64 bits by the executable code.
pub open spec fn shares_out_of(yes_pool: u64, no_pool: u64, amount: u64, is_yes: bool) -> int {
    let y = yes_pool as int;
    let n = no_pool as int;
    let a = amount as int;
    if is_yes {
        a + a * y / (if n + a > 0 { n + a } else { 1 })
    } else {
        a + a * n / (if y + a > 0 { y + a } else { 1 })
    }
}

/// Collateral paid out for selling `shares` on a side:
/// `shares * opposite / (same + shares)`.
pub open spec fn sell_payout_of(same_pool: u64, opposite_pool: u64, shares: u64) -> int {
    shares as int * opposite_pool as int / (same_pool as int + shares as int)
}

/// Quotes the current price of one side of a pool, in basis points.
pub fn current_price(yes_pool: u64, no_pool: u64, is_yes: bool) -> (r: u64)
    requires
        yes_pool as int + no_pool as int > 0,
    ensures
        r == side_price_of(yes_pool, no_pool, is_yes),
        r <= 10000,
{
    let total: u128 = yes_pool as u128 + no_pool as u128;
    let numerator: u128 = if is_yes { no_pool as u128 } else { yes_pool as u128 };
    proof {
        assert(numerator as int * 10000 <= total as int * 10000) by (nonlinear_arith)
            requires
                0 <= numerator as int <= total as int;
        assert(total as int * 10000 / total as int == 10000) by (nonlinear_arith)
            requires
                total as int > 0;
        assert(numerator as int * 10000 / total as int <= total as int * 10000 / total as int)
            by (nonlinear_arith)
            requires
                total as int > 0,
                numerator as int * 10000 <= total as int * 10000,
                numerator >= 0;
    }
    let price: u128 = numerator * 10000 / total;
    price as u64
}

/// Computes the shares bought for a net amount, per `shares_out_of`.
///
/// All intermediates are 128-bit; the final narrowing truncates, which
/// can only matter when the purchased side's pool dwarfs the other.
pub fn calculate_shares_out(yes_pool: u64, no_pool: u64, amount: u64, is_yes: bool) -> (r: u64)
    ensures
        r == shares_out_of(yes_pool, no_pool, amount, is_yes) as u64,
{
    let y = yes_pool as u128;
    let n = no_pool as u128;
    let a = amount as u128;
    let same: u128 = if is_yes { y } else { n };
    let opposite: u128 = if is_yes { n } else { y };
    let denominator: u128 = if opposite + a > 0 { opposite + a } else { 1 };
    proof {
        assert(a as int * same as int <= u64::MAX as int * u64::MAX as int) by (nonlinear_arith)
            requires
                0 <= a as int <= u64::MAX as int,
                0 <= same as int <= u64::MAX as int;
        assert(a as int * same as int / denominator as int <= a as int * same as int)
            by (nonlinear_arith)
            requires
                denominator as int >= 1,
                a as int * same as int >= 0;
    }
    let shares: u128 = a + a * same / denominator;
    let r = #[verifier::truncate] (shares as u64);
    r
}

/// Computes the payout for selling `shares` against a pool, per
/// `sell_payout_of`.  The payout never exceeds the opposite pool, and
/// is strictly below it while the sold side's pool is nonempty.
pub fn pool_sell_payout(same_pool: u64, opposite_pool: u64, shares: u64) -> (r: u64)
    requires
        shares > 0,
    ensures
        r == sell_payout_of(same_pool, opposite_pool, shares),
        r <= opposite_pool,
        same_pool >= 1 && opposite_pool >= 1 ==> r < opposite_pool,
{
    let s = shares as u128;
    let opp = opposite_pool as u128;
    let denominator: u128 = same_pool as u128 + s;
    proof {
        assert(s as int * opp as int <= u64::MAX as int * u64::MAX as int) by (nonlinear_arith)
            requires
                0 <= s as int <= u64::MAX as int,
                0 <= opp as int <= u64::MAX as int;
        assert(s as int * opp as int / denominator as int <= opp as int) by (nonlinear_arith)
            requires
                denominator as int >= s as int,
                s as int >= 1,
                opp as int >= 0;
        assert(same_pool >= 1 && opp >= 1 ==> (s as int * opp as int / denominator as int) < opp as int)
            by (nonlinear_arith)
            requires
                denominator as int == same_pool as int + s as int,
                s as int >= 1,
                opp as int >= 0;
    }
    let payout: u128 = s * opp / denominator;
    payout as u64
}

/// The two displayed prices of a pool always partition the whole 10000
/// basis points: the NO side is quoted as the complement of the YES side.
pub proof fn lemma_price_complement(yes_pool: u64, no_pool: u64)
    requires
        yes_pool as int + no_pool as int > 0,
    ensures
        0 <= yes_price_of(yes_pool, no_pool) <= 10000,
        yes_price_of(yes_pool, no_pool) + (10000 - yes_price_of(yes_pool, no_pool)) == 10000,
{
    let n = no_pool as int;
    let t = yes_pool as int + no_pool as int;
    assert(0 <= n * 10000 / t <= 10000) by (nonlinear_arith)
        requires
            t > 0,
            0 <= n <= t;
}

/// The two floored side prices sum to exactly 10000 whenever the YES
/// price divides out evenly, and never miss it by more than one basis
/// point otherwise.
pub proof fn lemma_price_sum(yes_pool: u64, no_pool: u64)
    requires
        yes_pool as int + no_pool as int > 0,
    ensures
        9999 <= yes_price_of(yes_pool, no_pool) + no_price_of(yes_pool, no_pool) <= 10000,
        (no_pool as int * 10000) % (yes_pool as int + no_pool as int) == 0
            ==> yes_price_of(yes_pool, no_pool) + no_price_of(yes_pool, no_pool) == 10000,
{
    let y = yes_pool as int;
    let n = no_pool as int;
    let t = y + n;
    let q1 = n * 10000 / t;
    let r1 = n * 10000 % t;
    let q2 = y * 10000 / t;
    let r2 = y * 10000 % t;
    vstd::arithmetic::div_mod::lemma_fundamental_div_mod(n * 10000, t);
    vstd::arithmetic::div_mod::lemma_fundamental_div_mod(y * 10000, t);
    assert(9999 <= q1 + q2 <= 10000 && (r1 == 0 ==> q1 + q2 == 10000)) by (nonlinear_arith)
        requires
            t > 0,
            t == y + n,
            y >= 0,
            n >= 0,
            n * 10000 == t * q1 + r1,
            0 <= r1 < t,
            y * 10000 == t * q2 + r2,
            0 <= r2 < t;
}

} // verus!
