//! The negative-risk rebalancer.  In a one-winner market every answer
//! shares one 100% probability budget: after a trade moves one answer's
//! implied probability to `p_new`, the caller-supplied siblings are
//! rescaled proportionally so that their probabilities sum to
//! `10000 - p_new`, each sibling keeping its total pool size.  Floor
//! division can leave the realized sum short of the target; a final
//! nudge of the last processed sibling's NO pool, scaled to pool units
//! and clamped within that sibling's own pool total, compensates when
//! the discrepancy is below 100 basis points; rebalancing redistributes
//! probability, never liquidity.

use vstd::prelude::*;
use crate::errors::LikeliError;
use crate::multi::Answer;

verus! {

/// A record the rebalancer looks at: same market, not the answer that
/// was just traded.  The host supplies only protocol-owned answer
/// records; anything else never reaches this module.
pub open spec fn is_candidate(a: Answer, current_index: u8, market_id: u64) -> bool {
    a.market == market_id && a.index != current_index
}

/// A candidate with liquidity: only these take part in rescaling.
pub open spec fn is_valid_sibling(a: Answer, current_index: u8, market_id: u64) -> bool {
    is_candidate(a, current_index, market_id) && a.yes_pool as int + a.no_pool as int > 0
}

/// An answer's implied YES probability in basis points.
pub open spec fn prob_of(a: Answer) -> int {
    a.no_pool as int * 10000 / (a.yes_pool as int + a.no_pool as int)
}

/// Sum of the valid siblings' implied probabilities.
pub open spec fn prob_sum(s: Seq<Answer>, current_index: u8, market_id: u64) -> int
    decreases s.len(),
{
    if s.len() == 0 {
        0
    } else {
        prob_sum(s.drop_last(), current_index, market_id) + if is_valid_sibling(s.last(),
            current_index, market_id) {
            prob_of(s.last())
        } else {
            0
        }
    }
}

/// How many valid siblings the list holds.
pub open spec fn sibling_count(s: Seq<Answer>, current_index: u8, market_id: u64) -> int
    decreases s.len(),
{
    if s.len() == 0 {
        0
    } else {
        sibling_count(s.drop_last(), current_index, market_id) + if is_valid_sibling(s.last(),
            current_index, market_id) {
            1int
        } else {
            0int
        }
    }
}

/// Index of the last valid sibling, or -1 when there is none.  The
/// rounding compensation lands on this one.
pub open spec fn last_valid_sibling(s: Seq<Answer>, current_index: u8, market_id: u64) -> int
    decreases s.len(),
{
    if s.len() == 0 {
        -1
    } else if is_valid_sibling(s.last(), current_index, market_id) {
        s.len() - 1
    } else {
        last_valid_sibling(s.drop_last(), current_index, market_id)
    }
}

/// One sibling after proportional rescaling: its probability moves to
/// `prob * target / d` (or to `target` outright when the old sum `d`
/// is zero), its total pool size is preserved, and the new NO pool is
/// the floor of `total * new_prob / 10000`.
pub open spec fn redistributed(a: Answer, target: int, d: int) -> Answer {
    let total = a.yes_pool as int + a.no_pool as int;
    let new_p = if d > 0 {
        prob_of(a) * target / d
    } else {
        target
    };
    let new_no = total * new_p / 10000;
    Answer { no_pool: new_no as u64, yes_pool: (total - new_no) as u64, ..a }
}

/// The whole list after rescaling: valid siblings rescaled, everything
/// else untouched.
pub open spec fn redistributed_seq(
    s: Seq<Answer>,
    current_index: u8,
    market_id: u64,
    target: int,
    d: int,
) -> Seq<Answer> {
    Seq::new(s.len(), |i: int|
        if is_valid_sibling(s[i], current_index, market_id) {
            redistributed(s[i], target, d)
        } else {
            s[i]
        })
}

/// The last sibling's NO pool after the rounding nudge: moved by
/// `total * err / 10000` pool units toward the target (truncated
/// toward zero) and clamped to `0..=total`, so the nudge redistributes
/// probability but never creates or destroys liquidity.
pub open spec fn adjusted_no(a: Answer, err: int) -> int {
    let total = a.yes_pool as int + a.no_pool as int;
    if err >= 0 {
        let grown = a.no_pool as int + total * err / 10000;
        if grown > total {
            total
        } else {
            grown
        }
    } else {
        let cut = total * (-err) / 10000;
        if cut > a.no_pool as int {
            0
        } else {
            a.no_pool as int - cut
        }
    }
}

/// The last sibling after the rounding nudge; the YES pool takes what
/// is left of the total, so the pool total is preserved exactly.
pub open spec fn adjusted(a: Answer, err: int) -> Answer {
    let total = a.yes_pool as int + a.no_pool as int;
    let nn = adjusted_no(a, err);
    Answer { no_pool: nn as u64, yes_pool: (total - nn) as u64, ..a }
}

/// The complete effect of one rebalancing call on the sibling list:
/// too few siblings or an overflowing candidate total abort it; no
/// valid sibling makes it a no-op; otherwise every valid sibling is
/// rescaled toward `target = 10000 - new_price` and the last one is
/// nudged when the realized sum misses the target by under 100 basis
/// points.
pub open spec fn sync_spec(
    s: Seq<Answer>,
    current_index: u8,
    market_id: u64,
    new_price: u64,
    expected: u8,
) -> Result<Seq<Answer>, LikeliError> {
    if s.len() < expected {
        Err(LikeliError::MissingSiblings)
    } else if exists|i: int|
        0 <= i < s.len() && is_candidate(s[i], current_index, market_id) && s[i].yes_pool as int
            + s[i].no_pool as int > u64::MAX {
        Err(LikeliError::ArithmeticOverflow)
    } else {
        let target = 10000 - new_price as int;
        let li = last_valid_sibling(s, current_index, market_id);
        if li < 0 {
            Ok(s)
        } else {
            let d = prob_sum(s, current_index, market_id);
            let base = redistributed_seq(s, current_index, market_id, target, d);
            let err = target - prob_sum(base, current_index, market_id);
            if err != 0 && -100 < err && err < 100 {
                Ok(base.update(li, adjusted(base[li], err)))
            } else {
                Ok(base)
            }
        }
    }
}

/// A valid sibling's probability is between 0 and 10000.
pub proof fn lemma_prob_of_bounds(a: Answer)
    requires
        a.yes_pool as int + a.no_pool as int > 0,
    ensures
        0 <= prob_of(a) <= 10000,
{
    let n = a.no_pool as int;
    let t = a.yes_pool as int + a.no_pool as int;
    assert(0 <= n * 10000 / t <= 10000) by (nonlinear_arith)
        requires
            t > 0,
            0 <= n <= t;
}

/// The probability sum is nonnegative and bounds each term.
pub proof fn lemma_prob_sum_nonneg(s: Seq<Answer>, current_index: u8, market_id: u64)
    ensures
        0 <= prob_sum(s, current_index, market_id) <= 10000 * s.len(),
    decreases s.len(),
{
    if s.len() > 0 {
        lemma_prob_sum_nonneg(s.drop_last(), current_index, market_id);
        if is_valid_sibling(s.last(), current_index, market_id) {
            lemma_prob_of_bounds(s.last());
        }
    }
}

/// Each valid sibling's probability is at most the probability sum.
pub proof fn lemma_prob_term_le_sum(s: Seq<Answer>, current_index: u8, market_id: u64, i: int)
    requires
        0 <= i < s.len(),
        is_valid_sibling(s[i], current_index, market_id),
    ensures
        prob_of(s[i]) <= prob_sum(s, current_index, market_id),
    decreases s.len(),
{
    lemma_prob_of_bounds(s[i]);
    if i == s.len() - 1 {
        lemma_prob_sum_nonneg(s.drop_last(), current_index, market_id);
    } else {
        lemma_prob_term_le_sum(s.drop_last(), current_index, market_id, i);
        if is_valid_sibling(s.last(), current_index, market_id) {
            lemma_prob_of_bounds(s.last());
        }
    }
}

/// Properties of the last-valid-sibling index: it is in range, valid,
/// and nothing after it is valid.
pub proof fn lemma_last_valid(s: Seq<Answer>, current_index: u8, market_id: u64)
    ensures
        -1 <= last_valid_sibling(s, current_index, market_id) < s.len(),
        last_valid_sibling(s, current_index, market_id) >= 0 ==> is_valid_sibling(
            s[last_valid_sibling(s, current_index, market_id)],
            current_index,
            market_id,
        ),
        forall|k: int|
            last_valid_sibling(s, current_index, market_id) < k < s.len()
                ==> !is_valid_sibling(s[k], current_index, market_id),
    decreases s.len(),
{
    if s.len() > 0 {
        lemma_last_valid(s.drop_last(), current_index, market_id);
        assert(forall|k: int| 0 <= k < s.len() - 1 ==> s.drop_last()[k] == s[k]);
    }
}

/// A rescaled sibling keeps its total pool size, and its new NO pool
/// stays within it.
pub proof fn lemma_redistributed_bounds(a: Answer, target: int, d: int)
    requires
        a.yes_pool as int + a.no_pool as int > 0,
        a.yes_pool as int + a.no_pool as int <= u64::MAX,
        0 <= target <= 10000,
        d >= 0,
        d > 0 ==> prob_of(a) <= d,
    ensures
        ({
            let r = redistributed(a, target, d);
            &&& r.no_pool as int + r.yes_pool as int == a.yes_pool as int + a.no_pool as int
            &&& r.no_pool as int == (a.yes_pool as int + a.no_pool as int) * (if d > 0 {
                prob_of(a) * target / d
            } else {
                target
            }) / 10000
            &&& r.market == a.market
            &&& r.index == a.index
        }),
{
    let total = a.yes_pool as int + a.no_pool as int;
    let p = prob_of(a);
    lemma_prob_of_bounds(a);
    let new_p = if d > 0 {
        p * target / d
    } else {
        target
    };
    if d > 0 {
        assert(0 <= p * target / d <= target) by (nonlinear_arith)
            requires
                d > 0,
                0 <= p <= d,
                0 <= target;
    }
    assert(0 <= total * new_p / 10000 <= total) by (nonlinear_arith)
        requires
            total > 0,
            0 <= new_p <= 10000;
}

/// The sibling count never exceeds the list length.
pub proof fn lemma_sibling_count_le(s: Seq<Answer>, current_index: u8, market_id: u64)
    ensures
        0 <= sibling_count(s, current_index, market_id) <= s.len(),
    decreases s.len(),
{
    if s.len() > 0 {
        lemma_sibling_count_le(s.drop_last(), current_index, market_id);
    }
}

/// A list with a valid sibling counts at least one.
pub proof fn lemma_sibling_count_pos(s: Seq<Answer>, current_index: u8, market_id: u64, i: int)
    requires
        0 <= i < s.len(),
        is_valid_sibling(s[i], current_index, market_id),
    ensures
        sibling_count(s, current_index, market_id) >= 1,
    decreases s.len(),
{
    lemma_sibling_count_le(s.drop_last(), current_index, market_id);
    if i < s.len() - 1 {
        lemma_sibling_count_pos(s.drop_last(), current_index, market_id, i);
    }
}

/// Replacing one element changes the probability sum by exactly the
/// difference of that element's contributions.
pub proof fn lemma_prob_sum_update(
    s: Seq<Answer>,
    current_index: u8,
    market_id: u64,
    j: int,
    a2: Answer,
)
    requires
        0 <= j < s.len(),
    ensures
        prob_sum(s.update(j, a2), current_index, market_id) == prob_sum(s, current_index,
            market_id) - (if is_valid_sibling(s[j], current_index, market_id) {
            prob_of(s[j])
        } else {
            0
        }) + (if is_valid_sibling(a2, current_index, market_id) {
            prob_of(a2)
        } else {
            0
        }),
    decreases s.len(),
{
    let s2 = s.update(j, a2);
    if j == s.len() - 1 {
        assert(s2.drop_last() =~= s.drop_last());
        assert(s2.last() == a2);
    } else {
        assert(s2.drop_last() =~= s.drop_last().update(j, a2));
        assert(s2.last() == s.last());
        lemma_prob_sum_update(s.drop_last(), current_index, market_id, j, a2);
    }
}

/// The exact effect of rescaling one sibling whose total pool size is
/// a multiple of 10000: the floor divisions cancel, so its realized
/// probability is exactly `prob * target / d`, still a floor but with
/// no second rounding.
pub proof fn lemma_realized_exact(a: Answer, target: int, d: int)
    requires
        a.yes_pool as int + a.no_pool as int > 0,
        a.yes_pool as int + a.no_pool as int <= u64::MAX,
        (a.yes_pool as int + a.no_pool as int) % 10000 == 0,
        0 <= target <= 10000,
        d > 0,
        prob_of(a) <= d,
    ensures
        ({
            let r = redistributed(a, target, d);
            let q = prob_of(a) * target / d;
            &&& r.yes_pool as int + r.no_pool as int == a.yes_pool as int + a.no_pool as int
            &&& r.market == a.market
            &&& r.index == a.index
            &&& prob_of(r) == q
            &&& r.no_pool as int == ((a.yes_pool as int + a.no_pool as int) / 10000) * q
            &&& 0 <= q <= target
        }),
{
    let t = a.yes_pool as int + a.no_pool as int;
    let k = t / 10000;
    let p = prob_of(a);
    let q = p * target / d;
    lemma_prob_of_bounds(a);
    vstd::arithmetic::div_mod::lemma_fundamental_div_mod(t, 10000);
    assert(t == 10000 * k);
    assert(k >= 1);
    assert(0 <= p * target / d <= target) by (nonlinear_arith)
        requires
            d > 0,
            0 <= p <= d,
            0 <= target;
    lemma_redistributed_bounds(a, target, d);
    let r = redistributed(a, target, d);
    assert(t * q == 10000 * (k * q)) by (nonlinear_arith)
        requires
            t == 10000 * k;
    vstd::arithmetic::div_mod::lemma_div_multiples_vanish(k * q, 10000);
    assert(r.no_pool as int == k * q);
    assert(r.no_pool as int * 10000 == q * t) by (nonlinear_arith)
        requires
            r.no_pool as int == k * q,
            t == 10000 * k;
    vstd::arithmetic::div_mod::lemma_div_multiples_vanish(q, t);
    assert(prob_of(r) == r.no_pool as int * 10000 / (r.yes_pool as int + r.no_pool as int));
    assert(prob_of(r) == q);
}

/// Bounds on the realized probability sum after rescaling, when every
/// valid sibling's total is a multiple of 10000: the rescaled sum
/// reaches the target up to one floor loss per sibling.
pub proof fn lemma_realized_sum_bounds(
    s: Seq<Answer>,
    current_index: u8,
    market_id: u64,
    target: int,
    d: int,
)
    requires
        0 <= target <= 10000,
        d > 0,
        forall|i: int|
            0 <= i < s.len() && is_valid_sibling(s[i], current_index, market_id) ==> (s[i].yes_pool
                as int + s[i].no_pool as int) % 10000 == 0 && s[i].yes_pool as int
                + s[i].no_pool as int <= u64::MAX && prob_of(s[i]) <= d,
    ensures
        ({
            let rsum = prob_sum(redistributed_seq(s, current_index, market_id, target, d),
                current_index, market_id);
            &&& 0 <= prob_sum(s, current_index, market_id) * target - d * rsum
            &&& prob_sum(s, current_index, market_id) * target - d * rsum <= sibling_count(
                s,
                current_index,
                market_id,
            ) * (d - 1)
        }),
    decreases s.len(),
{
    let base = redistributed_seq(s, current_index, market_id, target, d);
    if s.len() == 0 {
        assert(base =~= Seq::<Answer>::empty());
    } else {
        let bl = s.drop_last();
        let basebl = redistributed_seq(bl, current_index, market_id, target, d);
        assert(base.drop_last() =~= basebl);
        assert(forall|i: int|
            0 <= i < bl.len() && is_valid_sibling(bl[i], current_index, market_id)
                ==> is_valid_sibling(s[i], current_index, market_id) && bl[i] == s[i]);
        lemma_realized_sum_bounds(bl, current_index, market_id, target, d);
        let pb = prob_sum(bl, current_index, market_id);
        let rb = prob_sum(basebl, current_index, market_id);
        let cb = sibling_count(bl, current_index, market_id);
        lemma_sibling_count_le(bl, current_index, market_id);
        let a = s.last();
        if is_valid_sibling(a, current_index, market_id) {
            lemma_realized_exact(a, target, d);
            let p = prob_of(a);
            let q = p * target / d;
            let r = redistributed(a, target, d);
            assert(base.last() == r);
            assert(is_valid_sibling(r, current_index, market_id));
            assert(prob_sum(base, current_index, market_id) == rb + q);
            assert(prob_sum(s, current_index, market_id) == pb + p);
            assert(sibling_count(s, current_index, market_id) == cb + 1);
            vstd::arithmetic::div_mod::lemma_fundamental_div_mod(p * target, d);
            let rem = p * target % d;
            assert(0 <= rem < d) by {
                vstd::arithmetic::div_mod::lemma_mod_bound(p * target, d);
            }
            assert((pb + p) * target - d * (rb + q) <= (cb + 1) * (d - 1)) by (nonlinear_arith)
                requires
                    0 <= pb * target - d * rb <= cb * (d - 1),
                    p * target == d * q + rem,
                    0 <= rem <= d - 1,
                    cb >= 0,
                    d > 0;
            assert(0 <= (pb + p) * target - d * (rb + q)) by (nonlinear_arith)
                requires
                    0 <= pb * target - d * rb,
                    p * target == d * q + rem,
                    0 <= rem;
        } else {
            assert(base.last() == a);
            assert(prob_sum(base, current_index, market_id) == rb);
            assert(prob_sum(s, current_index, market_id) == pb);
            assert(sibling_count(s, current_index, market_id) == cb);
        }
    }
}

/// After rebalancing a one-winner market whose sibling pools are all
/// multiples of 10000 and hold any liquidity at all, the implied
/// probabilities are exactly consistent again: the freshly traded
/// answer's price plus the rebalanced siblings' probability sum is
/// exactly 10000 basis points.
///
/// For totals off the basis-point scale the floor divisions make the
/// exact target unreachable in general; the bounds lemma above still
/// confines the shortfall to under one basis point per sibling.
pub proof fn lemma_rebalance_exact(
    s: Seq<Answer>,
    current_index: u8,
    market_id: u64,
    new_price: u64,
)
    requires
        new_price <= 10000,
        s.len() < 100,
        last_valid_sibling(s, current_index, market_id) >= 0,
        prob_sum(s, current_index, market_id) > 0,
        forall|i: int|
            0 <= i < s.len() && is_candidate(s[i], current_index, market_id) ==> s[i].yes_pool
                as int + s[i].no_pool as int <= u64::MAX,
        forall|i: int|
            0 <= i < s.len() && is_valid_sibling(s[i], current_index, market_id) ==> (s[i].yes_pool
                as int + s[i].no_pool as int) % 10000 == 0,
    ensures
        sync_spec(s, current_index, market_id, new_price, 0) is Ok,
        new_price + prob_sum(
            sync_spec(s, current_index, market_id, new_price, 0)->Ok_0,
            current_index,
            market_id,
        ) == 10000,
{
    let target = 10000 - new_price as int;
    let d = prob_sum(s, current_index, market_id);
    let li = last_valid_sibling(s, current_index, market_id);
    let base = redistributed_seq(s, current_index, market_id, target, d);
    let rsum = prob_sum(base, current_index, market_id);
    let count = sibling_count(s, current_index, market_id);
    let err = target - rsum;
    assert(!(exists|i: int|
        0 <= i < s.len() && is_candidate(s[i], current_index, market_id) && s[i].yes_pool as int
            + s[i].no_pool as int > u64::MAX));
    lemma_last_valid(s, current_index, market_id);
    assert(forall|i: int|
        0 <= i < s.len() && is_valid_sibling(s[i], current_index, market_id) ==> prob_of(s[i])
            <= d) by {
        assert forall|i: int|
            0 <= i < s.len() && is_valid_sibling(s[i], current_index, market_id) implies prob_of(
            s[i],
        ) <= d by {
            lemma_prob_term_le_sum(s, current_index, market_id, i);
        }
    }
    lemma_realized_sum_bounds(s, current_index, market_id, target, d);
    lemma_sibling_count_le(s, current_index, market_id);
    lemma_sibling_count_pos(s, current_index, market_id, li);
    assert(0 <= target - rsum < count) by (nonlinear_arith)
        requires
            0 <= d * target - d * rsum,
            d * target - d * rsum <= count * (d - 1),
            d > 0,
            count >= 1;
    if err == 0 {
        assert(sync_spec(s, current_index, market_id, new_price, 0) == Ok::<
            Seq<Answer>,
            LikeliError,
        >(base));
    } else {
        assert(1 <= err < 100);
        let a = base[li];
        lemma_realized_exact(s[li], target, d);
        let p = prob_of(s[li]);
        let q = p * target / d;
        assert(a == redistributed(s[li], target, d));
        assert(prob_of(a) == q);
        let t = s[li].yes_pool as int + s[li].no_pool as int;
        let k = t / 10000;
        vstd::arithmetic::div_mod::lemma_fundamental_div_mod(t, 10000);
        assert(t == 10000 * k);
        assert(k >= 1);
        assert(a.yes_pool as int + a.no_pool as int == t);
        // the realized sum includes the last sibling's own share
        assert(is_valid_sibling(a, current_index, market_id));
        assert(base.len() == s.len());
        lemma_prob_term_le_sum(base, current_index, market_id, li);
        assert(q <= rsum);
        assert(q + err <= target);
        // the nudge lands exactly: total * err / 10000 == k * err
        assert(t * err == 10000 * (k * err)) by (nonlinear_arith)
            requires
                t == 10000 * k;
        vstd::arithmetic::div_mod::lemma_div_multiples_vanish(k * err, 10000);
        assert(t * err / 10000 == k * err);
        assert(a.no_pool as int == k * q);
        let grown = a.no_pool as int + t * err / 10000;
        assert(grown == k * q + k * err);
        assert(grown == k * (q + err)) by (nonlinear_arith)
            requires
                grown == k * q + k * err;
        assert(grown <= t) by (nonlinear_arith)
            requires
                grown == k * (q + err),
                q + err <= 10000,
                t == 10000 * k,
                k >= 0;
        // the clamp at the pool total does not bite here
        let nn = adjusted_no(a, err);
        assert(nn == grown);
        assert(nn >= 0) by (nonlinear_arith)
            requires
                nn == k * (q + err),
                k >= 0,
                q >= 0,
                err >= 0;
        let a2 = adjusted(a, err);
        assert(a2.no_pool as int == nn);
        assert(a2.yes_pool as int == t - nn);
        assert(a2.market == a.market && a2.index == a.index);
        assert(is_valid_sibling(a2, current_index, market_id));
        // the adjusted sibling's realized probability is exactly q + err
        assert(nn * 10000 == (q + err) * t) by (nonlinear_arith)
            requires
                nn == k * (q + err),
                t == 10000 * k;
        vstd::arithmetic::div_mod::lemma_div_multiples_vanish(q + err, t);
        assert(prob_of(a2) == q + err);
        lemma_prob_sum_update(base, current_index, market_id, li, a2);
        let result = base.update(li, a2);
        assert(prob_sum(result, current_index, market_id) == rsum - q + (q + err));
        assert(prob_sum(result, current_index, market_id) == target);
        assert(sync_spec(s, current_index, market_id, new_price, 0) == Ok::<
            Seq<Answer>,
            LikeliError,
        >(result));
    }
}

/// Rebalancing redistributes probability, never liquidity: every entry
/// of the sibling list keeps its total pool size, market and index,
/// and entries that take no part in the rescale are untouched.
pub proof fn lemma_sync_preserves_totals(
    s: Seq<Answer>,
    current_index: u8,
    market_id: u64,
    new_price: u64,
    expected: u8,
)
    requires
        new_price <= 10000,
        sync_spec(s, current_index, market_id, new_price, expected) is Ok,
    ensures
        ({
            let out = sync_spec(s, current_index, market_id, new_price, expected)->Ok_0;
            &&& out.len() == s.len()
            &&& forall|i: int|
                0 <= i < s.len() ==> (#[trigger] out[i]).yes_pool as int + out[i].no_pool as int
                    == s[i].yes_pool as int + s[i].no_pool as int && out[i].market == s[i].market
                    && out[i].index == s[i].index
            &&& forall|i: int|
                0 <= i < s.len() && !is_valid_sibling(s[i], current_index, market_id)
                    ==> (#[trigger] out[i]) == s[i]
        }),
{
    let out = sync_spec(s, current_index, market_id, new_price, expected)->Ok_0;
    assert(!(exists|i: int|
        0 <= i < s.len() && is_candidate(s[i], current_index, market_id) && s[i].yes_pool as int
            + s[i].no_pool as int > u64::MAX));
    let target = 10000 - new_price as int;
    let li = last_valid_sibling(s, current_index, market_id);
    lemma_last_valid(s, current_index, market_id);
    if li >= 0 {
        let d = prob_sum(s, current_index, market_id);
        lemma_prob_sum_nonneg(s, current_index, market_id);
        let base = redistributed_seq(s, current_index, market_id, target, d);
        assert forall|i: int| 0 <= i < s.len() implies (#[trigger] base[i]).yes_pool as int
            + base[i].no_pool as int == s[i].yes_pool as int + s[i].no_pool as int
            && base[i].market == s[i].market && base[i].index == s[i].index by {
            if is_valid_sibling(s[i], current_index, market_id) {
                lemma_prob_term_le_sum(s, current_index, market_id, i);
                lemma_prob_of_bounds(s[i]);
                lemma_redistributed_bounds(s[i], target, d);
            }
        }
        let err = target - prob_sum(base, current_index, market_id);
        if err != 0 && -100 < err && err < 100 {
            let a = base[li];
            let total = a.yes_pool as int + a.no_pool as int;
            let nn = adjusted_no(a, err);
            if err >= 0 {
                assert(total * err / 10000 >= 0) by (nonlinear_arith)
                    requires
                        total >= 0,
                        err >= 0;
            } else {
                assert(total * (-err) / 10000 >= 0) by (nonlinear_arith)
                    requires
                        total >= 0,
                        err < 0;
            }
            assert(0 <= nn <= total);
            let a2 = adjusted(a, err);
            assert(a2.yes_pool as int + a2.no_pool as int == total);
            assert(out =~= base.update(li, a2));
        } else {
            assert(out =~= base);
        }
    }
}

/// Rescales every valid sibling of a one-winner market so the answers'
/// implied probabilities again sum to 100%, after one answer's
/// probability moved to `new_price`.
///
/// The caller must supply at least `expected_sibling_count` records
/// (the rebalancer cannot discover siblings itself); records from
/// another market, the just-traded answer itself, and empty pools are
/// silently skipped, and with no valid sibling the call is a no-op.
/// Either the whole list is rescaled, or an error leaves it untouched.
pub fn sync_sibling_pools(
    current_index: u8,
    new_price: u64,
    market_id: u64,
    expected_sibling_count: u8,
    siblings: &mut Vec<Answer>,
) -> (r: Result<(), LikeliError>)
    requires
        new_price <= 10000,
    ensures
        ({
            let s = sync_spec(old(siblings)@, current_index, market_id, new_price,
                expected_sibling_count);
            match r {
                Ok(u) => s is Ok && final(siblings)@ == s->Ok_0,
                Err(e) => s is Err && e == s->Err_0 && final(siblings)@ == old(siblings)@,
            }
        }),
{
    let n: usize = siblings.len();
    if n < expected_sibling_count as usize {
        return Err(LikeliError::MissingSiblings);
    }
    let ghost s0 = siblings@;
    let target: u64 = 10000 - new_price;

    // First pass: reject overflowing candidate totals, accumulate the
    // valid siblings' probability sum, and find the last valid one.
    let mut psum: u128 = 0;
    let mut li: usize = n;
    let mut i: usize = 0;
    proof {
        assert(s0.take(0) =~= Seq::<Answer>::empty());
    }
    while i < n
        invariant
            0 <= i <= n,
            n == s0.len(),
            siblings@ == s0,
            old(siblings)@ == s0,
            n >= expected_sibling_count as usize,
            li <= n,
            new_price <= 10000,
            target == 10000 - new_price,
            psum == prob_sum(s0.take(i as int), current_index, market_id),
            psum <= 10000 * (i as int),
            forall|k: int|
                0 <= k < i && is_candidate(s0[k], current_index, market_id) ==> s0[k].yes_pool as int
                    + s0[k].no_pool as int <= u64::MAX,
            li == n <==> last_valid_sibling(s0.take(i as int), current_index, market_id) == -1,
            li < n ==> li < i && last_valid_sibling(s0.take(i as int), current_index, market_id)
                == li as int,
        decreases n - i,
    {
        let a = siblings[i];
        proof {
            assert(s0.take(i as int + 1).drop_last() =~= s0.take(i as int));
            assert(s0.take(i as int + 1).last() == s0[i as int]);
        }
        if a.market == market_id && a.index != current_index {
            let total = match a.yes_pool.checked_add(a.no_pool) {
                Some(t) => t,
                None => {
                    proof {
                        assert(is_candidate(s0[i as int], current_index, market_id)
                            && s0[i as int].yes_pool as int + s0[i as int].no_pool as int
                            > u64::MAX);
                    }
                    return Err(LikeliError::ArithmeticOverflow);
                },
            };
            if total > 0 {
                let p: u128 = (a.no_pool as u128) * 10000 / (total as u128);
                proof {
                    lemma_prob_of_bounds(s0[i as int]);
                    assert(p == prob_of(s0[i as int]));
                }
                psum = psum + p;
                li = i;
            }
        }
        i = i + 1;
    }
    proof {
        assert(s0.take(n as int) =~= s0);
    }
    if li == n {
        return Ok(());
    }
    let ghost d = prob_sum(s0, current_index, market_id);
    let ghost base = redistributed_seq(s0, current_index, market_id, target as int, d);
    proof {
        lemma_last_valid(s0, current_index, market_id);
    }

    // Second pass: compute every rescaled sibling's realized
    // probability and remember the last sibling's new pools, without
    // touching anything yet.
    let mut actual: u128 = 0;
    let mut last_new_no: u64 = 0;
    let mut last_total: u64 = 0;
    i = 0;
    proof {
        assert(base.take(0) =~= Seq::<Answer>::empty());
    }
    while i < n
        invariant
            0 <= i <= n,
            n == s0.len(),
            siblings@ == s0,
            new_price <= 10000,
            target == 10000 - new_price,
            psum == d,
            d == prob_sum(s0, current_index, market_id),
            base == redistributed_seq(s0, current_index, market_id, target as int, d),
            forall|k: int|
                0 <= k < n && is_candidate(s0[k], current_index, market_id) ==> s0[k].yes_pool as int
                    + s0[k].no_pool as int <= u64::MAX,
            li < n,
            is_valid_sibling(s0[li as int], current_index, market_id),
            last_valid_sibling(s0, current_index, market_id) == li as int,
            forall|k: int| li < k < n ==> !is_valid_sibling(s0[k], current_index, market_id),
            old(siblings)@ == s0,
            actual == prob_sum(base.take(i as int), current_index, market_id),
            actual <= 10000 * (i as int),
            i > li ==> last_new_no == base[li as int].no_pool && last_total as int
                == s0[li as int].yes_pool as int + s0[li as int].no_pool as int && base[
                li as int].yes_pool as int + base[li as int].no_pool as int == last_total as int,
        decreases n - i,
    {
        let a = siblings[i];
        proof {
            assert(base.take(i as int + 1).drop_last() =~= base.take(i as int));
            assert(base.take(i as int + 1).last() == base[i as int]);
            lemma_prob_sum_nonneg(s0, current_index, market_id);
        }
        if a.market == market_id && a.index != current_index {
            let total: u64 = a.yes_pool + a.no_pool;
            if total > 0 {
                proof {
                    lemma_prob_of_bounds(s0[i as int]);
                    lemma_prob_term_le_sum(s0, current_index, market_id, i as int);
                    lemma_redistributed_bounds(s0[i as int], target as int, d);
                }
                let p: u128 = (a.no_pool as u128) * 10000 / (total as u128);
                proof {
                    assert(p == prob_of(s0[i as int]));
                    assert(p as int * target as int <= 10000 * 10000) by (nonlinear_arith)
                        requires
                            0 <= p as int <= 10000,
                            0 <= target as int <= 10000;
                }
                let new_p: u128 = if psum > 0 {
                    p * (target as u128) / psum
                } else {
                    target as u128
                };
                let new_no: u128 = (total as u128) * new_p / 10000;
                let new_yes: u128 = total as u128 - new_no;
                proof {
                    assert(new_no as int == base[i as int].no_pool as int);
                    assert(new_yes as int == base[i as int].yes_pool as int);
                }
                let sibling_total: u128 = new_yes + new_no;
                if sibling_total > 0 {
                    let realized: u128 = new_no * 10000 / sibling_total;
                    proof {
                        lemma_prob_of_bounds(base[i as int]);
                        assert(realized == prob_of(base[i as int]));
                    }
                    actual = actual + realized;
                }
                last_new_no = new_no as u64;
                last_total = total;
            } else {
                proof {
                    assert(base[i as int] == s0[i as int]);
                }
            }
        } else {
            proof {
                assert(base[i as int] == s0[i as int]);
            }
        }
        i = i + 1;
    }
    proof {
        assert(base.take(n as int) =~= base);
    }

    // Decide the rounding nudge before any write.  The nudged NO pool
    // is clamped to the sibling's own total, so the nudge can never
    // create liquidity.
    let ghost err = target as int - prob_sum(base, current_index, market_id);
    let mut apply: bool = false;
    let mut plan_no: u64 = 0;
    if (actual as u128) < (target as u128) {
        let e: u128 = target as u128 - actual;
        if e < 100 {
            proof {
                assert(last_total as int * e as int <= u64::MAX as int * 100) by (nonlinear_arith)
                    requires
                        0 <= last_total as int <= u64::MAX as int,
                        0 <= e as int <= 100;
            }
            let adj: u128 = (last_total as u128) * e / 10000;
            let nn: u128 = last_new_no as u128 + adj;
            apply = true;
            plan_no = if nn > last_total as u128 {
                last_total
            } else {
                nn as u64
            };
            proof {
                assert(err >= 1 && err < 100);
                assert(plan_no as int == adjusted_no(base[li as int], err));
            }
        }
    } else if actual > target as u128 {
        let e: u128 = actual - target as u128;
        if e < 100 {
            proof {
                assert(last_total as int * e as int <= u64::MAX as int * 100) by (nonlinear_arith)
                    requires
                        0 <= last_total as int <= u64::MAX as int,
                        0 <= e as int <= 100;
            }
            let adjm: u128 = (last_total as u128) * e / 10000;
            let nn: u128 = if adjm > last_new_no as u128 {
                0
            } else {
                last_new_no as u128 - adjm
            };
            apply = true;
            plan_no = nn as u64;
            proof {
                assert(err <= -1 && err > -100);
                assert(plan_no as int == adjusted_no(base[li as int], err));
            }
        }
    }

    // Third pass: commit the rescaled pools.
    i = 0;
    while i < n
        invariant
            0 <= i <= n,
            n == s0.len(),
            siblings@.len() == n,
            new_price <= 10000,
            target == 10000 - new_price,
            psum == d,
            d == prob_sum(s0, current_index, market_id),
            base == redistributed_seq(s0, current_index, market_id, target as int, d),
            forall|k: int|
                0 <= k < n && is_candidate(s0[k], current_index, market_id) ==> s0[k].yes_pool as int
                    + s0[k].no_pool as int <= u64::MAX,
            forall|k: int| 0 <= k < i ==> siblings@[k] == base[k],
            forall|k: int| i <= k < n ==> siblings@[k] == s0[k],
            old(siblings)@ == s0,
            li < n,
            is_valid_sibling(s0[li as int], current_index, market_id),
            last_valid_sibling(s0, current_index, market_id) == li as int,
        decreases n - i,
    {
        let a = siblings[i];
        if a.market == market_id && a.index != current_index {
            let total: u64 = a.yes_pool + a.no_pool;
            if total > 0 {
                proof {
                    lemma_prob_of_bounds(s0[i as int]);
                    lemma_prob_term_le_sum(s0, current_index, market_id, i as int);
                    lemma_prob_sum_nonneg(s0, current_index, market_id);
                    lemma_redistributed_bounds(s0[i as int], target as int, d);
                }
                let p: u128 = (a.no_pool as u128) * 10000 / (total as u128);
                proof {
                    assert(p == prob_of(s0[i as int]));
                    assert(p as int * target as int <= 10000 * 10000) by (nonlinear_arith)
                        requires
                            0 <= p as int <= 10000,
                            0 <= target as int <= 10000;
                }
                let new_p: u128 = if psum > 0 {
                    p * (target as u128) / psum
                } else {
                    target as u128
                };
                let new_no: u128 = (total as u128) * new_p / 10000;
                let new_yes: u128 = total as u128 - new_no;
                let updated = Answer { yes_pool: new_yes as u64, no_pool: new_no as u64, ..a };
                siblings.set(i, updated);
                proof {
                    assert(siblings@[i as int] == base[i as int]);
                }
            }
        }
        i = i + 1;
    }
    if apply {
        let a = siblings[li];
        let new_yes: u64 = last_total - plan_no;
        let updated = Answer { yes_pool: new_yes, no_pool: plan_no, ..a };
        siblings.set(li, updated);
        proof {
            assert(updated == adjusted(base[li as int], err));
            assert(siblings@ =~= base.update(li as int, adjusted(base[li as int], err)));
        }
    } else {
        proof {
            assert(siblings@ =~= base);
        }
    }
    Ok(())
}

} // verus!
