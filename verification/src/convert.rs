//! The combinatorial position layer of one-winner markets: split
//! collateral into YES+NO on one answer, merge them back, and convert
//! NO positions held across a set of answers into YES on the remaining
//! answers plus released collateral.  None of these touch the pools.

use vstd::prelude::*;
use crate::errors::LikeliError;
use crate::fees::{fee_of, calculate_fee};
use crate::multi::{MultiMarket, Answer, MultiPosition};

verus! {

/// Whether bit `i` of the conversion index set is on.
pub open spec fn bit_set(set: u16, i: u16) -> bool {
    set & (1u16 << i) != 0
}

/// How many of the first `n` bits are on.
pub open spec fn popcount_upto(set: u16, n: u16) -> int
    decreases n,
{
    if n == 0 {
        0
    } else {
        popcount_upto(set, (n - 1) as u16) + if bit_set(set, (n - 1) as u16) {
            1int
        } else {
            0int
        }
    }
}

/// Summary of a completed conversion: collateral released to the
/// holder, the fee moved to the fee vault, the per-unit fee, and how
/// many answers lost NO and gained YES.
#[derive(Clone, Copy, Debug, PartialEq, Eq, Structural)]
pub struct ConvertSummary {
    pub collateral_out: u64,
    pub total_fee: u64,
    pub fee: u64,
    pub no_count: u64,
    pub yes_count: u64,
}

/// The YES-side balances after splitting `amount` onto slot `idx`.
pub open spec fn credited(shares: Seq<u64>, idx: int, amount: u64) -> Seq<u64> {
    shares.update(idx, (shares[idx] + amount) as u64)
}

/// The balances after burning `amount` from slot `idx`.
pub open spec fn debited(shares: Seq<u64>, idx: int, amount: u64) -> Seq<u64> {
    shares.update(idx, (shares[idx] - amount) as u64)
}

/// The NO-side balances after a conversion burns `amount` from every
/// set-bit answer below `count`.
pub open spec fn burned_no(no: Seq<u64>, count: u8, set: u16, amount: u64) -> Seq<u64> {
    Seq::new(no.len(), |k: int|
        if 0 <= k < count && bit_set(set, k as u16) {
            (no[k] - amount) as u64
        } else {
            no[k]
        })
}

/// The YES-side balances after a conversion mints `net` to every
/// cleared-bit answer below `count`.
pub open spec fn minted_yes(yes: Seq<u64>, count: u8, set: u16, net: u64) -> Seq<u64> {
    Seq::new(yes.len(), |k: int|
        if 0 <= k < count && !bit_set(set, k as u16) {
            (yes[k] + net) as u64
        } else {
            yes[k]
        })
}

/// The complete effect of a split on the two share vectors: `amount`
/// collateral becomes `amount` YES plus `amount` NO on one answer,
/// with no pool interaction — the guaranteed 1:1 alternative to pool
/// pricing.
pub open spec fn split_spec(yes: Seq<u64>, no: Seq<u64>, idx: int, amount: u64) -> Result<
    (Seq<u64>, Seq<u64>),
    LikeliError,
> {
    if amount == 0 {
        Err(LikeliError::InvalidAmount)
    } else if yes[idx] + amount > u64::MAX {
        Err(LikeliError::ArithmeticOverflow)
    } else if no[idx] + amount > u64::MAX {
        Err(LikeliError::ArithmeticOverflow)
    } else {
        Ok((credited(yes, idx, amount), credited(no, idx, amount)))
    }
}

/// The complete effect of a merge: `amount` YES plus `amount` NO on
/// one answer become exactly `amount` collateral, which the host
/// releases to the holder.
pub open spec fn merge_spec(yes: Seq<u64>, no: Seq<u64>, idx: int, amount: u64) -> Result<
    (Seq<u64>, Seq<u64>, u64),
    LikeliError,
> {
    if amount == 0 {
        Err(LikeliError::InvalidAmount)
    } else if yes[idx] < amount {
        Err(LikeliError::InsufficientShares)
    } else if no[idx] < amount {
        Err(LikeliError::InsufficientShares)
    } else {
        Ok((debited(yes, idx, amount), debited(no, idx, amount), amount))
    }
}

/// Deposits `amount` collateral for equal YES and NO shares on one
/// answer.  The host transfers the deposit before the shares exist.
pub fn split_position(answer: &Answer, position: &mut MultiPosition, amount: u64) -> (r: Result<
    (),
    LikeliError,
>)
    requires
        answer.wf(),
        old(position).wf(),
    ensures
        ({
            let s = split_spec(old(position).yes_shares@, old(position).no_shares@,
                answer.index as int, amount);
            match r {
                Ok(u) => s is Ok && final(position).yes_shares@ == s->Ok_0.0
                    && final(position).no_shares@ == s->Ok_0.1,
                Err(e) => s is Err && e == s->Err_0
                    && final(position).yes_shares@ == old(position).yes_shares@
                    && final(position).no_shares@ == old(position).no_shares@,
            }
        }),
        final(position).owner == old(position).owner,
        final(position).market == old(position).market,
        final(position).wf(),
{
    if amount == 0 {
        return Err(LikeliError::InvalidAmount);
    }
    let idx = answer.index as usize;
    let new_yes = match position.yes_shares[idx].checked_add(amount) {
        Some(v) => v,
        None => { return Err(LikeliError::ArithmeticOverflow) },
    };
    let new_no = match position.no_shares[idx].checked_add(amount) {
        Some(v) => v,
        None => { return Err(LikeliError::ArithmeticOverflow) },
    };
    position.yes_shares.set(idx, new_yes);
    position.no_shares.set(idx, new_no);
    Ok(())
}

/// Burns equal YES and NO shares on one answer and reports `amount`
/// collateral to release; requires at least `amount` held on both
/// sides.
pub fn merge_positions(answer: &Answer, position: &mut MultiPosition, amount: u64) -> (r: Result<
    u64,
    LikeliError,
>)
    requires
        answer.wf(),
        old(position).wf(),
    ensures
        ({
            let s = merge_spec(old(position).yes_shares@, old(position).no_shares@,
                answer.index as int, amount);
            match r {
                Ok(released) => s is Ok && final(position).yes_shares@ == s->Ok_0.0
                    && final(position).no_shares@ == s->Ok_0.1 && released == s->Ok_0.2,
                Err(e) => s is Err && e == s->Err_0
                    && final(position).yes_shares@ == old(position).yes_shares@
                    && final(position).no_shares@ == old(position).no_shares@,
            }
        }),
        final(position).owner == old(position).owner,
        final(position).market == old(position).market,
        final(position).wf(),
{
    if amount == 0 {
        return Err(LikeliError::InvalidAmount);
    }
    let idx = answer.index as usize;
    let held_yes = position.yes_shares[idx];
    if held_yes < amount {
        return Err(LikeliError::InsufficientShares);
    }
    let held_no = position.no_shares[idx];
    if held_no < amount {
        return Err(LikeliError::InsufficientShares);
    }
    position.yes_shares.set(idx, held_yes - amount);
    position.no_shares.set(idx, held_no - amount);
    Ok(amount)
}

/// The complete effect of a conversion.  For a one-winner, unresolved
/// market and a nonempty index set within the answer count: burn
/// `amount` NO from every set-bit answer, mint `amount` net of fee YES
/// to every cleared-bit answer, and release `(no_count - 1)` times the
/// net amount in collateral — the negative-risk identity that NO on
/// all-but-one outcome equals YES on the rest plus spare collateral.
/// A zero amount is a successful no-op.  The burned NO shares are gone
/// for good; no operation recreates them.
pub open spec fn convert_spec(m: MultiMarket, p: MultiPosition, index_set: u16, amount: u64)
    -> Result<(Seq<u64>, Seq<u64>, ConvertSummary), LikeliError> {
    if !m.is_one_winner {
        Err(LikeliError::NotOneWinnerMarket)
    } else if m.resolved {
        Err(LikeliError::MarketResolved)
    } else if index_set == 0 {
        Err(LikeliError::InvalidIndexSet)
    } else if index_set >> (m.answer_count as u16) != 0 {
        Err(LikeliError::InvalidIndexSet)
    } else if amount == 0 {
        Ok(
            (
                p.yes_shares@,
                p.no_shares@,
                ConvertSummary { collateral_out: 0, total_fee: 0, fee: 0, no_count: 0, yes_count: 0 },
            ),
        )
    } else {
        let no_count = popcount_upto(index_set, m.answer_count as u16);
        let yes_count = m.answer_count - no_count;
        if no_count < 1 {
            Err(LikeliError::NoConvertiblePositions)
        } else if exists|i: u16|
            i < m.answer_count && bit_set(index_set, i) && p.no_shares@[i as int] < amount {
            Err(LikeliError::InsufficientShares)
        } else {
            let fee = fee_of(amount, m.fee_bps) as u64;
            let net = (amount - fee) as u64;
            if exists|i: u16|
                i < m.answer_count && !bit_set(index_set, i) && p.yes_shares@[i as int] + net
                    > u64::MAX {
                Err(LikeliError::ArithmeticOverflow)
            } else if (no_count - 1) * net > u64::MAX {
                Err(LikeliError::ArithmeticOverflow)
            } else {
                let new_no = burned_no(p.no_shares@, m.answer_count, index_set, amount);
                let new_yes = minted_yes(p.yes_shares@, m.answer_count, index_set, net);
                let total_fee = if fee > 0 {
                    if fee * (no_count - 1) > u64::MAX {
                        0u64
                    } else {
                        (fee * (no_count - 1)) as u64
                    }
                } else {
                    0u64
                };
                Ok(
                    (
                        new_yes,
                        new_no,
                        ConvertSummary {
                            collateral_out: ((no_count - 1) * net) as u64,
                            total_fee,
                            fee,
                            no_count: no_count as u64,
                            yes_count: yes_count as u64,
                        },
                    ),
                )
            }
        }
    }
}

/// Converts NO positions across the set-bit answers into YES on the
/// cleared-bit answers plus released collateral (one-winner markets
/// only).  The host transfers `collateral_out` to the holder and
/// `total_fee` to the fee vault, exactly as reported.
pub fn convert_positions(
    market: &MultiMarket,
    position: &mut MultiPosition,
    index_set: u16,
    amount: u64,
) -> (r: Result<ConvertSummary, LikeliError>)
    requires
        market.wf(),
        old(position).wf(),
    ensures
        ({
            let s = convert_spec(*market, *old(position), index_set, amount);
            match r {
                Ok(summary) => s is Ok && final(position).yes_shares@ == s->Ok_0.0
                    && final(position).no_shares@ == s->Ok_0.1 && summary == s->Ok_0.2,
                Err(e) => s is Err && e == s->Err_0
                    && final(position).yes_shares@ == old(position).yes_shares@
                    && final(position).no_shares@ == old(position).no_shares@,
            }
        }),
        final(position).owner == old(position).owner,
        final(position).market == old(position).market,
        final(position).wf(),
{
    if !market.is_one_winner {
        return Err(LikeliError::NotOneWinnerMarket);
    }
    if market.resolved {
        return Err(LikeliError::MarketResolved);
    }
    if index_set == 0 {
        return Err(LikeliError::InvalidIndexSet);
    }
    if index_set >> (market.answer_count as u16) != 0 {
        return Err(LikeliError::InvalidIndexSet);
    }
    if amount == 0 {
        return Ok(
            ConvertSummary { collateral_out: 0, total_fee: 0, fee: 0, no_count: 0, yes_count: 0 },
        );
    }
    let question_count: u16 = market.answer_count as u16;
    let mut no_count: u64 = 0;
    let mut i: u16 = 0;
    while i < question_count
        invariant
            0 <= i <= question_count,
            question_count <= 10,
            no_count == popcount_upto(index_set, i),
            no_count <= i,
        decreases question_count - i,
    {
        if index_set & (1u16 << i) != 0 {
            no_count = no_count + 1;
        }
        i = i + 1;
    }
    let yes_count: u64 = question_count as u64 - no_count;
    if no_count < 1 {
        return Err(LikeliError::NoConvertiblePositions);
    }
    let ghost yes0 = position.yes_shares@;
    let ghost no0 = position.no_shares@;
    i = 0;
    while i < question_count
        invariant
            0 <= i <= question_count,
            question_count == market.answer_count as u16,
            question_count <= 10,
            position.wf(),
            position.yes_shares@ == yes0,
            position.no_shares@ == no0,
            old(position).yes_shares@ == yes0,
            old(position).no_shares@ == no0,
            position.owner == old(position).owner,
            position.market == old(position).market,
            market.wf(),
            market.is_one_winner,
            !market.resolved,
            index_set != 0,
            index_set >> (market.answer_count as u16) == 0,
            amount > 0,
            no_count == popcount_upto(index_set, question_count),
            no_count >= 1,
            forall|k: u16| k < i && bit_set(index_set, k) ==> no0[k as int] >= amount,
        decreases question_count - i,
    {
        if index_set & (1u16 << i) != 0 {
            if position.no_shares[i as usize] < amount {
                proof {
                    assert(bit_set(index_set, i) && no0[i as int] < amount);
                }
                return Err(LikeliError::InsufficientShares);
            }
        }
        i = i + 1;
    }
    let fee = calculate_fee(amount, market.fee_bps);
    let net = amount - fee;
    i = 0;
    while i < question_count
        invariant
            0 <= i <= question_count,
            question_count == market.answer_count as u16,
            question_count <= 10,
            position.wf(),
            position.yes_shares@ == yes0,
            position.no_shares@ == no0,
            old(position).yes_shares@ == yes0,
            old(position).no_shares@ == no0,
            position.owner == old(position).owner,
            position.market == old(position).market,
            market.wf(),
            market.is_one_winner,
            !market.resolved,
            index_set != 0,
            index_set >> (market.answer_count as u16) == 0,
            amount > 0,
            no_count == popcount_upto(index_set, question_count),
            no_count >= 1,
            fee == crate::fees::fee_of(amount, market.fee_bps) as u64,
            net == amount - fee,
            forall|k: u16| k < question_count && bit_set(index_set, k) ==> no0[k as int] >= amount,
            forall|k: u16| k < i && !bit_set(index_set, k) ==> yes0[k as int] + net <= u64::MAX,
        decreases question_count - i,
    {
        if index_set & (1u16 << i) == 0 {
            match position.yes_shares[i as usize].checked_add(net) {
                Some(v) => v,
                None => {
                    proof {
                        assert(!bit_set(index_set, i) && yes0[i as int] + net > u64::MAX);
                    }
                    return Err(LikeliError::ArithmeticOverflow);
                },
            };
        }
        i = i + 1;
    }
    let converted_minus_one: u64 = no_count - 1;
    let collateral_out = match converted_minus_one.checked_mul(net) {
        Some(v) => v,
        None => { return Err(LikeliError::ArithmeticOverflow) },
    };
    let total_fee: u64 = if fee > 0 {
        match fee.checked_mul(converted_minus_one) {
            Some(v) => v,
            None => 0,
        }
    } else {
        0
    };
    let ghost new_no = burned_no(no0, market.answer_count, index_set, amount);
    let ghost new_yes = minted_yes(yes0, market.answer_count, index_set, net);
    i = 0;
    while i < question_count
        invariant
            0 <= i <= question_count,
            question_count == market.answer_count as u16,
            question_count <= 10,
            position.wf(),
            position.yes_shares@ == yes0,
            old(position).yes_shares@ == yes0,
            old(position).no_shares@ == no0,
            position.owner == old(position).owner,
            position.market == old(position).market,
            forall|k: u16| k < question_count && bit_set(index_set, k) ==> no0[k as int] >= amount,
            no0.len() == 10,
            new_no == burned_no(no0, market.answer_count, index_set, amount),
            forall|k: int| 0 <= k < i ==> position.no_shares@[k] == new_no[k],
            forall|k: int| i <= k < 10 ==> position.no_shares@[k] == no0[k],
        decreases question_count - i,
    {
        if index_set & (1u16 << i) != 0 {
            proof {
                assert(bit_set(index_set, i));
                assert(no0[i as int] >= amount);
            }
            let held = position.no_shares[i as usize];
            position.no_shares.set(i as usize, held - amount);
            proof {
                assert(position.no_shares@[i as int] == new_no[i as int]);
            }
        } else {
            proof {
                assert(!bit_set(index_set, i));
                assert(position.no_shares@[i as int] == new_no[i as int]);
            }
        }
        i = i + 1;
    }
    proof {
        assert(position.no_shares@ =~= new_no);
    }
    i = 0;
    while i < question_count
        invariant
            0 <= i <= question_count,
            question_count == market.answer_count as u16,
            question_count <= 10,
            position.wf(),
            position.no_shares@ == new_no,
            old(position).yes_shares@ == yes0,
            position.owner == old(position).owner,
            position.market == old(position).market,
            net <= amount,
            forall|k: u16|
                k < question_count && !bit_set(index_set, k) ==> yes0[k as int] + net <= u64::MAX,
            yes0.len() == 10,
            new_yes == minted_yes(yes0, market.answer_count, index_set, net),
            forall|k: int| 0 <= k < i ==> position.yes_shares@[k] == new_yes[k],
            forall|k: int| i <= k < 10 ==> position.yes_shares@[k] == yes0[k],
        decreases question_count - i,
    {
        if index_set & (1u16 << i) == 0 {
            proof {
                assert(!bit_set(index_set, i));
                assert(yes0[i as int] + net <= u64::MAX);
            }
            let held = position.yes_shares[i as usize];
            position.yes_shares.set(i as usize, held + net);
            proof {
                assert(position.yes_shares@[i as int] == new_yes[i as int]);
            }
        } else {
            proof {
                assert(bit_set(index_set, i));
                assert(position.yes_shares@[i as int] == new_yes[i as int]);
            }
        }
        i = i + 1;
    }
    proof {
        assert(position.yes_shares@ =~= new_yes);
    }
    Ok(
        ConvertSummary {
            collateral_out,
            total_fee,
            fee,
            no_count,
            yes_count,
        },
    )
}

/// Splitting and then merging the same amount on the same answer is a
/// no-op on the position (and touches no pool), and releases exactly
/// the deposited collateral.
pub proof fn lemma_split_merge_roundtrip(yes: Seq<u64>, no: Seq<u64>, idx: int, amount: u64)
    requires
        0 <= idx < yes.len(),
        0 <= idx < no.len(),
        split_spec(yes, no, idx, amount) is Ok,
    ensures
        ({
            let (y2, n2) = split_spec(yes, no, idx, amount)->Ok_0;
            merge_spec(y2, n2, idx, amount) == Ok::<(Seq<u64>, Seq<u64>, u64), LikeliError>(
                (yes, no, amount),
            )
        }),
{
    let (y2, n2) = split_spec(yes, no, idx, amount)->Ok_0;
    let (y3, n3, released) = merge_spec(y2, n2, idx, amount)->Ok_0;
    assert(y3 =~= yes);
    assert(n3 =~= no);
}

} // verus!
