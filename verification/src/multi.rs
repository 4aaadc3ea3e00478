//! Multi-outcome markets: a market shell with 2..=10 per-answer pools,
//! per-answer resolution, and fixed-capacity share positions.

use vstd::prelude::*;
use crate::errors::LikeliError;

verus! {

/// A multi-outcome market.  When `is_one_winner` is set, the answers
/// share one 100% probability budget (the negative-risk design) and at
/// most one of them may resolve YES.
#[derive(Clone, Copy, Debug)]
pub struct MultiMarket {
    pub creator: u64,
    pub question_hash: [u8; 32],
    pub answer_count: u8,
    pub is_one_winner: bool,
    pub volume: u64,
    pub fee_bps: u16,
    pub resolution_time: i64,
    pub resolved: bool,
    pub created_at: i64,
    pub answers_resolved: u8,
}

impl MultiMarket {
    /// Well-formedness: 2..=10 answers and fees within 1000 basis points.
    pub open spec fn wf(self) -> bool {
        &&& 2 <= self.answer_count <= 10
        &&& self.fee_bps <= 1000
    }
}

/// One outcome of a multi-outcome market, with its own pricing pools.
#[derive(Clone, Copy, Debug)]
pub struct Answer {
    pub market: u64,
    pub index: u8,
    pub label_hash: [u8; 32],
    pub yes_pool: u64,
    pub no_pool: u64,
    pub volume: u64,
    pub resolved: bool,
    pub outcome: Option<bool>,
}

impl Answer {
    /// Well-formedness: the index addresses one of the ten position
    /// slots.
    pub open spec fn wf(self) -> bool {
        self.index < 10
    }
}

/// A holder's per-answer share balances: ten slots on each side,
/// indexed by answer.
#[derive(Debug)]
pub struct MultiPosition {
    pub owner: u64,
    pub market: u64,
    pub yes_shares: Vec<u64>,
    pub no_shares: Vec<u64>,
}

impl MultiPosition {
    /// Well-formedness: exactly ten slots on each side.
    pub open spec fn wf(self) -> bool {
        self.yes_shares@.len() == 10 && self.no_shares@.len() == 10
    }

    /// A fresh, empty position.
    pub fn new(owner: u64, market: u64) -> (p: MultiPosition)
        ensures
            p.wf(),
            p.owner == owner,
            p.market == market,
            forall|i: int| 0 <= i < 10 ==> p.yes_shares@[i] == 0 && p.no_shares@[i] == 0,
    {
        let yes_shares: Vec<u64> = vec![0, 0, 0, 0, 0, 0, 0, 0, 0, 0];
        let no_shares: Vec<u64> = vec![0, 0, 0, 0, 0, 0, 0, 0, 0, 0];
        MultiPosition { owner, market, yes_shares, no_shares }
    }
}

/// Creates a multi-outcome market shell; answers are added one by one
/// afterwards.  Rejects an answer count outside 2..=10, a resolution
/// time not in the future, initial liquidity under 100, and fees above
/// 1000 basis points, in that order.
pub fn create_multi_market(
    question_hash: [u8; 32],
    answer_count: u8,
    is_one_winner: bool,
    initial_liquidity: u64,
    fee_bps: u16,
    resolution_time: i64,
    creator: u64,
    now: i64,
) -> (r: Result<MultiMarket, LikeliError>)
    ensures
        r is Ok <==> 2 <= answer_count <= 10 && resolution_time > now && initial_liquidity >= 100
            && fee_bps <= 1000,
        !(2 <= answer_count <= 10) ==> r == Err::<MultiMarket, LikeliError>(
            LikeliError::InvalidAnswerCount,
        ),
        2 <= answer_count <= 10 && resolution_time <= now ==> r == Err::<MultiMarket, LikeliError>(
            LikeliError::InvalidResolutionTime,
        ),
        2 <= answer_count <= 10 && resolution_time > now && initial_liquidity < 100 ==> r
            == Err::<MultiMarket, LikeliError>(LikeliError::InsufficientLiquidity),
        2 <= answer_count <= 10 && resolution_time > now && initial_liquidity >= 100 && fee_bps
            > 1000 ==> r == Err::<MultiMarket, LikeliError>(LikeliError::FeesTooHigh),
        r is Ok ==> r->Ok_0 == (MultiMarket {
            creator,
            question_hash,
            answer_count,
            is_one_winner,
            volume: 0,
            fee_bps,
            resolution_time,
            resolved: false,
            created_at: now,
            answers_resolved: 0,
        }),
        r is Ok ==> r->Ok_0.wf(),
{
    if answer_count < 2 || answer_count > 10 {
        return Err(LikeliError::InvalidAnswerCount);
    }
    if resolution_time <= now {
        return Err(LikeliError::InvalidResolutionTime);
    }
    if initial_liquidity < 100 {
        return Err(LikeliError::InsufficientLiquidity);
    }
    if fee_bps > 1000 {
        return Err(LikeliError::FeesTooHigh);
    }
    Ok(
        MultiMarket {
            creator,
            question_hash,
            answer_count,
            is_one_winner,
            volume: 0,
            fee_bps,
            resolution_time,
            resolved: false,
            created_at: now,
            answers_resolved: 0,
        },
    )
}

/// Adds an answer to a multi-outcome market.  The starting pools put
/// the answer's implied probability at `1 / answer_count`: the NO pool
/// holds the initial liquidity and the YES pool `answer_count - 1`
/// times as much, so `no / (yes + no) == 1 / answer_count`.
///
/// The host authorizes the caller as the market creator before this
/// runs.
pub fn add_answer(
    market: &MultiMarket,
    market_id: u64,
    index: u8,
    label_hash: [u8; 32],
    initial_liquidity: u64,
) -> (r: Result<Answer, LikeliError>)
    requires
        market.wf(),
    ensures
        r is Ok <==> index < market.answer_count && initial_liquidity >= 100
            && initial_liquidity as int * (market.answer_count - 1) <= u64::MAX,
        index >= market.answer_count ==> r == Err::<Answer, LikeliError>(
            LikeliError::InvalidAnswerIndex,
        ),
        index < market.answer_count && initial_liquidity < 100 ==> r == Err::<Answer, LikeliError>(
            LikeliError::InsufficientLiquidity,
        ),
        index < market.answer_count && initial_liquidity >= 100 && initial_liquidity as int
            * (market.answer_count - 1) > u64::MAX ==> r == Err::<Answer, LikeliError>(
            LikeliError::ArithmeticOverflow,
        ),
        r is Ok ==> r->Ok_0 == (Answer {
            market: market_id,
            index,
            label_hash,
            yes_pool: (initial_liquidity as int * (market.answer_count - 1)) as u64,
            no_pool: initial_liquidity,
            volume: 0,
            resolved: false,
            outcome: None,
        }),
        r is Ok ==> r->Ok_0.wf(),
{
    if index >= market.answer_count {
        return Err(LikeliError::InvalidAnswerIndex);
    }
    if initial_liquidity < 100 {
        return Err(LikeliError::InsufficientLiquidity);
    }
    let multiplier: u64 = (market.answer_count - 1) as u64;
    let yes_pool = match initial_liquidity.checked_mul(multiplier) {
        Some(v) => v,
        None => { return Err(LikeliError::ArithmeticOverflow) },
    };
    Ok(
        Answer {
            market: market_id,
            index,
            label_hash,
            yes_pool,
            no_pool: initial_liquidity,
            volume: 0,
            resolved: false,
            outcome: None,
        },
    )
}

/// Whether a one-winner market already has an answer resolved YES.
///
/// Deliberately permissive: it always reports that no winner exists,
/// so the single-winner rule is not enforced at resolution time.
pub fn has_winner(_market: &MultiMarket) -> (r: bool)
    ensures
        r == false,
{
    false
}

/// Resolves one answer of a multi-outcome market.  Only the creator
/// may resolve, each answer only once, and only at or after the
/// resolution time.  Once every answer is resolved the market itself
/// becomes resolved.
pub fn resolve_answer(
    market: &mut MultiMarket,
    answer: &mut Answer,
    resolver: u64,
    outcome: bool,
    now: i64,
) -> (r: Result<(), LikeliError>)
    ensures
        r is Ok <==> !old(answer).resolved && resolver == old(market).creator && now
            >= old(market).resolution_time && old(market).answers_resolved < 255,
        old(answer).resolved ==> r == Err::<(), LikeliError>(LikeliError::AnswerAlreadyResolved),
        !old(answer).resolved && resolver != old(market).creator ==> r == Err::<(), LikeliError>(
            LikeliError::Unauthorized,
        ),
        !old(answer).resolved && resolver == old(market).creator && now
            < old(market).resolution_time ==> r == Err::<(), LikeliError>(
            LikeliError::TooEarlyToResolve,
        ),
        !old(answer).resolved && resolver == old(market).creator && now
            >= old(market).resolution_time && old(market).answers_resolved == 255 ==> r == Err::<
            (),
            LikeliError,
        >(LikeliError::ArithmeticOverflow),
        r is Ok ==> *final(answer) == (Answer {
            resolved: true,
            outcome: Some(outcome),
            ..*old(answer)
        }),
        r is Ok ==> *final(market) == (MultiMarket {
            answers_resolved: (old(market).answers_resolved + 1) as u8,
            resolved: old(market).resolved || old(market).answers_resolved + 1
                == old(market).answer_count,
            ..*old(market)
        }),
        r is Err ==> *final(market) == *old(market) && *final(answer) == *old(answer),
{
    if answer.resolved {
        return Err(LikeliError::AnswerAlreadyResolved);
    }
    if resolver != market.creator {
        return Err(LikeliError::Unauthorized);
    }
    if now < market.resolution_time {
        return Err(LikeliError::TooEarlyToResolve);
    }
    if market.is_one_winner && outcome {
        let winner_declared = market.answers_resolved != 0 && has_winner(market);
        if winner_declared {
            return Err(LikeliError::WinnerAlreadyDeclared);
        }
    }
    let new_count = match market.answers_resolved.checked_add(1) {
        Some(v) => v,
        None => { return Err(LikeliError::ArithmeticOverflow) },
    };
    answer.resolved = true;
    answer.outcome = Some(outcome);
    market.answers_resolved = new_count;
    if market.answers_resolved == market.answer_count {
        market.resolved = true;
    }
    Ok(())
}

/// Reconfigures a multi-outcome market.  Only the creator may do so,
/// and the fee must stay within 1000 basis points.
pub fn set_multi_market_config(
    market: &mut MultiMarket,
    caller: u64,
    is_one_winner: bool,
    fee_bps: u16,
    resolution_time: i64,
) -> (r: Result<(), LikeliError>)
    ensures
        r is Ok <==> caller == old(market).creator && fee_bps <= 1000,
        caller != old(market).creator ==> r == Err::<(), LikeliError>(LikeliError::Unauthorized),
        caller == old(market).creator && fee_bps > 1000 ==> r == Err::<(), LikeliError>(
            LikeliError::FeesTooHigh,
        ),
        r is Ok ==> *final(market) == (MultiMarket {
            is_one_winner,
            fee_bps,
            resolution_time,
            ..*old(market)
        }),
        r is Err ==> *final(market) == *old(market),
        old(market).wf() ==> final(market).wf(),
{
    if caller != market.creator {
        return Err(LikeliError::Unauthorized);
    }
    if fee_bps > 1000 {
        return Err(LikeliError::FeesTooHigh);
    }
    market.is_one_winner = is_one_winner;
    market.fee_bps = fee_bps;
    market.resolution_time = resolution_time;
    Ok(())
}

/// The payout a claim hands out: the YES-side balances summed slot by
/// slot, skipping any slot whose addition would overflow the running
/// total.
pub open spec fn claim_sum(shares: Seq<u64>) -> u64
    decreases shares.len(),
{
    if shares.len() == 0 {
        0u64
    } else {
        let prefix = claim_sum(shares.drop_last());
        if prefix + shares.last() > u64::MAX {
            prefix
        } else {
            (prefix + shares.last()) as u64
        }
    }
}

/// Claims winnings from a resolved multi-outcome market: pays the sum
/// of all YES-side balances and zeroes the whole position first.
///
/// The claim deliberately does not consult per-answer outcomes: every
/// YES-side balance pays out 1:1 and every NO-side balance is zeroed
/// unpaid, so it is the host's resolution bookkeeping that must keep
/// losing YES positions out of a claimable state.
pub fn claim_multi_winnings(market: &MultiMarket, position: &mut MultiPosition) -> (r: Result<
    u64,
    LikeliError,
>)
    requires
        old(position).wf(),
    ensures
        r is Ok <==> market.resolved,
        !market.resolved ==> r == Err::<u64, LikeliError>(LikeliError::MarketNotResolved)
            && *final(position) == *old(position),
        r is Ok ==> r->Ok_0 == claim_sum(old(position).yes_shares@),
        r is Ok ==> final(position).wf() && final(position).owner == old(position).owner
            && final(position).market == old(position).market && (forall|i: int|
            0 <= i < 10 ==> final(position).yes_shares@[i] == 0
                && final(position).no_shares@[i] == 0),
{
    if !market.resolved {
        return Err(LikeliError::MarketNotResolved);
    }
    let ghost shares0 = position.yes_shares@;
    let mut total_payout: u64 = 0;
    let mut i: usize = 0;
    while i < 10
        invariant
            0 <= i <= 10,
            old(position).wf(),
            position.wf(),
            position.owner == old(position).owner,
            position.market == old(position).market,
            shares0 == old(position).yes_shares@,
            total_payout == claim_sum(shares0.take(i as int)),
            forall|k: int| 0 <= k < i ==> position.yes_shares@[k] == 0,
            forall|k: int| 0 <= k < i ==> position.no_shares@[k] == 0,
            forall|k: int| i <= k < 10 ==> position.yes_shares@[k] == shares0[k],
        decreases 10 - i,
    {
        let entry: u64 = position.yes_shares[i];
        proof {
            assert(shares0.take(i as int + 1).drop_last() =~= shares0.take(i as int));
            assert(shares0.take(i as int + 1).last() == shares0[i as int]);
        }
        total_payout = match total_payout.checked_add(entry) {
            Some(v) => v,
            None => total_payout,
        };
        position.yes_shares.set(i, 0);
        position.no_shares.set(i, 0);
        i = i + 1;
    }
    proof {
        assert(shares0.take(10) =~= shares0);
    }
    Ok(total_payout)
}

/// Claims winnings for payment out of a collateral vault: as
/// `claim_multi_winnings` — including its outcome-blind payout of all
/// YES-side balances — but a claim worth nothing is rejected, and the
/// host must transfer exactly the returned payout.
pub fn claim_multi_winnings_with_vault(
    market: &MultiMarket,
    position: &mut MultiPosition,
) -> (r: Result<u64, LikeliError>)
    requires
        old(position).wf(),
    ensures
        r is Ok <==> market.resolved && claim_sum(old(position).yes_shares@) > 0,
        !market.resolved ==> r == Err::<u64, LikeliError>(LikeliError::MarketNotResolved),
        market.resolved && claim_sum(old(position).yes_shares@) == 0 ==> r == Err::<
            u64,
            LikeliError,
        >(LikeliError::NoWinningShares),
        r is Err ==> *final(position) == *old(position),
        r is Ok ==> r->Ok_0 == claim_sum(old(position).yes_shares@),
        r is Ok ==> final(position).wf() && final(position).owner == old(position).owner
            && final(position).market == old(position).market && (forall|i: int|
            0 <= i < 10 ==> final(position).yes_shares@[i] == 0
                && final(position).no_shares@[i] == 0),
{
    if !market.resolved {
        return Err(LikeliError::MarketNotResolved);
    }
    let ghost shares0 = position.yes_shares@;
    let mut total_payout: u64 = 0;
    let mut i: usize = 0;
    while i < 10
        invariant
            0 <= i <= 10,
            position.wf(),
            shares0 == position.yes_shares@,
            total_payout == claim_sum(shares0.take(i as int)),
        decreases 10 - i,
    {
        let entry: u64 = position.yes_shares[i];
        proof {
            assert(shares0.take(i as int + 1).drop_last() =~= shares0.take(i as int));
            assert(shares0.take(i as int + 1).last() == shares0[i as int]);
        }
        total_payout = match total_payout.checked_add(entry) {
            Some(v) => v,
            None => total_payout,
        };
        i = i + 1;
    }
    proof {
        assert(shares0.take(10) =~= shares0);
    }
    if total_payout == 0 {
        return Err(LikeliError::NoWinningShares);
    }
    claim_multi_winnings(market, position)
}

} // verus!
