//! Fee assessment: `floor(amount * fee_bps / 10000)` through a widened
//! intermediate, deducted from the outgoing leg of every money-moving
//! operation.

use vstd::prelude::*;

verus! {

/// Mathematical fee: `floor(amount * fee_bps / 10000)`.
pub open spec fn fee_of(amount: u64, fee_bps: u16) -> int {
    amount as int * fee_bps as int / 10000
}

/// Computes the fee for `amount` at `fee_bps` basis points.
///
/// The multiplication is carried out in 128 bits; the final narrowing
/// back to 64 bits truncates, which can only matter for `fee_bps`
/// above 10000 (a configuration every market rejects).
pub fn calculate_fee(amount: u64, fee_bps: u16) -> (r: u64)
    ensures
        r == fee_of(amount, fee_bps) as u64,
        fee_bps <= 10000 ==> r == fee_of(amount, fee_bps) && r <= amount,
{
    if fee_bps == 0 {
        return 0;
    }
    proof {
        assert(amount as int * fee_bps as int <= u64::MAX as int * u16::MAX as int)
            by (nonlinear_arith)
            requires
                amount <= u64::MAX,
                fee_bps <= u16::MAX;
        assert(fee_bps <= 10000 ==> amount as int * fee_bps as int / 10000 <= amount as int)
            by (nonlinear_arith)
            requires
                amount >= 0;
    }
    let wide: u128 = (amount as u128) * (fee_bps as u128) / 10000;
    let r = #[verifier::truncate] (wide as u64);
    r
}

} // verus!
