use likeli::fees::calculate_fee;
use likeli::pool::{current_price, calculate_shares_out, pool_sell_payout};

#[test]
fn fee_of_12345_at_250_bps_is_308() {
    assert_eq!(calculate_fee(12345, 250), 308);
}

#[test]
fn fee_at_zero_bps_is_zero() {
    assert_eq!(calculate_fee(12345, 0), 0);
    assert_eq!(calculate_fee(u64::MAX, 0), 0);
}

#[test]
fn fee_rounds_down() {
    // 999 * 100 / 10000 = 9.99 -> 9
    assert_eq!(calculate_fee(999, 100), 9);
    // 10000 * 1000 / 10000 = 1000 exactly
    assert_eq!(calculate_fee(10000, 1000), 1000);
}

#[test]
fn balanced_pools_price_at_5000() {
    assert_eq!(current_price(1000, 1000, true), 5000);
    assert_eq!(current_price(1000, 1000, false), 5000);
}

#[test]
fn skewed_pools_price_by_floor() {
    // YES price = 4 * 10000 / 7 = 5714, NO price = 3 * 10000 / 7 = 4285:
    // the two floored sides sum to 9999 here, one short of the scale.
    assert_eq!(current_price(3, 4, true), 5714);
    assert_eq!(current_price(3, 4, false), 4285);
    assert_eq!(current_price(3, 4, true) + current_price(3, 4, false), 9999);
}

#[test]
fn floored_prices_sum_exactly_when_division_is_even() {
    // total 2000 divides 10000 * no evenly: 500 * 10000 / 2000 = 2500
    assert_eq!(current_price(1500, 500, true), 2500);
    assert_eq!(current_price(1500, 500, false), 7500);
    assert_eq!(
        current_price(1500, 500, true) + current_price(1500, 500, false),
        10000
    );
}

#[test]
fn shares_out_for_balanced_pool() {
    // 100 + 100 * 1000 / 1100 = 190
    assert_eq!(calculate_shares_out(1000, 1000, 100, true), 190);
    assert_eq!(calculate_shares_out(1000, 1000, 100, false), 190);
}

#[test]
fn shares_out_for_zero_amount_is_zero() {
    assert_eq!(calculate_shares_out(1000, 1000, 0, true), 0);
}

#[test]
fn sell_payout_never_drains_opposite_pool() {
    // 190 * 1100 / (1000 + 190) = 175
    assert_eq!(pool_sell_payout(1000, 1100, 190), 175);
    let payout = pool_sell_payout(1, 1000, u64::MAX);
    assert!(payout < 1000);
}
