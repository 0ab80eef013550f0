//! Prices of a single hop, the wide arithmetic under them, and the amounts of
//! adding and removing liquidity.

use zenlink::liquidity::{increment, withdrawal};
use zenlink::pricing::{
    exceeds_impact_limit, get_supply_amount, get_target_amount, ExchangeFee, Ratio,
    DEFAULT_FEE_DENOMINATOR, DEFAULT_FEE_NUMERATOR,
};
use zenlink::primitives::Balance;
use zenlink::wide::Wide;

fn wide(hi: u128, lo: u128) -> Wide {
    Wide { hi, lo }
}

fn halves(w: Wide) -> (u128, u128) {
    (w.hi, w.lo)
}

#[test]
fn default_fee_is_three_in_a_thousand() {
    let fee = ExchangeFee::default();
    assert_eq!(fee, ExchangeFee::new(3, 1000));
    assert_eq!(fee.numerator, DEFAULT_FEE_NUMERATOR);
    assert_eq!(fee.denominator, DEFAULT_FEE_DENOMINATOR);
    assert_eq!(fee.kept(), 997);
    assert_eq!(ExchangeFee::new(5, 3).kept(), 0);
    assert_eq!(ExchangeFee::new(0, 0).kept(), 0);
}

#[test]
fn target_amount_at_the_default_fee() {
    let fee = ExchangeFee::default();
    // 1000 * 997 * 20000 / (10000 * 1000 + 1000 * 997) = 1813.2...
    assert_eq!(get_target_amount(fee, 10000, 20000, 1000), 1813);
    // 10000 * 997 * 20000 / (10000 * 1000 + 10000 * 997) = 9984.9...
    assert_eq!(get_target_amount(fee, 10000, 20000, 10000), 9984);
    assert_eq!(get_target_amount(fee, 10000, 20000, 0), 0);
    assert_eq!(get_target_amount(fee, 0, 20000, 1000), 0);
    assert_eq!(get_target_amount(fee, 10000, 0, 1000), 0);
}

#[test]
fn supply_amount_at_the_default_fee() {
    let fee = ExchangeFee::default();
    // 10000 * 1813 * 1000 / ((20000 - 1813) * 997) = 999.8..., and one more.
    assert_eq!(get_supply_amount(fee, 10000, 20000, 1813), 1000);
    assert_eq!(get_supply_amount(fee, 10000, 20000, 20000), 0);
    assert_eq!(get_supply_amount(fee, 10000, 20000, 20001), 0);
    assert_eq!(get_supply_amount(fee, 10000, 20000, 19999), 200_591_776);
}

#[test]
fn prices_without_a_fee_and_with_a_fee_that_takes_all() {
    let free = ExchangeFee::new(0, 1);
    // 1000 * 20000 / (10000 + 1000) = 1818.1...
    assert_eq!(get_target_amount(free, 10000, 20000, 1000), 1818);
    // 10000 * 1818 / (20000 - 1818) = 999.8..., and one more.
    assert_eq!(get_supply_amount(free, 10000, 20000, 1818), 1000);
    let all = ExchangeFee::new(7, 7);
    assert_eq!(get_target_amount(all, 10000, 20000, 1000), 0);
    assert_eq!(get_supply_amount(all, 10000, 20000, 1000), 0);
    let none = ExchangeFee::new(0, 0);
    assert_eq!(get_target_amount(none, 10000, 20000, 1000), 0);
    assert_eq!(get_supply_amount(none, 10000, 20000, 1000), 0);
}

#[test]
fn prices_are_exact_at_the_largest_amounts() {
    let fee = ExchangeFee::new(1, 100);
    let max = Balance::MAX;
    // max * 99 * max / (max * 100 + max * 99) = max * 99 / 199.
    assert_eq!(get_target_amount(fee, max, max, max), 169_286_202_639_059_838_607_407_468_018_819_361_477);
    assert_eq!(get_target_amount(fee, 1, max, max), max - 2);
    assert_eq!(get_target_amount(fee, max, max, 1), 0);
    assert_eq!(get_target_amount(fee, max, 1, max), 0);
    // A price that does not fit in 128 bits is no price.
    assert_eq!(get_supply_amount(fee, max, 2, 1), 0);
    assert_eq!(get_supply_amount(fee, max, max, max - 1), 0);
    // 1 * 1 * 100 / ((max - 1) * 99) = 0, and one more.
    assert_eq!(get_supply_amount(fee, 1, max, 1), 1);
}

#[test]
fn paying_the_supply_amount_pays_out_the_target() {
    let fees = [ExchangeFee::default(), ExchangeFee::new(1, 100), ExchangeFee::new(0, 1)];
    let pools: [(Balance, Balance); 4] =
        [(10000, 20000), (1, 1000), (987_654_321, 123), (5_000_000_000_000, 1_000_000_000_000)];
    for fee in fees {
        for (supply_pool, target_pool) in pools {
            for target_amount in [1, 2, target_pool / 3, target_pool / 2, target_pool - 1] {
                if target_amount == 0 || target_amount >= target_pool {
                    continue;
                }
                let needed = get_supply_amount(fee, supply_pool, target_pool, target_amount);
                assert!(needed > 0);
                let paid = get_target_amount(fee, supply_pool, target_pool, needed);
                assert!(paid >= target_amount);
                // The reserves' product does not shrink on either trade.
                let before = supply_pool * target_pool;
                assert!((supply_pool + needed) * (target_pool - target_amount) > before);
                assert!((supply_pool + needed) * (target_pool - paid) >= before);
            }
        }
    }
}

#[test]
fn a_hop_with_a_fee_grows_the_product() {
    let fee = ExchangeFee::default();
    for (supply_pool, target_pool, supply_amount) in
        [(10000u128, 20000u128, 1000u128), (1, 1, 1), (500, 3, 1_000_000), (7, 1_000_000, 1)]
    {
        let paid = get_target_amount(fee, supply_pool, target_pool, supply_amount);
        assert!(paid < target_pool);
        assert!((supply_pool + supply_amount) * (target_pool - paid) > supply_pool * target_pool);
    }
}

#[test]
fn impact_limit_is_exceeded_only_above_it() {
    let half = Ratio::checked_from_rational(50, 100).unwrap();
    assert!(!exceeds_impact_limit(24999, 50000, half));
    assert!(!exceeds_impact_limit(25000, 50000, half));
    assert!(exceeds_impact_limit(25001, 50000, half));
    let third = Ratio::checked_from_rational(1, 3).unwrap();
    assert!(!exceeds_impact_limit(1, 3, third));
    assert!(!exceeds_impact_limit(33, 100, third));
    assert!(exceeds_impact_limit(34, 100, third));
    let nothing = Ratio::checked_from_rational(0, 1).unwrap();
    assert!(!exceeds_impact_limit(0, 10, nothing));
    assert!(exceeds_impact_limit(1, 10, nothing));
    // The products are formed in 256 bits.
    let most = Ratio::checked_from_rational(Balance::MAX - 1, Balance::MAX).unwrap();
    assert!(!exceeds_impact_limit(Balance::MAX - 1, Balance::MAX, most));
    assert!(exceeds_impact_limit(Balance::MAX, Balance::MAX, most));
    assert_eq!(Ratio::checked_from_rational(1, 0), None);
    assert_eq!(
        Ratio::checked_from_rational(49, 100),
        Some(Ratio { numerator: 49, denominator: 100 })
    );
}

#[test]
fn wide_product_is_the_full_product() {
    assert_eq!(halves(Wide::product(0, 0)), (0, 0));
    assert_eq!(halves(Wide::product(3, 4)), (0, 12));
    assert_eq!(halves(Wide::product(1 << 64, 1 << 64)), (1, 0));
    assert_eq!(halves(Wide::product(1 << 127, 2)), (1, 0));
    assert_eq!(halves(Wide::product(u128::MAX, 1)), (0, u128::MAX));
    // (2^128 - 1)^2 = (2^128 - 2) * 2^128 + 1
    assert_eq!(halves(Wide::product(u128::MAX, u128::MAX)), (u128::MAX - 1, 1));
    // (2^64 + 1) * (2^64 - 1) = 2^128 - 1
    assert_eq!(halves(Wide::product((1 << 64) + 1, (1 << 64) - 1)), (0, u128::MAX));
    assert_eq!(
        halves(Wide::product(0xffff_ffff_ffff_ffff_0000_0000_0000_0001, 0x1_0000_0000_0000_0003)),
        (0x10000000000000001, 0xfffffffffffffffe0000000000000003)
    );
}

#[test]
fn wide_arithmetic_carries_between_the_halves() {
    assert_eq!(halves(Wide::from_u128(7)), (0, 7));
    assert_eq!(halves(wide(0, u128::MAX).plus(wide(0, 1))), (1, 0));
    assert_eq!(halves(wide(3, u128::MAX).plus(wide(4, u128::MAX))), (8, u128::MAX - 1));
    assert_eq!(halves(wide(1, 0).minus(wide(0, 1))), (0, u128::MAX));
    assert_eq!(halves(wide(8, 5).minus(wide(3, 6))), (4, u128::MAX));
    assert_eq!(halves(wide(8, 5).minus(wide(8, 5))), (0, 0));
    assert_eq!(halves(wide(1, 0).halve()), (0, 1 << 127));
    assert_eq!(halves(wide(3, 7).halve()), (1, (1 << 127) + 3));
    assert!(wide(0, 0).is_zero());
    assert!(!wide(1, 0).is_zero());
    assert!(wide(2, 1).is_odd());
    assert!(!wide(1, 2).is_odd());
    assert!(wide(1, 9).lt(wide(2, 0)));
    assert!(wide(1, 9).lt(wide(1, 10)));
    assert!(!wide(1, 9).lt(wide(1, 9)));
    assert!(wide(1, 9).le(wide(1, 9)));
    assert!(!wide(2, 0).le(wide(1, 9)));
}

#[test]
fn mul_div_is_the_exact_floor() {
    assert_eq!(Wide::mul_div(Wide::from_u128(10), 3, Wide::from_u128(4)), Some(7));
    assert_eq!(Wide::mul_div(Wide::from_u128(0), 3, Wide::from_u128(4)), Some(0));
    assert_eq!(Wide::mul_div(Wide::from_u128(10), 0, Wide::from_u128(4)), Some(0));
    assert_eq!(Wide::mul_div(Wide::from_u128(1), 1, Wide::from_u128(2)), Some(0));
    assert_eq!(
        Wide::mul_div(Wide::from_u128(u128::MAX), u128::MAX, Wide::from_u128(u128::MAX)),
        Some(u128::MAX)
    );
    assert_eq!(Wide::mul_div(Wide::from_u128(u128::MAX), 2, Wide::from_u128(1)), None);
    assert_eq!(Wide::mul_div(Wide::from_u128(u128::MAX), 2, Wide::from_u128(2)), Some(u128::MAX));
    assert_eq!(Wide::mul_div(Wide::from_u128(u128::MAX), 2, Wide::from_u128(3)), Some(226_854_911_280_625_642_308_916_404_954_512_140_970));
    // 2^200 * 3 / 2^201 = 1, with a divisor that does not fit in 128 bits.
    assert_eq!(Wide::mul_div(wide(1 << 72, 0), 3, wide(1 << 73, 0)), Some(1));
    assert_eq!(Wide::mul_div(wide(1 << 72, 0), 3, wide(1 << 73, 1)), Some(1));
    assert_eq!(Wide::mul_div(wide(1 << 72, 0), 2, wide(1 << 73, 1)), Some(0));
    // (2^255 + 5) * 7 / (7 * 2^128) = 2^127
    assert_eq!(Wide::mul_div(wide(1 << 127, 5), 7, wide(7, 0)), Some(1 << 127));
    assert_eq!(Wide::mul_div(wide(u128::MAX, u128::MAX), u128::MAX, wide(1, 0)), None);
    assert_eq!(
        Wide::mul_div(wide(u128::MAX, u128::MAX), 1, wide((1 << 126) - 1, u128::MAX)),
        Some(4)
    );
}

#[test]
fn first_provision_takes_what_is_offered() {
    assert_eq!(increment(0, 0, 0, 500, 100, true), Some((500, 100, 500)));
    assert_eq!(increment(0, 0, 0, 500, 100, false), Some((500, 100, 100)));
    assert_eq!(increment(0, 0, 0, 0, 100, true), None);
    assert_eq!(increment(0, 0, 0, 500, 0, true), None);
    assert_eq!(
        increment(0, 0, 0, Balance::MAX, Balance::MAX, true),
        Some((Balance::MAX, Balance::MAX, Balance::MAX))
    );
}

#[test]
fn later_provisions_keep_the_proportion() {
    // The second asset limits: 8 / 1 < 50 / 5.
    assert_eq!(increment(5, 1, 5, 50, 8, true), Some((40, 8, 40)));
    // The first asset limits.
    assert_eq!(increment(5, 1, 5, 10, 8, true), Some((10, 2, 10)));
    // Both offers stand in the pool's proportion.
    assert_eq!(increment(5, 1, 5, 50, 10, true), Some((50, 10, 50)));
    // Everything is rounded down: 7 * 3 / 10 = 2.1 and 7 * 4 / 10 = 2.8.
    assert_eq!(increment(10, 3, 4, 7, 100, true), Some((7, 2, 2)));
    assert_eq!(increment(3, 10, 4, 100, 7, false), Some((2, 7, 2)));
    // An amount or the shares rounded down to zero: nothing is provided.
    assert_eq!(increment(10, 3, 4, 3, 100, true), None);
    assert_eq!(increment(10, 3, 1, 7, 100, true), None);
    assert_eq!(increment(10, 3, 4, 0, 100, true), None);
    // A pool with shares and an empty reserve takes nothing.
    assert_eq!(increment(0, 3, 4, 7, 100, true), None);
    assert_eq!(increment(10, 0, 4, 7, 100, true), None);
    // Shares that do not fit in 128 bits are not minted.
    assert_eq!(increment(1, 1, Balance::MAX, 2, 2, true), None);
    assert_eq!(increment(1, 1, Balance::MAX, 1, 1, true), Some((1, 1, Balance::MAX)));
}

#[test]
fn shares_are_redeemed_in_proportion() {
    assert_eq!(withdrawal(5_000, 1_000, 5_000, 4_000), Some((4_000, 800)));
    assert_eq!(withdrawal(5_000, 1_000, 5_000, 5_000), Some((5_000, 1_000)));
    // Rounded down: 10 * 1 / 3 = 3.3 and 7 * 1 / 3 = 2.3.
    assert_eq!(withdrawal(10, 7, 3, 1), Some((3, 2)));
    assert_eq!(withdrawal(10, 7, 3, 2), Some((6, 4)));
    assert_eq!(withdrawal(1, 1, 3, 2), Some((0, 0)));
    assert_eq!(withdrawal(10, 7, 0, 1), None);
    assert_eq!(withdrawal(10, 7, 3, 0), None);
    assert_eq!(withdrawal(Balance::MAX, 7, 1, 2), None);
    assert_eq!(
        withdrawal(Balance::MAX, Balance::MAX, Balance::MAX, Balance::MAX),
        Some((Balance::MAX, Balance::MAX))
    );
}

#[test]
fn redeeming_fresh_shares_pays_out_no_more_than_was_taken() {
    let pools: [(Balance, Balance, Balance); 4] =
        [(0, 0, 0), (5, 1, 5), (10, 3, 4), (1_000_003, 999_983, 31_337)];
    let offers: [(Balance, Balance); 5] = [(50, 8), (7, 100), (1, 1), (12_345, 54_321), (3, 1_000)];
    for (pool_a, pool_b, total_shares) in pools {
        for (max_a, max_b) in offers {
            for a_is_first in [true, false] {
                let taken = increment(pool_a, pool_b, total_shares, max_a, max_b, a_is_first);
                let Some((use_a, use_b, shares)) = taken else {
                    continue;
                };
                assert!(use_a <= max_a && use_b <= max_b);
                let back =
                    withdrawal(pool_a + use_a, pool_b + use_b, total_shares + shares, shares);
                let (out_a, out_b) = back.unwrap();
                assert!(out_a <= use_a);
                assert!(out_b <= use_b);
            }
        }
    }
}
