//! The exchange beyond its everyday cases: admission, refusals that leave no
//! trace, paths that return to their start, and what stays true of supplies
//! and of the exchange's own account.

use zenlink::assets::{AssetInfo, Module};
use zenlink::dex::DexModule;
use zenlink::exchange::MAX_HOPS;
use zenlink::errors::Error;
use zenlink::events::Event;
use zenlink::pricing::{ExchangeFee, Ratio};
use zenlink::primitives::{AccountId, AssetId, Balance, TradingPair};

const ALICE: AccountId = 1;
const BOB: AccountId = 2;
const POOL: AccountId = 77;

const A: AssetId = 0;
const B: AssetId = 1;
const C: AssetId = 2;

const ASSETS: [AssetId; 3] = [A, B, C];
const PAIRS: [(AssetId, AssetId); 3] = [(A, B), (A, C), (B, C)];

fn pair(a: AssetId, b: AssetId) -> TradingPair {
    TradingPair::new(a, b).unwrap()
}

fn share(a: AssetId, b: AssetId) -> AssetId {
    pair(a, b).get_dex_share_currency_id().unwrap()
}

/// ALICE and BOB hold a million of each of three assets; all three pairs are
/// open; the fee is the default one.
fn market() -> (DexModule, Module) {
    let mut assets = Module::new();
    for id in ASSETS {
        assert_eq!(assets.inner_issue(&ALICE, 2_000_000, &AssetInfo::default()), id);
        assert_eq!(assets.inner_transfer(&id, &ALICE, &BOB, 1_000_000), Ok(()));
    }
    let mut dex = DexModule::new(POOL, ExchangeFee::default());
    for (a, b) in PAIRS {
        assert_eq!(dex.enable_trading_pair(pair(a, b)), Ok(()));
    }
    (dex, assets)
}

/// The total supply of every asset in play is what the three accounts hold
/// of it, and the exchange's account holds of each asset what the pools hold
/// of it in reserve.
fn assert_conserved_and_in_custody(dex: &DexModule, assets: &Module) {
    let mut ids = ASSETS.to_vec();
    for (a, b) in PAIRS {
        ids.push(share(a, b));
    }
    for id in ids {
        let held: Balance = [ALICE, BOB, POOL].iter().map(|who| assets.balance_of(&id, who)).sum();
        assert_eq!(assets.total_supply(&id), held);
        let pooled: Balance = ASSETS.iter().map(|other| dex.get_liquidity(id, *other).0).sum();
        assert_eq!(assets.balance_of(&id, &POOL), pooled);
    }
}

fn state(dex: &DexModule, assets: &Module) -> Vec<Balance> {
    let mut seen = Vec::new();
    let mut ids = ASSETS.to_vec();
    for (a, b) in PAIRS {
        ids.push(share(a, b));
        seen.push(dex.get_liquidity(a, b).0);
        seen.push(dex.get_liquidity(a, b).1);
    }
    for id in ids {
        for who in [ALICE, BOB, POOL] {
            seen.push(assets.balance_of(&id, &who));
        }
        seen.push(assets.total_supply(&id));
    }
    seen.push(assets.events().len() as Balance);
    seen
}

#[test]
fn new_exchange_has_no_pools_and_no_open_pairs() {
    let dex = DexModule::new(POOL, ExchangeFee::new(1, 100));
    assert_eq!(dex.account_id(), POOL);
    assert_eq!(dex.exchange_fee(), ExchangeFee::new(1, 100));
    assert_eq!(dex.get_liquidity(A, B), (0, 0));
    assert_eq!(dex.liquidity_pool(pair(A, B)), (0, 0));
    assert!(!dex.is_trading_pair_enabled(pair(A, B)));
    assert_eq!(MAX_HOPS, 3);
}

#[test]
fn pairs_are_opened_and_closed() {
    let mut dex = DexModule::new(POOL, ExchangeFee::default());
    assert_eq!(dex.enable_trading_pair(pair(B, A)), Ok(()));
    assert!(dex.is_trading_pair_enabled(pair(A, B)));
    assert!(!dex.is_trading_pair_enabled(pair(A, C)));
    // Opening twice is opening once.
    assert_eq!(dex.enable_trading_pair(pair(A, B)), Ok(()));
    dex.disable_trading_pair(pair(A, B));
    assert!(!dex.is_trading_pair_enabled(pair(A, B)));
    dex.disable_trading_pair(pair(A, B));
    assert!(!dex.is_trading_pair_enabled(pair(A, B)));
    // A pair that is not canonical is not admitted.
    let turned = TradingPair { first: B, second: A };
    assert_eq!(dex.enable_trading_pair(turned), Err(Error::InvalidCurrencyId));
    assert!(!dex.is_trading_pair_enabled(turned));
    assert_eq!(
        dex.enable_trading_pair(TradingPair { first: A, second: share(A, B) }),
        Err(Error::InvalidCurrencyId)
    );
}

#[test]
fn closing_a_pair_stops_trading_but_not_redeeming() {
    let (mut dex, mut assets) = market();
    assert_eq!(dex.add_liquidity(&mut assets, &ALICE, A, B, 1_000, 1_000), Ok(()));
    dex.disable_trading_pair(pair(A, B));
    assert_eq!(dex.get_liquidity(A, B), (1_000, 1_000));
    assert_eq!(dex.get_target_amounts(&[A, B], 10, None), Err(Error::TradingPairNotAllowed));
    assert_eq!(dex.get_supply_amounts(&[A, B], 10, None), Err(Error::TradingPairNotAllowed));
    assert_eq!(
        dex.add_liquidity(&mut assets, &ALICE, A, B, 10, 10),
        Err(Error::TradingPairNotAllowed)
    );
    assert_eq!(dex.remove_liquidity(&mut assets, &ALICE, A, B, 1_000), Ok(()));
    assert_eq!(dex.get_liquidity(A, B), (0, 0));
    assert_conserved_and_in_custody(&dex, &assets);
}

#[test]
fn liquidity_reads_the_same_in_either_order() {
    let (mut dex, mut assets) = market();
    assert_eq!(dex.add_liquidity(&mut assets, &ALICE, B, A, 300, 700), Ok(()));
    assert_eq!(dex.get_liquidity(A, B), (700, 300));
    assert_eq!(dex.get_liquidity(B, A), (300, 700));
    assert_eq!(dex.liquidity_pool(pair(A, B)), (700, 300));
    for (x, y) in [(A, B), (B, C), (A, A), (A, share(A, B)), (9, 4)] {
        let (r0, r1) = dex.get_liquidity(x, y);
        assert_eq!(dex.get_liquidity(y, x), (r1, r0));
    }
    // Assets that form no pair have no pool.
    dex.set_liquidity_pool(TradingPair { first: A, second: A }, (5, 5));
    assert_eq!(dex.get_liquidity(A, A), (0, 0));
    assert_eq!(dex.get_liquidity(A, share(A, B)), (0, 0));
}

#[test]
fn first_shares_are_the_amount_of_the_canonical_first_asset() {
    let (mut dex, mut assets) = market();
    assert_eq!(dex.add_liquidity(&mut assets, &ALICE, B, A, 300, 700), Ok(()));
    assert_eq!(assets.balance_of(&share(A, B), &ALICE), 700);
    assert_eq!(assets.total_supply(&share(A, B)), 700);
    assert_eq!(
        assets.events().last(),
        Some(&Event::AddLiquidity(ALICE, B, 300, A, 700, 700))
    );
    // The same provision, named the other way round.
    assert_eq!(dex.add_liquidity(&mut assets, &BOB, A, C, 700, 300), Ok(()));
    assert_eq!(assets.balance_of(&share(A, C), &BOB), 700);
    assert_conserved_and_in_custody(&dex, &assets);
}

#[test]
fn later_provision_in_the_other_order_takes_the_same() {
    let (mut dex, mut assets) = market();
    assert_eq!(dex.add_liquidity(&mut assets, &ALICE, A, B, 5_000, 1_000), Ok(()));
    assert_eq!(dex.add_liquidity(&mut assets, &BOB, B, A, 8_000, 50_000), Ok(()));
    assert_eq!(
        assets.events().last(),
        Some(&Event::AddLiquidity(BOB, B, 8_000, A, 40_000, 40_000))
    );
    assert_eq!(dex.get_liquidity(A, B), (45_000, 9_000));
    assert_eq!(assets.balance_of(&share(A, B), &BOB), 40_000);
    assert_eq!(assets.balance_of(&A, &BOB), 960_000);
    assert_eq!(assets.balance_of(&B, &BOB), 992_000);
    assert_conserved_and_in_custody(&dex, &assets);
}

#[test]
fn provision_refused_for_want_of_funds_changes_nothing() {
    let (mut dex, mut assets) = market();
    let before = state(&dex, &assets);
    assert_eq!(
        dex.add_liquidity(&mut assets, &ALICE, A, B, 1_000_001, 10),
        Err(Error::BalanceLow)
    );
    assert_eq!(state(&dex, &assets), before);
    // Enough of the first asset, too little of the second: the first is not
    // taken either.
    assert_eq!(
        dex.add_liquidity(&mut assets, &ALICE, A, B, 10, 1_000_001),
        Err(Error::BalanceLow)
    );
    assert_eq!(state(&dex, &assets), before);
    assert_eq!(
        dex.add_liquidity(&mut assets, &ALICE, A, A, 10, 10),
        Err(Error::TradingPairNotAllowed)
    );
    assert_eq!(
        dex.add_liquidity(&mut assets, &ALICE, A, share(A, B), 10, 10),
        Err(Error::TradingPairNotAllowed)
    );
    assert_eq!(
        dex.add_liquidity(&mut assets, &ALICE, A, B, 10, 0),
        Err(Error::InvalidLiquidityIncrement)
    );
    assert_eq!(state(&dex, &assets), before);
    // In a pool of 1000 to 1, an offer of 999 of the first asset buys none of
    // the second.
    assert_eq!(dex.add_liquidity(&mut assets, &ALICE, A, B, 1_000, 1), Ok(()));
    let before = state(&dex, &assets);
    assert_eq!(
        dex.add_liquidity(&mut assets, &BOB, A, B, 999, 5),
        Err(Error::InvalidLiquidityIncrement)
    );
    assert_eq!(state(&dex, &assets), before);
}

#[test]
fn removal_is_refused_without_shares() {
    let (mut dex, mut assets) = market();
    let before = state(&dex, &assets);
    // No shares exist yet.
    assert_eq!(
        dex.remove_liquidity(&mut assets, &ALICE, A, B, 10),
        Err(Error::InvalidLiquidityIncrement)
    );
    assert_eq!(dex.remove_liquidity(&mut assets, &ALICE, A, A, 10), Err(Error::InvalidCurrencyId));
    assert_eq!(
        dex.remove_liquidity(&mut assets, &ALICE, A, share(A, B), 10),
        Err(Error::InvalidCurrencyId)
    );
    assert_eq!(state(&dex, &assets), before);

    assert_eq!(dex.add_liquidity(&mut assets, &ALICE, A, B, 5_000, 1_000), Ok(()));
    let before = state(&dex, &assets);
    assert_eq!(
        dex.remove_liquidity(&mut assets, &ALICE, A, B, 0),
        Err(Error::InvalidLiquidityIncrement)
    );
    assert_eq!(dex.remove_liquidity(&mut assets, &ALICE, A, B, 5_001), Err(Error::BalanceLow));
    assert_eq!(dex.remove_liquidity(&mut assets, &BOB, A, B, 1), Err(Error::BalanceLow));
    assert_eq!(state(&dex, &assets), before);
}

#[test]
fn removal_rounds_against_the_provider() {
    let (mut dex, mut assets) = market();
    assert_eq!(dex.add_liquidity(&mut assets, &ALICE, A, B, 10, 7), Ok(()));
    // 3 of 10 shares: 3 of the first asset, and 2.1 of the second.
    assert_eq!(dex.remove_liquidity(&mut assets, &ALICE, B, A, 3), Ok(()));
    assert_eq!(
        assets.events().last(),
        Some(&Event::RemoveLiquidity(ALICE, B, 2, A, 3, 3))
    );
    assert_eq!(dex.get_liquidity(A, B), (7, 5));
    assert_eq!(assets.balance_of(&share(A, B), &ALICE), 7);
    assert_conserved_and_in_custody(&dex, &assets);
    // A share so small that it buys nothing of the second asset: the shares
    // are burned, and only the first asset is paid out.
    assert_eq!(dex.set_liquidity_pool(pair(A, B), (7, 5)), ());
    let events = assets.events().len();
    assert_eq!(dex.remove_liquidity(&mut assets, &ALICE, A, B, 1), Ok(()));
    assert_eq!(dex.get_liquidity(A, B), (6, 5));
    assert_eq!(assets.balance_of(&share(A, B), &ALICE), 6);
    assert_eq!(
        &assets.events()[events..],
        &[
            Event::Burned(share(A, B), ALICE, 1),
            Event::Transferred(A, POOL, ALICE, 1),
            Event::RemoveLiquidity(ALICE, A, 1, B, 0, 1),
        ]
    );
    assert_conserved_and_in_custody(&dex, &assets);
}

#[test]
fn fresh_shares_redeem_for_no_more_than_was_paid() {
    let (mut dex, mut assets) = market();
    assert_eq!(dex.add_liquidity(&mut assets, &ALICE, A, B, 1_003, 997), Ok(()));
    assert_eq!(dex.do_swap_with_exact_supply(&mut assets, &ALICE, &[A, B], 333, 1, None), Ok(247));
    let had = (assets.balance_of(&A, &BOB), assets.balance_of(&B, &BOB));
    assert_eq!(dex.add_liquidity(&mut assets, &BOB, A, B, 100, 100), Ok(()));
    let paid = (had.0 - assets.balance_of(&A, &BOB), had.1 - assets.balance_of(&B, &BOB));
    assert_eq!(paid, (100, 56));
    let shares = assets.balance_of(&share(A, B), &BOB);
    assert_eq!(shares, 75);
    assert_eq!(dex.remove_liquidity(&mut assets, &BOB, A, B, shares), Ok(()));
    let back = (
        assets.balance_of(&A, &BOB) - (had.0 - paid.0),
        assets.balance_of(&B, &BOB) - (had.1 - paid.1),
    );
    assert_eq!(back, (99, 56));
    assert_conserved_and_in_custody(&dex, &assets);
}

#[test]
fn swap_reports_and_settles_in_order() {
    let (mut dex, mut assets) = market();
    assert_eq!(dex.add_liquidity(&mut assets, &ALICE, A, B, 10_000, 20_000), Ok(()));
    let events = assets.events().len();
    assert_eq!(
        dex.do_swap_with_exact_supply(&mut assets, &BOB, &[A, B], 1_000, 1_813, None),
        Ok(1_813)
    );
    assert_eq!(
        &assets.events()[events..],
        &[
            Event::Transferred(A, BOB, POOL, 1_000),
            Event::Transferred(B, POOL, BOB, 1_813),
            Event::Swap(BOB, vec![A, B], 1_000, 1_813),
        ]
    );
    assert_eq!(dex.get_liquidity(A, B), (11_000, 18_187));
    assert!(11_000u128 * 18_187 > 10_000 * 20_000);
    assert_conserved_and_in_custody(&dex, &assets);
}

#[test]
fn swap_refused_for_want_of_funds_changes_nothing() {
    let (mut dex, mut assets) = market();
    assert_eq!(dex.add_liquidity(&mut assets, &ALICE, A, B, 500_000, 500_000), Ok(()));
    assert_eq!(assets.inner_transfer(&A, &BOB, &ALICE, 999_990), Ok(()));
    let before = state(&dex, &assets);
    assert_eq!(
        dex.do_swap_with_exact_supply(&mut assets, &BOB, &[A, B], 11, 0, None),
        Err(Error::BalanceLow)
    );
    assert_eq!(state(&dex, &assets), before);
    assert_eq!(
        dex.do_swap_with_exact_target(&mut assets, &BOB, &[A, B], 10, 1_000, None),
        Err(Error::BalanceLow)
    );
    assert_eq!(state(&dex, &assets), before);
    assert_eq!(
        dex.do_swap_with_exact_supply(&mut assets, &BOB, &[A, B], 0, 0, None),
        Err(Error::ZeroTargetAmount)
    );
    assert_eq!(
        dex.do_swap_with_exact_target(&mut assets, &BOB, &[A, B], 0, 1_000, None),
        Err(Error::ZeroSupplyAmount)
    );
    assert_eq!(
        dex.do_swap_with_exact_target(&mut assets, &BOB, &[A, B], 500_000, 1_000, None),
        Err(Error::ZeroSupplyAmount)
    );
    assert_eq!(
        dex.do_swap_with_exact_supply(&mut assets, &BOB, &[A, C], 5, 0, None),
        Err(Error::InsufficientLiquidity)
    );
    assert_eq!(
        dex.do_swap_with_exact_supply(&mut assets, &BOB, &[A], 5, 0, None),
        Err(Error::InvalidTradingPathLength)
    );
    assert_eq!(
        dex.do_swap_with_exact_supply(&mut assets, &BOB, &[], 5, 0, None),
        Err(Error::InvalidTradingPathLength)
    );
    assert_eq!(state(&dex, &assets), before);
    assert_eq!(dex.do_swap_with_exact_supply(&mut assets, &BOB, &[A, B], 10, 9, None), Ok(9));
    assert_conserved_and_in_custody(&dex, &assets);
}

#[test]
fn swap_meets_the_callers_bounds_exactly() {
    let (mut dex, mut assets) = market();
    assert_eq!(dex.add_liquidity(&mut assets, &ALICE, A, B, 10_000, 20_000), Ok(()));
    assert_eq!(
        dex.do_swap_with_exact_supply(&mut assets, &BOB, &[A, B], 1_000, 1_814, None),
        Err(Error::InsufficientTargetAmount)
    );
    assert_eq!(
        dex.do_swap_with_exact_target(&mut assets, &BOB, &[A, B], 1_813, 999, None),
        Err(Error::ExcessiveSupplyAmount)
    );
    // 1813 of 20000 is more than nine and less than ten in a hundred.
    assert_eq!(
        dex.do_swap_with_exact_target(
            &mut assets,
            &BOB,
            &[A, B],
            1_813,
            1_000,
            Ratio::checked_from_rational(9, 100)
        ),
        Err(Error::ExceedPriceImpactLimit)
    );
    assert_eq!(
        dex.do_swap_with_exact_target(
            &mut assets,
            &BOB,
            &[A, B],
            1_813,
            1_000,
            Ratio::checked_from_rational(10, 100)
        ),
        Ok(1_000)
    );
    assert_eq!(dex.get_liquidity(A, B), (11_000, 18_187));
    assert_conserved_and_in_custody(&dex, &assets);
}

#[test]
fn impact_limit_passes_a_hop_that_takes_exactly_the_limit() {
    let (mut dex, _assets) = market();
    dex.set_liquidity_pool(pair(A, B), (50_000, 10_000));
    // 25000 of 50000 is exactly one half.
    assert_eq!(
        dex.get_supply_amounts(&[B, A], 25_000, Ratio::checked_from_rational(1, 2)),
        Ok(vec![10_031, 25_000])
    );
    assert_eq!(
        dex.get_supply_amounts(&[B, A], 25_001, Ratio::checked_from_rational(1, 2)),
        Err(Error::ExceedPriceImpactLimit)
    );
    assert_eq!(
        dex.get_supply_amounts(
            &[B, A],
            25_000,
            Ratio::checked_from_rational(24_999, 50_000)
        ),
        Err(Error::ExceedPriceImpactLimit)
    );
    // 10031 in pays exactly 25000 and a little more.
    assert_eq!(
        dex.get_target_amounts(&[B, A], 10_031, Ratio::checked_from_rational(1, 2)),
        Err(Error::ExceedPriceImpactLimit)
    );
    assert_eq!(dex.get_target_amounts(&[B, A], 10_031, None), Ok(vec![10_031, 25_001]));
    // The limit is checked hop by hop, after the hop's other checks.
    dex.set_liquidity_pool(pair(A, C), (100_000, 10));
    assert_eq!(
        dex.get_target_amounts(&[B, A, C], 10_000, Ratio::checked_from_rational(1, 2)),
        Ok(vec![10_000, 24_962, 1])
    );
    assert_eq!(
        dex.get_target_amounts(&[B, A, C], 10_000, Ratio::checked_from_rational(1, 11)),
        Err(Error::ExceedPriceImpactLimit)
    );
    assert_eq!(
        dex.get_target_amounts(&[B, A, C], 100, Ratio::checked_from_rational(0, 1)),
        Err(Error::ExceedPriceImpactLimit)
    );
}

#[test]
fn first_failing_hop_decides_the_error() {
    let (mut dex, _assets) = market();
    dex.set_liquidity_pool(pair(A, B), (50_000, 10_000));
    dex.disable_trading_pair(pair(A, C));
    // Forward, the first hop pays nothing; the closed second pair is not
    // reached.
    assert_eq!(dex.get_target_amounts(&[A, B, C], 1, None), Err(Error::ZeroTargetAmount));
    // Backward, the last hop is looked at first.
    assert_eq!(dex.get_supply_amounts(&[B, A, C], 1, None), Err(Error::TradingPairNotAllowed));
    assert_eq!(dex.get_target_amounts(&[C, A, B], 1, None), Err(Error::TradingPairNotAllowed));
    assert_eq!(dex.get_target_amounts(&[A, B, C], 10_000, None), Err(Error::InsufficientLiquidity));
    assert_eq!(dex.get_supply_amounts(&[C, B, A], 60_000, None), Err(Error::ZeroSupplyAmount));
    // The length is looked at before any hop.
    assert_eq!(
        dex.get_target_amounts(&[A, C, A, C], 1, None),
        Err(Error::InvalidTradingPathLength)
    );
    assert_eq!(dex.get_supply_amounts(&[], 1, None), Err(Error::InvalidTradingPathLength));
}

#[test]
fn path_through_two_pools_moves_both() {
    let (mut dex, mut assets) = market();
    assert_eq!(dex.add_liquidity(&mut assets, &ALICE, A, B, 50_000, 10_000), Ok(()));
    assert_eq!(dex.add_liquidity(&mut assets, &ALICE, A, C, 100_000, 1_000), Ok(()));
    assert_eq!(dex.get_target_amounts(&[B, A, C], 1_000, None), Ok(vec![1_000, 4_533, 43]));
    assert_eq!(
        dex.do_swap_with_exact_supply(&mut assets, &BOB, &[B, A, C], 1_000, 43, None),
        Ok(43)
    );
    assert_eq!(dex.get_liquidity(A, B), (45_467, 11_000));
    assert_eq!(dex.get_liquidity(A, C), (104_533, 957));
    assert_eq!(assets.balance_of(&A, &POOL), 150_000);
    assert_eq!(assets.balance_of(&A, &BOB), 1_000_000);
    assert_eq!(assets.balance_of(&B, &BOB), 999_000);
    assert_eq!(assets.balance_of(&C, &BOB), 1_000_043);
    assert_conserved_and_in_custody(&dex, &assets);

    assert_eq!(dex.get_supply_amounts(&[C, A, B], 1_000, None), Ok(vec![44, 4_561, 1_000]));
    assert_eq!(
        dex.do_swap_with_exact_target(&mut assets, &BOB, &[C, A, B], 1_000, 44, None),
        Ok(44)
    );
    assert_eq!(dex.get_liquidity(A, B), (50_028, 10_000));
    assert_eq!(dex.get_liquidity(A, C), (99_972, 1_001));
    assert_conserved_and_in_custody(&dex, &assets);
}

#[test]
fn path_there_and_back_costs_the_fee_twice() {
    let (mut dex, mut assets) = market();
    assert_eq!(dex.add_liquidity(&mut assets, &ALICE, A, B, 50_000, 10_000), Ok(()));
    // Both hops are priced on the reserves as they stand before the trade.
    assert_eq!(dex.get_target_amounts(&[A, B, A], 1_000, None), Ok(vec![1_000, 195, 953]));
    assert_eq!(
        dex.do_swap_with_exact_supply(&mut assets, &BOB, &[A, B, A], 1_000, 0, None),
        Ok(953)
    );
    assert_eq!(dex.get_liquidity(A, B), (50_047, 10_000));
    assert_eq!(assets.balance_of(&A, &BOB), 999_953);
    assert_eq!(assets.balance_of(&B, &BOB), 1_000_000);
    assert_conserved_and_in_custody(&dex, &assets);
}

#[test]
fn reserves_stop_at_zero_and_at_the_largest_amount() {
    let (mut dex, _assets) = market();
    dex.set_liquidity_pool(pair(A, B), (Balance::MAX - 5, 10));
    dex._swap(A, B, 6, 11);
    assert_eq!(dex.get_liquidity(A, B), (Balance::MAX, 0));
    dex._swap(B, A, 3, Balance::MAX);
    assert_eq!(dex.get_liquidity(A, B), (0, 3));
    // Assets that form no pair have no pool to move.
    dex._swap(A, A, 3, 1);
    dex._swap(A, share(A, B), 3, 1);
    assert_eq!(dex.get_liquidity(A, B), (0, 3));
    assert_eq!(dex.get_liquidity(A, A), (0, 0));
}

#[test]
fn swap_by_path_runs_the_hops_that_have_amounts() {
    let (mut dex, _assets) = market();
    dex.set_liquidity_pool(pair(A, B), (50_000, 10_000));
    dex.set_liquidity_pool(pair(A, C), (100_000, 10));
    dex._swap_by_path(&[B, A, C], &[4_000, 10_000]);
    assert_eq!(dex.get_liquidity(A, B), (40_000, 14_000));
    assert_eq!(dex.get_liquidity(A, C), (100_000, 10));
    dex._swap_by_path(&[B, A], &[1_000, 2_000, 3_000]);
    assert_eq!(dex.get_liquidity(A, B), (38_000, 15_000));
    dex._swap_by_path(&[B, A, C], &[7]);
    dex._swap_by_path(&[B], &[7, 8]);
    dex._swap_by_path(&[], &[]);
    assert_eq!(dex.get_liquidity(A, B), (38_000, 15_000));
    assert_eq!(dex.get_liquidity(A, C), (100_000, 10));
}

#[test]
fn supplies_and_custody_hold_through_a_day_of_trading() {
    let (mut dex, mut assets) = market();
    assert_conserved_and_in_custody(&dex, &assets);
    assert_eq!(dex.add_liquidity(&mut assets, &ALICE, A, B, 400_000, 100_000), Ok(()));
    assert_eq!(dex.add_liquidity(&mut assets, &ALICE, C, A, 30_000, 300_000), Ok(()));
    assert_eq!(dex.add_liquidity(&mut assets, &BOB, B, C, 50_000, 20_000), Ok(()));
    assert_conserved_and_in_custody(&dex, &assets);
    let paths: [&[AssetId]; 6] =
        [&[A, B], &[B, A, C], &[C, B], &[C, A, B], &[A, C, A], &[B, C, A]];
    for (round, path) in paths.iter().enumerate() {
        let amount = 1_000 + 777 * round as Balance;
        assert!(dex.do_swap_with_exact_supply(&mut assets, &BOB, path, amount, 1, None).is_ok());
        assert_conserved_and_in_custody(&dex, &assets);
        assert!(dex
            .do_swap_with_exact_target(&mut assets, &ALICE, path, amount / 7, Balance::MAX, None)
            .is_ok());
        assert_conserved_and_in_custody(&dex, &assets);
        assert_eq!(dex.add_liquidity(&mut assets, &BOB, path[0], path[1], 5_000, 5_000), Ok(()));
        assert_conserved_and_in_custody(&dex, &assets);
    }
    for (a, b) in PAIRS {
        for who in [ALICE, BOB] {
            let shares = assets.balance_of(&share(a, b), &who);
            if shares == 0 {
                continue;
            }
            assert_eq!(dex.remove_liquidity(&mut assets, &who, b, a, shares), Ok(()));
            assert_conserved_and_in_custody(&dex, &assets);
        }
        assert_eq!(assets.total_supply(&share(a, b)), 0);
        assert_eq!(dex.get_liquidity(a, b), (0, 0));
    }
    for id in ASSETS {
        assert_eq!(assets.balance_of(&id, &POOL), 0);
        assert_eq!(assets.balance_of(&id, &ALICE) + assets.balance_of(&id, &BOB), 2_000_000);
    }
}
