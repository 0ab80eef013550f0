//! The state of the exchange, and the rules of trading and of providing
//! liquidity.
//!
//! [`DexState`] holds the reserves of every pool, the pairs that are open for
//! trading, the fee, and the exchange's own account. The assets themselves
//! lie in a ledger, so the rules that move assets speak of a
//! [`LedgerState`] as well.

use crate::errors::Error;
use crate::events::EventView;
use crate::ledger::{saturating_difference, saturating_sum, LedgerState};
use crate::liquidity::{spec_increment, spec_withdrawal};
use crate::pricing::{
    spec_exceeds_impact_limit, spec_get_supply_amount, spec_get_target_amount, ExchangeFee, Ratio,
};
use crate::primitives::{AccountId, AssetId, Balance, TradingPair};
use vstd::prelude::*;

verus! {

/// The largest number of assets on a trading path.
pub const MAX_HOPS: usize = 3;

/// The state of the exchange.
///
/// `reserves` has, for an asset and its partner in a pool, the pool's reserve
/// of the asset, zero unless an operation has set it. `pooled` is, for each
/// asset, the sum of its reserves over all pools.
pub ghost struct DexState {
    pub reserves: Map<(AssetId, AssetId), Balance>,
    pub pooled: Map<AssetId, nat>,
    pub allowed: Set<TradingPair>,
    pub fee: ExchangeFee,
    pub account: AccountId,
}

impl DexState {
    /// The state of an exchange without pools, in which no pair is open for
    /// trading.
    pub open spec fn empty(account: AccountId, fee: ExchangeFee) -> DexState {
        DexState {
            reserves: Map::total(|k: (AssetId, AssetId)| 0u128),
            pooled: Map::total(|asset: AssetId| 0nat),
            allowed: Set::empty(),
            fee,
            account,
        }
    }

    /// The reserves of the pool of `pair`, in the pair's order.
    pub open spec fn liquidity_pool(self, pair: TradingPair) -> (Balance, Balance) {
        (self.reserves[(pair.first, pair.second)], self.reserves[(pair.second, pair.first)])
    }

    /// The reserves of the pool of `a` and `b`, that of `a` first: the
    /// reserves of their canonical pair, turned round where `b` is the
    /// smaller, and zero where they form no pair.
    pub open spec fn get_liquidity(self, a: AssetId, b: AssetId) -> (Balance, Balance) {
        match TradingPair::spec_new(a, b) {
            Some(pair) => if a == pair.first {
                self.liquidity_pool(pair)
            } else {
                (self.liquidity_pool(pair).1, self.liquidity_pool(pair).0)
            },
            None => (0, 0),
        }
    }

    /// Whether `a` and `b` form a pair that is open for trading.
    pub open spec fn is_allowed(self, a: AssetId, b: AssetId) -> bool {
        match TradingPair::spec_new(a, b) {
            Some(pair) => self.allowed.contains(pair),
            None => false,
        }
    }

    /// What the sum of reserves means for single reserves: two pools
    /// together, and so each alone, hold no more of an asset than is pooled.
    pub open spec fn coherent(self) -> bool {
        &&& forall|asset: AssetId, partner: AssetId| #[trigger]
            self.reserves[(asset, partner)] <= self.pooled[asset]
        &&& forall|asset: AssetId, p: AssetId, q: AssetId|
            p != q ==> #[trigger] self.reserves[(asset, p)] + #[trigger] self.reserves[(asset, q)]
                <= self.pooled[asset]
    }

    /// The state in which the pool of `asset` and `partner` holds `amount` of
    /// `asset`.
    pub open spec fn with_reserve(self, asset: AssetId, partner: AssetId, amount: Balance) -> DexState {
        DexState {
            reserves: self.reserves.insert((asset, partner), amount),
            pooled: self.pooled.insert(
                asset,
                (self.pooled[asset] - self.reserves[(asset, partner)] + amount) as nat,
            ),
            ..self
        }
    }

    /// The state in which the pool of `pair` holds `first` and `second`.
    pub open spec fn with_pool(self, pair: TradingPair, first: Balance, second: Balance) -> DexState {
        self.with_reserve(pair.first, pair.second, first).with_reserve(
            pair.second,
            pair.first,
            second,
        )
    }

    /// What one hop of an exact-supply trade pays out for `supply_amount`
    /// paid in, or why the hop is refused. The checks come in this order: the
    /// pair is open; neither reserve is empty; the hop pays out something; it
    /// does not take more of the target reserve than `limit` allows.
    pub open spec fn target_hop(
        self,
        supply: AssetId,
        target: AssetId,
        supply_amount: Balance,
        limit: Option<Ratio>,
    ) -> Result<Balance, Error> {
        let (supply_pool, target_pool) = self.get_liquidity(supply, target);
        let target_amount = spec_get_target_amount(
            self.fee,
            supply_pool,
            target_pool,
            supply_amount,
        );
        if !self.is_allowed(supply, target) {
            Err(Error::TradingPairNotAllowed)
        } else if supply_pool == 0 || target_pool == 0 {
            Err(Error::InsufficientLiquidity)
        } else if target_amount == 0 {
            Err(Error::ZeroTargetAmount)
        } else if limit is Some && spec_exceeds_impact_limit(
            target_amount,
            target_pool,
            limit->Some_0,
        ) {
            Err(Error::ExceedPriceImpactLimit)
        } else {
            Ok(target_amount)
        }
    }

    /// What must be paid into one hop of an exact-target trade for it to pay
    /// out `target_amount`, or why the hop is refused, with the checks in the
    /// order of [`Self::target_hop`].
    pub open spec fn supply_hop(
        self,
        supply: AssetId,
        target: AssetId,
        target_amount: Balance,
        limit: Option<Ratio>,
    ) -> Result<Balance, Error> {
        let (supply_pool, target_pool) = self.get_liquidity(supply, target);
        let supply_amount = spec_get_supply_amount(
            self.fee,
            supply_pool,
            target_pool,
            target_amount,
        );
        if !self.is_allowed(supply, target) {
            Err(Error::TradingPairNotAllowed)
        } else if supply_pool == 0 || target_pool == 0 {
            Err(Error::InsufficientLiquidity)
        } else if supply_amount == 0 {
            Err(Error::ZeroSupplyAmount)
        } else if limit is Some && spec_exceeds_impact_limit(
            target_amount,
            target_pool,
            limit->Some_0,
        ) {
            Err(Error::ExceedPriceImpactLimit)
        } else {
            Ok(supply_amount)
        }
    }

    /// The amounts at the first `hops + 1` assets of `path` for
    /// `supply_amount` paid in at its start, or the error of the first hop
    /// that is refused.
    pub open spec fn target_amounts_upto(
        self,
        path: Seq<AssetId>,
        supply_amount: Balance,
        limit: Option<Ratio>,
        hops: nat,
    ) -> Result<Seq<Balance>, Error>
        recommends
            hops < path.len(),
        decreases hops,
    {
        if hops == 0 {
            Ok(seq![supply_amount])
        } else {
            match self.target_amounts_upto(path, supply_amount, limit, (hops - 1) as nat) {
                Err(e) => Err(e),
                Ok(amounts) => match self.target_hop(
                    path[hops - 1],
                    path[hops as int],
                    amounts.last(),
                    limit,
                ) {
                    Err(e) => Err(e),
                    Ok(target_amount) => Ok(amounts.push(target_amount)),
                },
            }
        }
    }

    /// The amount at each asset of `path` for `supply_amount` paid in at its
    /// start, or why the trade is refused: the length of the path, else the
    /// first hop that is refused.
    pub open spec fn get_target_amounts(
        self,
        path: Seq<AssetId>,
        supply_amount: Balance,
        limit: Option<Ratio>,
    ) -> Result<Seq<Balance>, Error> {
        if path.len() < 2 || path.len() > MAX_HOPS {
            Err(Error::InvalidTradingPathLength)
        } else {
            self.target_amounts_upto(path, supply_amount, limit, (path.len() - 1) as nat)
        }
    }

    /// The amounts at the last `hops + 1` assets of `path` for
    /// `target_amount` paid out at its end, or the error of the hop nearest
    /// the end that is refused.
    pub open spec fn supply_amounts_back(
        self,
        path: Seq<AssetId>,
        target_amount: Balance,
        limit: Option<Ratio>,
        hops: nat,
    ) -> Result<Seq<Balance>, Error>
        recommends
            hops < path.len(),
        decreases hops,
    {
        if hops == 0 {
            Ok(seq![target_amount])
        } else {
            match self.supply_amounts_back(path, target_amount, limit, (hops - 1) as nat) {
                Err(e) => Err(e),
                Ok(amounts) => match self.supply_hop(
                    path[path.len() - 1 - hops],
                    path[path.len() - hops],
                    amounts.first(),
                    limit,
                ) {
                    Err(e) => Err(e),
                    Ok(supply_amount) => Ok(seq![supply_amount] + amounts),
                },
            }
        }
    }

    /// The amount at each asset of `path` for `target_amount` paid out at
    /// its end, or why the trade is refused: the length of the path, else the
    /// hop nearest the end that is refused.
    pub open spec fn get_supply_amounts(
        self,
        path: Seq<AssetId>,
        target_amount: Balance,
        limit: Option<Ratio>,
    ) -> Result<Seq<Balance>, Error> {
        if path.len() < 2 || path.len() > MAX_HOPS {
            Err(Error::InvalidTradingPathLength)
        } else {
            self.supply_amounts_back(path, target_amount, limit, (path.len() - 1) as nat)
        }
    }

    /// The state after one hop: the pool of the two assets holds
    /// `supply_increment` more of `supply` and `target_decrement` less of
    /// `target`, never more than the largest amount nor less than zero.
    /// Nothing changes where the two assets form no pair.
    pub open spec fn swap(
        self,
        supply: AssetId,
        target: AssetId,
        supply_increment: Balance,
        target_decrement: Balance,
    ) -> DexState {
        if TradingPair::spec_new(supply, target) is Some {
            self.with_reserve(
                supply,
                target,
                saturating_sum(self.reserves[(supply, target)], supply_increment),
            ).with_reserve(
                target,
                supply,
                saturating_difference(self.reserves[(target, supply)], target_decrement),
            )
        } else {
            self
        }
    }

    /// The state after the first `hops` hops of `path`, hop `i` taking
    /// `amounts[i]` and paying `amounts[i + 1]`.
    pub open spec fn swap_by_path(self, path: Seq<AssetId>, amounts: Seq<Balance>, hops: nat) -> DexState
        decreases hops,
    {
        if hops == 0 {
            self
        } else {
            self.swap_by_path(path, amounts, (hops - 1) as nat).swap(
                path[hops - 1],
                path[hops as int],
                amounts[hops - 1],
                amounts[hops as int],
            )
        }
    }

    /// The number of hops for which `path` has the assets and `amounts` the
    /// amounts.
    pub open spec fn hops_of(path: Seq<AssetId>, amounts: Seq<Balance>) -> nat {
        if path.len() == 0 || amounts.len() == 0 {
            0
        } else if path.len() <= amounts.len() {
            (path.len() - 1) as nat
        } else {
            (amounts.len() - 1) as nat
        }
    }

    /// Why the ledger refuses to settle a trade along `path` that takes
    /// `supply_amount` and pays `target_amount`, if it does: the trader lacks
    /// what is to be paid in, or the exchange's account lacks what is to be
    /// paid out.
    pub open spec fn settlement_error(
        self,
        ledger: LedgerState,
        who: AccountId,
        path: Seq<AssetId>,
        supply_amount: Balance,
        target_amount: Balance,
    ) -> Option<Error> {
        match ledger.transfer_error(path.first(), who, supply_amount) {
            Some(e) => Some(e),
            None => ledger.transfer(
                path.first(),
                who,
                self.account,
                supply_amount,
            ).transfer_error(path.last(), self.account, target_amount),
        }
    }

    /// The ledger after a trade was settled: the trader has paid
    /// `supply_amount` of the first asset of `path` to the exchange's account
    /// and got `target_amount` of the last from it, and the trade is reported.
    pub open spec fn settle(
        self,
        ledger: LedgerState,
        who: AccountId,
        path: Seq<AssetId>,
        supply_amount: Balance,
        target_amount: Balance,
    ) -> LedgerState {
        ledger.transfer(path.first(), who, self.account, supply_amount).transfer(
            path.last(),
            self.account,
            who,
            target_amount,
        ).emit(EventView::Swap(who, path, supply_amount, target_amount))
    }

    /// The amounts of an exact-supply trade, or why it is refused: whatever
    /// refuses its amounts, a payout below `min_target_amount`, or the ledger.
    pub open spec fn exact_supply_trade(
        self,
        ledger: LedgerState,
        who: AccountId,
        path: Seq<AssetId>,
        supply_amount: Balance,
        min_target_amount: Balance,
        limit: Option<Ratio>,
    ) -> Result<Seq<Balance>, Error> {
        match self.get_target_amounts(path, supply_amount, limit) {
            Err(e) => Err(e),
            Ok(amounts) => if amounts.last() < min_target_amount {
                Err(Error::InsufficientTargetAmount)
            } else {
                match self.settlement_error(ledger, who, path, supply_amount, amounts.last()) {
                    Some(e) => Err(e),
                    None => Ok(amounts),
                }
            },
        }
    }

    /// The amounts of an exact-target trade, or why it is refused: whatever
    /// refuses its amounts, a price above `max_supply_amount`, or the ledger.
    pub open spec fn exact_target_trade(
        self,
        ledger: LedgerState,
        who: AccountId,
        path: Seq<AssetId>,
        target_amount: Balance,
        max_supply_amount: Balance,
        limit: Option<Ratio>,
    ) -> Result<Seq<Balance>, Error> {
        match self.get_supply_amounts(path, target_amount, limit) {
            Err(e) => Err(e),
            Ok(amounts) => if amounts.first() > max_supply_amount {
                Err(Error::ExcessiveSupplyAmount)
            } else {
                match self.settlement_error(ledger, who, path, amounts.first(), target_amount) {
                    Some(e) => Err(e),
                    None => Ok(amounts),
                }
            },
        }
    }

    /// What adding liquidity to the pool of `a` and `b` takes and gives: the
    /// amount taken of `a`, the amount taken of `b`, and the shares minted.
    pub open spec fn liquidity_increment(
        self,
        ledger: LedgerState,
        a: AssetId,
        b: AssetId,
        max_a: Balance,
        max_b: Balance,
    ) -> Option<(Balance, Balance, Balance)> {
        match TradingPair::spec_new(a, b) {
            Some(pair) => spec_increment(
                self.get_liquidity(a, b).0,
                self.get_liquidity(a, b).1,
                ledger.total_supply(pair.spec_share_id()),
                max_a,
                max_b,
                a == pair.first,
            ),
            None => None,
        }
    }

    /// Whether the shares that adding liquidity would mint leave the number
    /// of all shares within the largest amount there is.
    pub open spec fn shares_fit(
        self,
        ledger: LedgerState,
        a: AssetId,
        b: AssetId,
        max_a: Balance,
        max_b: Balance,
    ) -> bool {
        match (TradingPair::spec_new(a, b), self.liquidity_increment(ledger, a, b, max_a, max_b)) {
            (Some(pair), Some((_, _, shares))) => ledger.total_supply(pair.spec_share_id()) + shares
                <= u128::MAX,
            _ => true,
        }
    }

    /// Why adding liquidity is refused, if it is: the pair is not open, one
    /// of the amounts would be zero, or the provider lacks what is taken.
    pub open spec fn add_liquidity_error(
        self,
        ledger: LedgerState,
        who: AccountId,
        a: AssetId,
        b: AssetId,
        max_a: Balance,
        max_b: Balance,
    ) -> Option<Error> {
        if !self.is_allowed(a, b) {
            Some(Error::TradingPairNotAllowed)
        } else {
            match self.liquidity_increment(ledger, a, b, max_a, max_b) {
                None => Some(Error::InvalidLiquidityIncrement),
                Some((use_a, use_b, shares)) => if ledger.balance_of(a, who) < use_a
                    || ledger.balance_of(b, who) < use_b {
                    Some(Error::BalanceLow)
                } else {
                    None
                },
            }
        }
    }

    /// The ledger after liquidity was added: the provider has paid both
    /// amounts to the exchange's account and got the shares, and the
    /// provision is reported.
    pub open spec fn provide(
        self,
        ledger: LedgerState,
        who: AccountId,
        a: AssetId,
        b: AssetId,
        use_a: Balance,
        use_b: Balance,
        shares: Balance,
    ) -> LedgerState {
        let share_id = TradingPair::spec_new(a, b)->Some_0.spec_share_id();
        ledger.transfer(a, who, self.account, use_a).transfer(
            b,
            who,
            self.account,
            use_b,
        ).register_share(share_id).mint(share_id, who, shares).emit(
            EventView::AddLiquidity(who, a, use_a, b, use_b, shares),
        )
    }

    /// The state after the pool of `a` and `b` took in `use_a` and `use_b`.
    pub open spec fn deposit(self, a: AssetId, b: AssetId, use_a: Balance, use_b: Balance) -> DexState {
        self.with_reserve(a, b, saturating_sum(self.reserves[(a, b)], use_a)).with_reserve(
            b,
            a,
            saturating_sum(self.reserves[(b, a)], use_b),
        )
    }

    /// What `share_amount` shares of the pool of `a` and `b` are redeemed
    /// for: the amount paid out of `a` and the amount paid out of `b`.
    pub open spec fn liquidity_withdrawal(
        self,
        ledger: LedgerState,
        a: AssetId,
        b: AssetId,
        share_amount: Balance,
    ) -> Option<(Balance, Balance)> {
        match TradingPair::spec_new(a, b) {
            Some(pair) => spec_withdrawal(
                self.get_liquidity(a, b).0,
                self.get_liquidity(a, b).1,
                ledger.total_supply(pair.spec_share_id()),
                share_amount,
            ),
            None => None,
        }
    }

    /// Why removing liquidity is refused, if it is: the two assets form no
    /// pair, there is nothing to redeem, the provider lacks the shares, or
    /// the exchange's account lacks what is to be paid out.
    pub open spec fn remove_liquidity_error(
        self,
        ledger: LedgerState,
        who: AccountId,
        a: AssetId,
        b: AssetId,
        share_amount: Balance,
    ) -> Option<Error> {
        match TradingPair::spec_new(a, b) {
            None => Some(Error::InvalidCurrencyId),
            Some(pair) => match self.liquidity_withdrawal(ledger, a, b, share_amount) {
                None => Some(Error::InvalidLiquidityIncrement),
                Some((out_a, out_b)) => match ledger.burn_error(
                    pair.spec_share_id(),
                    who,
                    share_amount,
                ) {
                    Some(e) => Some(e),
                    None => if ledger.balance_of(a, self.account) < out_a || ledger.balance_of(
                        b,
                        self.account,
                    ) < out_b {
                        Some(Error::BalanceLow)
                    } else {
                        None
                    },
                },
            },
        }
    }

    /// The ledger after liquidity was removed: the provider's shares are
    /// burned, the exchange's account has paid out both amounts, and the
    /// removal is reported.
    pub open spec fn redeem(
        self,
        ledger: LedgerState,
        who: AccountId,
        a: AssetId,
        b: AssetId,
        out_a: Balance,
        out_b: Balance,
        share_amount: Balance,
    ) -> LedgerState {
        let share_id = TradingPair::spec_new(a, b)->Some_0.spec_share_id();
        ledger.burn(share_id, who, share_amount).pay(a, self.account, who, out_a).pay(
            b,
            self.account,
            who,
            out_b,
        ).emit(EventView::RemoveLiquidity(who, a, out_a, b, out_b, share_amount))
    }

    /// The state after the pool of `a` and `b` paid out `out_a` and `out_b`.
    pub open spec fn withdraw(self, a: AssetId, b: AssetId, out_a: Balance, out_b: Balance) -> DexState {
        self.with_reserve(a, b, saturating_difference(self.reserves[(a, b)], out_a)).with_reserve(
            b,
            a,
            saturating_difference(self.reserves[(b, a)], out_b),
        )
    }

    /// Pool custody: of every asset, the exchange's account holds in the
    /// ledger exactly what the pools hold of it in reserve.
    pub open spec fn custody(self, ledger: LedgerState) -> bool {
        forall|asset: AssetId| ledger.balances[(asset, self.account)] == #[trigger] self.pooled[asset]
    }

    /// Hop `i` of `path` is between the two assets of a pair, and pays out
    /// something, but no more than its pool holds.
    pub open spec fn hop_within_reserves(
        self,
        path: Seq<AssetId>,
        amounts: Seq<Balance>,
        i: int,
    ) -> bool {
        &&& TradingPair::spec_new(path[i], path[i + 1]) is Some
        &&& 0 < amounts[i + 1] <= self.reserves[(path[i + 1], path[i])]
    }

    /// The pool of `pair` has no reserves unless it has shares.
    pub open spec fn pool_is_backed(self, ledger: LedgerState, pair: TradingPair) -> bool {
        ledger.total_supply(pair.spec_share_id()) == 0 ==> self.liquidity_pool(pair) == (
            0u128,
            0u128,
        )
    }

    /// No pool has reserves without having shares.
    pub open spec fn backed(self, ledger: LedgerState) -> bool {
        forall|pair: TradingPair| pair.valid() ==> #[trigger] self.pool_is_backed(ledger, pair)
    }

    /// Every hop of `path` is between the two assets of a pair, and pays out
    /// something, but no more than its pool holds.
    pub open spec fn hops_within_reserves(self, path: Seq<AssetId>, amounts: Seq<Balance>) -> bool {
        forall|i: int|
            0 <= i < path.len() - 1 ==> #[trigger] self.hop_within_reserves(path, amounts, i)
    }

    /// What hop `i` of `path` pays out for `amounts[i]`.
    pub open spec fn target_hop_at(
        self,
        path: Seq<AssetId>,
        amounts: Seq<Balance>,
        limit: Option<Ratio>,
        i: int,
    ) -> Result<Balance, Error> {
        self.target_hop(path[i], path[i + 1], amounts[i], limit)
    }

    /// What hop `offset + i` of `path` asks for `amounts[i + 1]`.
    pub open spec fn supply_hop_at(
        self,
        path: Seq<AssetId>,
        amounts: Seq<Balance>,
        limit: Option<Ratio>,
        offset: int,
        i: int,
    ) -> Result<Balance, Error> {
        self.supply_hop(path[offset + i], path[offset + i + 1], amounts[i + 1], limit)
    }
}

} // verus!
