//! The exchange: pools of two assets each, priced by the product of their
//! reserves.
//!
//! [`DexModule`] keeps the reserves and the set of pairs that are open for
//! trading. The assets themselves lie in a ledger, under the exchange's own
//! account, and every operation that moves assets takes the ledger along. The
//! contract of each operation names the [`DexState`] and the [`LedgerState`]
//! that it leaves behind.

use crate::assets::Module;
use crate::errors::Error;
use crate::events::Event;
use crate::exchange::{DexState, MAX_HOPS};
use crate::ledger::LedgerState;
use crate::liquidity::{increment, withdrawal};
use crate::pricing::{
    exceeds_impact_limit, get_supply_amount, get_target_amount, spec_get_supply_amount,
    spec_get_target_amount, ExchangeFee, Ratio,
};
use crate::primitives::{AccountId, AssetId, Balance, TradingPair};
use crate::table::{
    distinct_keys, lemma_amount_within_sum, lemma_lookup_at, lemma_sum_of_single,
    lemma_two_amounts_within_sum, lookup, reserve_key, sum_of, Entry, Key, Table,
};
use vstd::prelude::*;

verus! {

/// The exchange.
pub struct DexModule {
    reserves: Table,
    allowed: Vec<TradingPair>,
    fee: ExchangeFee,
    account: AccountId,
}

impl View for DexModule {
    type V = DexState;

    closed spec fn view(&self) -> DexState {
        DexState {
            reserves: Map::total(|k: (AssetId, AssetId)| self.reserves.spec_get(reserve_key(k.0, k.1))),
            pooled: Map::total(|asset: AssetId| self.reserves.spec_sum(asset)),
            allowed: Set::new(|pair: TradingPair| self.allowed@.contains(pair)),
            fee: self.fee,
            account: self.account,
        }
    }
}

impl DexModule {
    /// The exchange's invariant: no reserve is recorded twice, every reserve
    /// is recorded under an asset and its partner alone, and the pairs open
    /// for trading are canonical and listed once each.
    pub closed spec fn wf(&self) -> bool {
        &&& self.reserves.wf()
        &&& forall|key: Key| #[trigger] self.reserves.has_key(key) ==> key.second == 0
        &&& self.allowed@.no_duplicates()
        &&& forall|i: int| 0 <= i < self.allowed@.len() ==> (#[trigger] self.allowed@[i]).valid()
    }

    /// The reserves, one entry for each asset and partner that has one: what
    /// the state's reserves and pooled sums are taken from.
    pub closed spec fn pools(&self) -> Seq<Entry> {
        self.reserves@
    }

    /// What the state's reserves and sums mean: every entry is that of an
    /// asset and its partner in a pool, no asset and partner have two
    /// entries, each reserve is the amount that the list has for the asset
    /// and the partner, and what is pooled of an asset is the sum of its
    /// reserves.
    pub proof fn lemma_pooled_is_sum_of_reserves(&self, asset: AssetId, partner: AssetId)
        requires
            self.wf(),
        ensures
            distinct_keys(self.pools()),
            forall|i: int|
                0 <= i < self.pools().len() ==> (#[trigger] self.pools()[i]).key == reserve_key(
                    self.pools()[i].key.asset,
                    self.pools()[i].key.first,
                ),
            self@.reserves[(asset, partner)] == lookup(self.pools(), reserve_key(asset, partner)),
            self@.pooled[asset] == sum_of(self.pools(), asset),
    {
        assert forall|i: int| 0 <= i < self.pools().len() implies (#[trigger] self.pools()[i]).key
            == reserve_key(self.pools()[i].key.asset, self.pools()[i].key.first) by {
            assert(self.reserves.has_key(self.pools()[i].key));
        }
    }

    /// What the invariant gives of the state.
    pub proof fn lemma_wf(&self)
        requires
            self.wf(),
        ensures
            self@.coherent(),
            forall|pair: TradingPair| #[trigger] self@.allowed.contains(pair) ==> pair.valid(),
    {
        let s = self@;
        assert forall|asset: AssetId, partner: AssetId| #[trigger]
            s.reserves[(asset, partner)] <= s.pooled[asset] by {
            lemma_amount_within_sum(self.reserves@, reserve_key(asset, partner));
        }
        assert forall|asset: AssetId, p: AssetId, q: AssetId| p != q implies #[trigger]
            s.reserves[(asset, p)] + #[trigger] s.reserves[(asset, q)] <= s.pooled[asset] by {
            lemma_two_amounts_within_sum(
                self.reserves@,
                reserve_key(asset, p),
                reserve_key(asset, q),
            );
        }
    }

    /// Under pool custody, where only the pool of `a` and `b` holds any of
    /// `a`, the exchange's account holds exactly that pool's reserve of `a`.
    pub proof fn lemma_single_pool_custody(&self, ledger: LedgerState, a: AssetId, b: AssetId)
        requires
            self.wf(),
            self@.custody(ledger),
            forall|partner: AssetId| partner != b ==> #[trigger] self@.reserves[(a, partner)] == 0,
        ensures
            ledger.balance_of(a, self@.account) == self@.reserves[(a, b)],
    {
        let entries = self.reserves@;
        assert forall|i: int|
            0 <= i < entries.len() && entries[i].key.asset == a && entries[i].key != reserve_key(
                a,
                b,
            ) implies (#[trigger] entries[i]).amount == 0 by {
            let partner = entries[i].key.first;
            assert(self.reserves.has_key(entries[i].key));
            assert(entries[i].key == reserve_key(a, partner));
            lemma_lookup_at(entries, i);
            assert(self@.reserves[(a, partner)] == 0);
        }
        lemma_sum_of_single(entries, reserve_key(a, b));
        assert(ledger.balances[(a, self@.account)] == self@.pooled[a]);
    }

    /// An exchange without pools, in which no pair is open for trading. Its
    /// assets will lie under `account`; `fee` is taken from what is paid into
    /// a pool.
    pub fn new(account: AccountId, fee: ExchangeFee) -> (r: DexModule)
        ensures
            r.wf(),
            r@ == DexState::empty(account, fee),
    {
        let r = DexModule { reserves: Table::new(), allowed: Vec::new(), fee, account };
        proof {
            let expected = DexState::empty(account, fee);
            assert(r@.allowed =~= expected.allowed);
            assert(r@.reserves =~= expected.reserves);
            assert(r@.pooled =~= expected.pooled);
        }
        r
    }

    /// The account under which the pooled assets lie.
    pub fn account_id(&self) -> (r: AccountId)
        ensures
            r == self@.account,
    {
        self.account
    }

    /// The fee taken from what is paid into a pool.
    pub fn exchange_fee(&self) -> (r: ExchangeFee)
        ensures
            r == self@.fee,
    {
        self.fee
    }

    /// Where `pair` stands among the pairs open for trading, if it does.
    fn allowed_position(&self, pair: TradingPair) -> (r: Option<usize>)
        ensures
            match r {
                Some(i) => i < self.allowed@.len() && self.allowed@[i as int] == pair,
                None => !self.allowed@.contains(pair),
            },
    {
        let mut i: usize = 0;
        while i < self.allowed.len()
            invariant
                i <= self.allowed@.len(),
                forall|j: int| 0 <= j < i ==> self.allowed@[j] != pair,
            decreases self.allowed@.len() - i,
        {
            if self.allowed[i] == pair {
                return Some(i);
            }
            i += 1;
        }
        None
    }

    /// Whether `pair` is open for trading.
    pub fn is_trading_pair_enabled(&self, pair: TradingPair) -> (r: bool)
        ensures
            r == self@.allowed.contains(pair),
    {
        self.allowed_position(pair).is_some()
    }

    /// Opens `pair` for trading. A pair that is not canonical is refused.
    pub fn enable_trading_pair(&mut self, pair: TradingPair) -> (r: Result<(), Error>)
        requires
            old(self).wf(),
        ensures
            final(self).wf(),
            pair.valid() ==> r == Ok::<(), Error>(()) && final(self)@ == (DexState {
                allowed: old(self)@.allowed.insert(pair),
                ..old(self)@
            }),
            !pair.valid() ==> r == Err::<(), Error>(Error::InvalidCurrencyId) && final(self)@ == old(self)@,
    {
        if !pair.is_valid() {
            return Err(Error::InvalidCurrencyId);
        }
        let ghost before = *self;
        if self.allowed_position(pair).is_none() {
            self.allowed.push(pair);
            proof {
                assert forall|p: TradingPair| self.allowed@.contains(p) == (p == pair
                    || before.allowed@.contains(p)) by {
                    if before.allowed@.contains(p) {
                        let i = choose|i: int| 0 <= i < before.allowed@.len() && before.allowed@[i] == p;
                        assert(self.allowed@[i] == p);
                    }
                    if p == pair {
                        assert(self.allowed@[before.allowed@.len() as int] == p);
                    }
                }
            }
        }
        assert(self@.allowed =~= before@.allowed.insert(pair));
        assert(self@.reserves =~= before@.reserves);
        assert(self@.pooled =~= before@.pooled);
        Ok(())
    }

    /// Closes `pair` for trading. Its pool keeps its reserves.
    pub fn disable_trading_pair(&mut self, pair: TradingPair)
        requires
            old(self).wf(),
        ensures
            final(self).wf(),
            final(self)@ == (DexState { allowed: old(self)@.allowed.remove(pair), ..old(self)@ }),
    {
        let ghost before = *self;
        match self.allowed_position(pair) {
            Some(i) => {
                self.allowed.remove(i);
                proof {
                    assert forall|p: TradingPair| self.allowed@.contains(p) == (p != pair
                        && before.allowed@.contains(p)) by {
                        if before.allowed@.contains(p) && p != pair {
                            let j = choose|j: int|
                                0 <= j < before.allowed@.len() && before.allowed@[j] == p;
                            if j < i {
                                assert(self.allowed@[j] == p);
                            } else {
                                assert(self.allowed@[j - 1] == p);
                            }
                        }
                        if self.allowed@.contains(p) {
                            let j = choose|j: int| 0 <= j < self.allowed@.len() && self.allowed@[j] == p;
                            if j < i {
                                assert(before.allowed@[j] == p);
                            } else {
                                assert(before.allowed@[j + 1] == p);
                            }
                        }
                    }
                }
            },
            None => {},
        }
        assert(self@.allowed =~= before@.allowed.remove(pair));
        assert(self@.reserves =~= before@.reserves);
        assert(self@.pooled =~= before@.pooled);
    }

    /// The reserves of the pool of `pair`, in the pair's order.
    pub fn liquidity_pool(&self, pair: TradingPair) -> (r: (Balance, Balance))
        requires
            self.wf(),
        ensures
            r == self@.liquidity_pool(pair),
    {
        (
            self.reserves.get(Key { asset: pair.first, first: pair.second, second: 0 }),
            self.reserves.get(Key { asset: pair.second, first: pair.first, second: 0 }),
        )
    }

    /// Sets the reserves of the pool of `pair`, in the pair's order. The
    /// assets in the ledger are not touched.
    pub fn set_liquidity_pool(&mut self, pair: TradingPair, reserves: (Balance, Balance))
        requires
            old(self).wf(),
        ensures
            final(self).wf(),
            final(self)@ == old(self)@.with_pool(pair, reserves.0, reserves.1),
    {
        self.set_reserve(pair.first, pair.second, reserves.0);
        self.set_reserve(pair.second, pair.first, reserves.1);
    }

    /// Sets the reserve of `asset` in the pool that it shares with `partner`.
    fn set_reserve(&mut self, asset: AssetId, partner: AssetId, amount: Balance)
        requires
            old(self).wf(),
        ensures
            final(self).wf(),
            final(self)@ == old(self)@.with_reserve(asset, partner, amount),
    {
        let ghost before = *self;
        self.reserves.set(Key { asset, first: partner, second: 0 }, amount);
        proof {
            let expected = before@.with_reserve(asset, partner, amount);
            assert(self@.reserves =~= expected.reserves);
            assert(self@.pooled =~= expected.pooled);
            assert(self@.allowed =~= expected.allowed);
        }
    }

    /// The reserves of the pool of `a` and `b`, that of `a` first; zero where
    /// they form no pair or the pool is empty.
    pub fn get_liquidity(&self, a: AssetId, b: AssetId) -> (r: (Balance, Balance))
        requires
            self.wf(),
        ensures
            r == self@.get_liquidity(a, b),
            r == (self@.get_liquidity(b, a).1, self@.get_liquidity(b, a).0),
    {
        match TradingPair::new(a, b) {
            Some(pair) => {
                let pool: (Balance, Balance) = self.liquidity_pool(pair);
                if a == pair.first {
                    pool
                } else {
                    (pool.1, pool.0)
                }
            },
            None => (0, 0),
        }
    }

    /// What a hop pays out for `supply_amount` paid in, at this exchange's
    /// fee.
    pub fn get_target_amount(
        &self,
        supply_pool: Balance,
        target_pool: Balance,
        supply_amount: Balance,
    ) -> (r: Balance)
        ensures
            r == spec_get_target_amount(self@.fee, supply_pool, target_pool, supply_amount),
    {
        get_target_amount(self.fee, supply_pool, target_pool, supply_amount)
    }

    /// What must be paid into a hop for it to pay out `target_amount`, at
    /// this exchange's fee.
    pub fn get_supply_amount(
        &self,
        supply_pool: Balance,
        target_pool: Balance,
        target_amount: Balance,
    ) -> (r: Balance)
        ensures
            r == spec_get_supply_amount(self@.fee, supply_pool, target_pool, target_amount),
    {
        get_supply_amount(self.fee, supply_pool, target_pool, target_amount)
    }

    /// Whether `a` and `b` form a pair that is open for trading.
    fn is_allowed(&self, a: AssetId, b: AssetId) -> (r: bool)
        ensures
            r == self@.is_allowed(a, b),
    {
        match TradingPair::new(a, b) {
            Some(pair) => self.allowed_position(pair).is_some(),
            None => false,
        }
    }

    /// One hop of an exact-supply trade.
    fn target_hop(
        &self,
        supply: AssetId,
        target: AssetId,
        supply_amount: Balance,
        limit: Option<Ratio>,
    ) -> (r: Result<Balance, Error>)
        requires
            self.wf(),
        ensures
            r == self@.target_hop(supply, target, supply_amount, limit),
    {
        let pools: (Balance, Balance) = self.get_liquidity(supply, target);
        if !self.is_allowed(supply, target) {
            return Err(Error::TradingPairNotAllowed);
        }
        if pools.0 == 0 || pools.1 == 0 {
            return Err(Error::InsufficientLiquidity);
        }
        let target_amount: Balance = get_target_amount(self.fee, pools.0, pools.1, supply_amount);
        if target_amount == 0 {
            return Err(Error::ZeroTargetAmount);
        }
        match limit {
            Some(most) => {
                if exceeds_impact_limit(target_amount, pools.1, most) {
                    return Err(Error::ExceedPriceImpactLimit);
                }
            },
            None => {},
        }
        Ok(target_amount)
    }

    /// One hop of an exact-target trade.
    fn supply_hop(
        &self,
        supply: AssetId,
        target: AssetId,
        target_amount: Balance,
        limit: Option<Ratio>,
    ) -> (r: Result<Balance, Error>)
        requires
            self.wf(),
        ensures
            r == self@.supply_hop(supply, target, target_amount, limit),
    {
        let pools: (Balance, Balance) = self.get_liquidity(supply, target);
        if !self.is_allowed(supply, target) {
            return Err(Error::TradingPairNotAllowed);
        }
        if pools.0 == 0 || pools.1 == 0 {
            return Err(Error::InsufficientLiquidity);
        }
        let supply_amount: Balance = get_supply_amount(self.fee, pools.0, pools.1, target_amount);
        if supply_amount == 0 {
            return Err(Error::ZeroSupplyAmount);
        }
        match limit {
            Some(most) => {
                if exceeds_impact_limit(target_amount, pools.1, most) {
                    return Err(Error::ExceedPriceImpactLimit);
                }
            },
            None => {},
        }
        Ok(supply_amount)
    }

    /// The amount at each asset of `path` for `supply_amount` paid in at its
    /// start. A path of fewer than two assets or of more than [`MAX_HOPS`]
    /// is refused, then the first hop that is: for a pair that is not open,
    /// an empty reserve, a payout of zero, or a payout that is a larger part
    /// of the target reserve than `price_impact_limit`.
    pub fn get_target_amounts(
        &self,
        path: &[AssetId],
        supply_amount: Balance,
        price_impact_limit: Option<Ratio>,
    ) -> (r: Result<Vec<Balance>, Error>)
        requires
            self.wf(),
        ensures
            match self@.get_target_amounts(path@, supply_amount, price_impact_limit) {
                Ok(amounts) => r matches Ok(v) && v@ == amounts && v@.len() == path@.len(),
                Err(e) => r matches Err(f) && f == e,
            },
    {
        let n: usize = path.len();
        if n < 2 || n > MAX_HOPS {
            return Err(Error::InvalidTradingPathLength);
        }
        let mut amounts: Vec<Balance> = Vec::new();
        amounts.push(supply_amount);
        let mut i: usize = 0;
        while i + 1 < n
            invariant
                self.wf(),
                n == path@.len(),
                2 <= n <= MAX_HOPS,
                i < n,
                amounts@.len() == i + 1,
                self@.target_amounts_upto(path@, supply_amount, price_impact_limit, i as nat) == Ok::<
                    Seq<Balance>,
                    Error,
                >(amounts@),
            decreases n - i,
        {
            match self.target_hop(path[i], path[i + 1], amounts[i], price_impact_limit) {
                Err(e) => {
                    proof {
                        self@.lemma_target_error_stays(
                            path@,
                            supply_amount,
                            price_impact_limit,
                            (i + 1) as nat,
                            (n - 1) as nat,
                        );
                    }
                    return Err(e);
                },
                Ok(target_amount) => {
                    amounts.push(target_amount);
                },
            }
            i += 1;
        }
        Ok(amounts)
    }

    /// The amount at each asset of `path` for `target_amount` paid out at
    /// its end. A path of fewer than two assets or of more than
    /// [`MAX_HOPS`] is refused, then the hop nearest the end that is: for a
    /// pair that is not open, an empty reserve, a price of zero, or a payout
    /// that is a larger part of the target reserve than
    /// `price_impact_limit`.
    pub fn get_supply_amounts(
        &self,
        path: &[AssetId],
        target_amount: Balance,
        price_impact_limit: Option<Ratio>,
    ) -> (r: Result<Vec<Balance>, Error>)
        requires
            self.wf(),
        ensures
            match self@.get_supply_amounts(path@, target_amount, price_impact_limit) {
                Ok(amounts) => r matches Ok(v) && v@ == amounts && v@.len() == path@.len(),
                Err(e) => r matches Err(f) && f == e,
            },
    {
        let n: usize = path.len();
        if n < 2 || n > MAX_HOPS {
            return Err(Error::InvalidTradingPathLength);
        }
        let mut amounts: Vec<Balance> = Vec::new();
        let mut k: usize = 0;
        while k < n
            invariant
                k <= n,
                amounts@.len() == k,
                forall|j: int| 0 <= j < k ==> amounts@[j] == target_amount,
            decreases n - k,
        {
            amounts.push(target_amount);
            k += 1;
        }
        let mut i: usize = n - 1;
        proof {
            assert(amounts@.subrange(i as int, n as int) =~= seq![target_amount]);
        }
        while i > 0
            invariant
                self.wf(),
                n == path@.len(),
                2 <= n <= MAX_HOPS,
                i < n,
                amounts@.len() == n,
                self@.supply_amounts_back(
                    path@,
                    target_amount,
                    price_impact_limit,
                    (n - 1 - i) as nat,
                ) == Ok::<Seq<Balance>, Error>(amounts@.subrange(i as int, n as int)),
            decreases i,
        {
            let ghost tail = amounts@.subrange(i as int, n as int);
            match self.supply_hop(path[i - 1], path[i], amounts[i], price_impact_limit) {
                Err(e) => {
                    proof {
                        self@.lemma_supply_error_stays(
                            path@,
                            target_amount,
                            price_impact_limit,
                            (n - i) as nat,
                            (n - 1) as nat,
                        );
                    }
                    return Err(e);
                },
                Ok(supply_amount) => {
                    amounts.set(i - 1, supply_amount);
                    proof {
                        assert(amounts@.subrange(i - 1, n as int) =~= seq![supply_amount] + tail);
                    }
                },
            }
            i -= 1;
        }
        proof {
            assert(amounts@.subrange(0, n as int) =~= amounts@);
        }
        Ok(amounts)
    }

    /// One hop: the pool of the two assets takes `supply_increment` of
    /// `supply` and gives `target_decrement` of `target`. The reserves stop
    /// at the largest amount and at zero; the assets in the ledger are not
    /// touched.
    pub fn _swap(
        &mut self,
        supply: AssetId,
        target: AssetId,
        supply_increment: Balance,
        target_decrement: Balance,
    )
        requires
            old(self).wf(),
        ensures
            final(self).wf(),
            final(self)@ == old(self)@.swap(supply, target, supply_increment, target_decrement),
    {
        if TradingPair::new(supply, target).is_some() {
            let supply_pool: Balance = self.reserves.get(
                Key { asset: supply, first: target, second: 0 },
            );
            let target_pool: Balance = self.reserves.get(
                Key { asset: target, first: supply, second: 0 },
            );
            self.set_reserve(supply, target, supply_pool.saturating_add(supply_increment));
            self.set_reserve(target, supply, target_pool.saturating_sub(target_decrement));
        }
    }

    /// The hops of `path` in turn, hop `i` taking `amounts[i]` and giving
    /// `amounts[i + 1]`, for as many hops as both have entries for.
    pub fn _swap_by_path(&mut self, path: &[AssetId], amounts: &[Balance])
        requires
            old(self).wf(),
        ensures
            final(self).wf(),
            final(self)@ == old(self)@.swap_by_path(
                path@,
                amounts@,
                DexState::hops_of(path@, amounts@),
            ),
    {
        let ghost before = *self;
        let n: usize = if path.len() <= amounts.len() {
            path.len()
        } else {
            amounts.len()
        };
        let mut i: usize = 0;
        while n > 0 && i < n - 1
            invariant
                self.wf(),
                n <= path@.len(),
                n <= amounts@.len(),
                n == 0 || n - 1 == DexState::hops_of(path@, amounts@),
                n == 0 ==> DexState::hops_of(path@, amounts@) == 0,
                i <= DexState::hops_of(path@, amounts@),
                self@ == before@.swap_by_path(path@, amounts@, i as nat),
            decreases n - i,
        {
            self._swap(path[i], path[i + 1], amounts[i], amounts[i + 1]);
            i += 1;
        }
    }

    /// What the exchange's account holds of the last asset of a trade once
    /// the trader has paid in, and whether the ledger will settle the trade.
    fn check_settlement(
        &self,
        assets: &Module,
        who: AccountId,
        path: &[AssetId],
        supply_amount: Balance,
        target_amount: Balance,
    ) -> (r: Result<(), Error>)
        requires
            self.wf(),
            assets.wf(),
            path@.len() >= 1,
        ensures
            match self@.settlement_error(assets@, who, path@, supply_amount, target_amount) {
                Some(e) => r == Err::<(), Error>(e),
                None => r == Ok::<(), Error>(()),
            },
    {
        let first: AssetId = path[0];
        let last: AssetId = path[path.len() - 1];
        if supply_amount == 0 {
            return Err(Error::AmountZero);
        }
        if assets.balance_of(&first, &who) < supply_amount {
            return Err(Error::BalanceLow);
        }
        let held: Balance = assets.balance_of(&last, &self.account);
        let available: Balance = if first == last && who != self.account {
            held.saturating_add(supply_amount)
        } else {
            held
        };
        if target_amount == 0 {
            return Err(Error::AmountZero);
        }
        if available < target_amount {
            return Err(Error::BalanceLow);
        }
        Ok(())
    }

    /// Settles a trade whose amounts are known: moves the assets in the
    /// ledger, moves the reserves along the path, and reports the trade.
    fn settle_trade(
        &mut self,
        assets: &mut Module,
        who: AccountId,
        path: &[AssetId],
        amounts: &Vec<Balance>,
    )
        requires
            old(self).wf(),
            old(assets).wf(),
            2 <= path@.len(),
            amounts@.len() == path@.len(),
            old(self)@.settlement_error(
                old(assets)@,
                who,
                path@,
                amounts@.first(),
                amounts@.last(),
            ) is None,
        ensures
            final(self).wf(),
            final(assets).wf(),
            final(self)@ == old(self)@.swap_by_path(path@, amounts@, (path@.len() - 1) as nat),
            final(assets)@ == old(self)@.settle(
                old(assets)@,
                who,
                path@,
                amounts@.first(),
                amounts@.last(),
            ),
            old(assets)@.conserved() ==> final(assets)@.conserved(),
    {
        let n: usize = path.len();
        let first: AssetId = path[0];
        let last: AssetId = path[n - 1];
        let supply_amount: Balance = amounts[0];
        let target_amount: Balance = amounts[n - 1];
        let account: AccountId = self.account;
        let paid_in = assets.inner_transfer(&first, &who, &account, supply_amount);
        assert(paid_in is Ok);
        self._swap_by_path(path, amounts.as_slice());
        let paid_out = assets.inner_transfer(&last, &account, &who, target_amount);
        assert(paid_out is Ok);
        let route: Vec<AssetId> = vstd::slice::slice_to_vec(path);
        assets.deposit_event(Event::Swap(who, route, supply_amount, target_amount));
    }

    /// Trades `supply_amount` of the first asset of `path` for as much of the
    /// last as the pools on the path pay, and returns that amount.
    ///
    /// The trade is refused for whatever refuses its amounts (see
    /// [`Self::get_target_amounts`]), then where it pays less than
    /// `min_target_amount`, then where the trader holds less than
    /// `supply_amount` or the exchange's account less than is to be paid
    /// out. A trade that is refused changes nothing. Otherwise the trader
    /// pays in to the exchange's account, each pool on the path takes the
    /// amount before it and gives the amount after it, the trader is paid
    /// out, and the trade is reported.
    ///
    /// The operation keeps supply conservation, keeps the pools backed, and,
    /// for anyone but the exchange's own account, keeps pool custody.
    pub fn do_swap_with_exact_supply(
        &mut self,
        assets: &mut Module,
        who: &AccountId,
        path: &[AssetId],
        supply_amount: Balance,
        min_target_amount: Balance,
        price_impact_limit: Option<Ratio>,
    ) -> (r: Result<Balance, Error>)
        requires
            old(self).wf(),
            old(assets).wf(),
        ensures
            final(self).wf(),
            final(assets).wf(),
            match old(self)@.exact_supply_trade(
                old(assets)@,
                *who,
                path@,
                supply_amount,
                min_target_amount,
                price_impact_limit,
            ) {
                Err(e) => {
                    &&& r == Err::<Balance, Error>(e)
                    &&& final(self)@ == old(self)@
                    &&& final(assets)@ == old(assets)@
                },
                Ok(amounts) => {
                    &&& r == Ok::<Balance, Error>(amounts.last())
                    &&& final(self)@ == old(self)@.swap_by_path(
                        path@,
                        amounts,
                        (path@.len() - 1) as nat,
                    )
                    &&& final(assets)@ == old(self)@.settle(
                        old(assets)@,
                        *who,
                        path@,
                        supply_amount,
                        amounts.last(),
                    )
                },
            },
            old(assets)@.conserved() ==> final(assets)@.conserved(),
            old(self)@.custody(old(assets)@) && old(assets)@.conserved() && *who != old(self)@.account
                ==> final(self)@.custody(final(assets)@),
            old(self)@.backed(old(assets)@) ==> final(self)@.backed(final(assets)@),
    {
        let ghost dex_before = *self;
        let ghost assets_before = *assets;
        let amounts: Vec<Balance> = match self.get_target_amounts(
            path,
            supply_amount,
            price_impact_limit,
        ) {
            Err(e) => {
                return Err(e);
            },
            Ok(v) => v,
        };
        proof {
            self@.lemma_target_amounts(
                path@,
                supply_amount,
                price_impact_limit,
                (path@.len() - 1) as nat,
            );
        }
        let target_amount: Balance = amounts[amounts.len() - 1];
        if target_amount < min_target_amount {
            return Err(Error::InsufficientTargetAmount);
        }
        match self.check_settlement(assets, *who, path, supply_amount, target_amount) {
            Err(e) => {
                return Err(e);
            },
            Ok(()) => {},
        }
        self.settle_trade(assets, *who, path, &amounts);
        proof {
            if dex_before@.custody(assets_before@) && assets_before@.conserved() && *who
                != dex_before@.account {
                dex_before.lemma_wf();
                assets_before.lemma_wf();
                dex_before@.lemma_target_hops_within_reserves(
                    path@,
                    supply_amount,
                    price_impact_limit,
                );
                dex_before@.lemma_trade_keeps_custody(assets_before@, *who, path@, amounts@);
            }
            if dex_before@.backed(assets_before@) {
                dex_before@.lemma_target_hops_within_reserves(
                    path@,
                    supply_amount,
                    price_impact_limit,
                );
                dex_before@.lemma_trade_keeps_backed(assets_before@, *who, path@, amounts@);
            }
        }
        Ok(target_amount)
    }

    /// Trades as much of the first asset of `path` as the pools on the path
    /// ask for `target_amount` of the last, and returns the amount paid in.
    ///
    /// The trade is refused for whatever refuses its amounts (see
    /// [`Self::get_supply_amounts`]), then where it costs more than
    /// `max_supply_amount`, then where the trader holds less than it costs
    /// or the exchange's account less than is to be paid out. A trade that is
    /// refused changes nothing. Otherwise it is settled as an exact-supply
    /// trade is.
    ///
    /// The operation keeps supply conservation, keeps the pools backed, and,
    /// for anyone but the exchange's own account, keeps pool custody.
    pub fn do_swap_with_exact_target(
        &mut self,
        assets: &mut Module,
        who: &AccountId,
        path: &[AssetId],
        target_amount: Balance,
        max_supply_amount: Balance,
        price_impact_limit: Option<Ratio>,
    ) -> (r: Result<Balance, Error>)
        requires
            old(self).wf(),
            old(assets).wf(),
        ensures
            final(self).wf(),
            final(assets).wf(),
            match old(self)@.exact_target_trade(
                old(assets)@,
                *who,
                path@,
                target_amount,
                max_supply_amount,
                price_impact_limit,
            ) {
                Err(e) => {
                    &&& r == Err::<Balance, Error>(e)
                    &&& final(self)@ == old(self)@
                    &&& final(assets)@ == old(assets)@
                },
                Ok(amounts) => {
                    &&& r == Ok::<Balance, Error>(amounts.first())
                    &&& final(self)@ == old(self)@.swap_by_path(
                        path@,
                        amounts,
                        (path@.len() - 1) as nat,
                    )
                    &&& final(assets)@ == old(self)@.settle(
                        old(assets)@,
                        *who,
                        path@,
                        amounts.first(),
                        target_amount,
                    )
                },
            },
            old(assets)@.conserved() ==> final(assets)@.conserved(),
            old(self)@.custody(old(assets)@) && old(assets)@.conserved() && *who != old(self)@.account
                ==> final(self)@.custody(final(assets)@),
            old(self)@.backed(old(assets)@) ==> final(self)@.backed(final(assets)@),
    {
        let ghost dex_before = *self;
        let ghost assets_before = *assets;
        let amounts: Vec<Balance> = match self.get_supply_amounts(
            path,
            target_amount,
            price_impact_limit,
        ) {
            Err(e) => {
                return Err(e);
            },
            Ok(v) => v,
        };
        proof {
            self@.lemma_supply_amounts(
                path@,
                target_amount,
                price_impact_limit,
                (path@.len() - 1) as nat,
            );
        }
        let supply_amount: Balance = amounts[0];
        if supply_amount > max_supply_amount {
            return Err(Error::ExcessiveSupplyAmount);
        }
        match self.check_settlement(assets, *who, path, supply_amount, target_amount) {
            Err(e) => {
                return Err(e);
            },
            Ok(()) => {},
        }
        self.settle_trade(assets, *who, path, &amounts);
        proof {
            if dex_before@.custody(assets_before@) && assets_before@.conserved() && *who
                != dex_before@.account {
                dex_before.lemma_wf();
                assets_before.lemma_wf();
                dex_before@.lemma_supply_hops_within_reserves(
                    path@,
                    target_amount,
                    price_impact_limit,
                );
                dex_before@.lemma_trade_keeps_custody(assets_before@, *who, path@, amounts@);
            }
            if dex_before@.backed(assets_before@) {
                dex_before@.lemma_supply_hops_within_reserves(
                    path@,
                    target_amount,
                    price_impact_limit,
                );
                dex_before@.lemma_trade_keeps_backed(assets_before@, *who, path@, amounts@);
            }
        }
        Ok(supply_amount)
    }

    /// Adds liquidity to the pool of `a` and `b`: up to `max_a` of `a` and
    /// `max_b` of `b`, in the proportion in which the pool's reserves stand.
    ///
    /// The first provider's amounts are taken as offered, and the shares
    /// minted equal the amount of the first asset of the canonical pair. It is
    /// refused where the pair is not open, then where an amount or the shares
    /// would be zero, then where the provider holds less than is taken. A
    /// provision that is refused changes nothing.
    ///
    /// The operation keeps the pools backed and, for anyone but the
    /// exchange's own account, keeps pool custody; it keeps supply
    /// conservation as long as the number of shares stays within the largest
    /// amount there is.
    pub fn add_liquidity(
        &mut self,
        assets: &mut Module,
        who: &AccountId,
        a: AssetId,
        b: AssetId,
        max_a: Balance,
        max_b: Balance,
    ) -> (r: Result<(), Error>)
        requires
            old(self).wf(),
            old(assets).wf(),
        ensures
            final(self).wf(),
            final(assets).wf(),
            match old(self)@.add_liquidity_error(old(assets)@, *who, a, b, max_a, max_b) {
                Some(e) => r == Err::<(), Error>(e) && final(self)@ == old(self)@ && final(assets)@
                    == old(assets)@,
                None => {
                    let (use_a, use_b, shares) = old(self)@.liquidity_increment(
                        old(assets)@,
                        a,
                        b,
                        max_a,
                        max_b,
                    )->Some_0;
                    &&& r == Ok::<(), Error>(())
                    &&& final(self)@ == old(self)@.deposit(a, b, use_a, use_b)
                    &&& final(assets)@ == old(self)@.provide(
                        old(assets)@,
                        *who,
                        a,
                        b,
                        use_a,
                        use_b,
                        shares,
                    )
                },
            },
            old(assets)@.conserved() && old(self)@.shares_fit(old(assets)@, a, b, max_a, max_b)
                ==> final(assets)@.conserved(),
            old(self)@.custody(old(assets)@) && old(assets)@.conserved() && *who != old(self)@.account
                ==> final(self)@.custody(final(assets)@),
            old(self)@.backed(old(assets)@) ==> final(self)@.backed(final(assets)@),
    {
        let ghost dex_before = *self;
        let ghost assets_before = *assets;
        if !self.is_allowed(a, b) {
            return Err(Error::TradingPairNotAllowed);
        }
        let pair: TradingPair = match TradingPair::new(a, b) {
            Some(p) => p,
            None => {
                return Err(Error::TradingPairNotAllowed);
            },
        };
        let share_id: AssetId = match pair.get_dex_share_currency_id() {
            Some(id) => id,
            None => {
                return Err(Error::TradingPairNotAllowed);
            },
        };
        let pools: (Balance, Balance) = self.get_liquidity(a, b);
        let total_shares: Balance = assets.total_supply(&share_id);
        let (use_a, use_b, shares) = match increment(
            pools.0,
            pools.1,
            total_shares,
            max_a,
            max_b,
            a == pair.first,
        ) {
            Some(amounts) => amounts,
            None => {
                return Err(Error::InvalidLiquidityIncrement);
            },
        };
        if assets.balance_of(&a, who) < use_a || assets.balance_of(&b, who) < use_b {
            return Err(Error::BalanceLow);
        }
        let account: AccountId = self.account;
        let paid_a = assets.inner_transfer(&a, who, &account, use_a);
        assert(paid_a is Ok);
        let paid_b = assets.inner_transfer(&b, who, &account, use_b);
        assert(paid_b is Ok);
        let known = assets.inner_register_share(&share_id);
        assert(known is Ok);
        let minted = assets.inner_mint(&share_id, who, shares);
        assert(minted is Ok);
        assets.deposit_event(Event::AddLiquidity(*who, a, use_a, b, use_b, shares));
        self.set_reserve(a, b, pools.0.saturating_add(use_a));
        self.set_reserve(b, a, pools.1.saturating_add(use_b));
        proof {
            if dex_before@.custody(assets_before@) && assets_before@.conserved() && *who
                != dex_before@.account {
                dex_before.lemma_wf();
                assets_before.lemma_wf();
                dex_before@.lemma_add_liquidity_keeps_custody(
                    assets_before@,
                    *who,
                    a,
                    b,
                    max_a,
                    max_b,
                );
            }
            if dex_before@.backed(assets_before@) {
                dex_before@.lemma_add_liquidity_keeps_backed(
                    assets_before@,
                    *who,
                    a,
                    b,
                    max_a,
                    max_b,
                );
            }
        }
        Ok(())
    }

    /// Redeems `share_amount` shares of the pool of `a` and `b` for the same
    /// part of both reserves as the shares are of all shares, rounded down.
    ///
    /// It is refused where the two assets form no pair of plain assets, then
    /// where the pool has no shares or none are redeemed, then where the
    /// provider holds fewer shares or the exchange's account less than is to
    /// be paid out. A removal that is refused changes nothing. An amount of
    /// zero is not paid out.
    ///
    /// The operation keeps supply conservation, keeps the pools backed, and,
    /// for anyone but the exchange's own account, keeps pool custody.
    pub fn remove_liquidity(
        &mut self,
        assets: &mut Module,
        who: &AccountId,
        a: AssetId,
        b: AssetId,
        share_amount: Balance,
    ) -> (r: Result<(), Error>)
        requires
            old(self).wf(),
            old(assets).wf(),
        ensures
            final(self).wf(),
            final(assets).wf(),
            match old(self)@.remove_liquidity_error(old(assets)@, *who, a, b, share_amount) {
                Some(e) => r == Err::<(), Error>(e) && final(self)@ == old(self)@ && final(assets)@
                    == old(assets)@,
                None => {
                    let (out_a, out_b) = old(self)@.liquidity_withdrawal(
                        old(assets)@,
                        a,
                        b,
                        share_amount,
                    )->Some_0;
                    &&& r == Ok::<(), Error>(())
                    &&& final(self)@ == old(self)@.withdraw(a, b, out_a, out_b)
                    &&& final(assets)@ == old(self)@.redeem(
                        old(assets)@,
                        *who,
                        a,
                        b,
                        out_a,
                        out_b,
                        share_amount,
                    )
                },
            },
            old(assets)@.conserved() ==> final(assets)@.conserved(),
            old(self)@.custody(old(assets)@) && old(assets)@.conserved() && *who != old(self)@.account
                ==> final(self)@.custody(final(assets)@),
            old(self)@.backed(old(assets)@) ==> final(self)@.backed(final(assets)@),
    {
        let ghost dex_before = *self;
        let ghost assets_before = *assets;
        let pair: TradingPair = match TradingPair::new(a, b) {
            Some(p) => p,
            None => {
                return Err(Error::InvalidCurrencyId);
            },
        };
        let share_id: AssetId = match pair.get_dex_share_currency_id() {
            Some(id) => id,
            None => {
                return Err(Error::InvalidCurrencyId);
            },
        };
        let pools: (Balance, Balance) = self.get_liquidity(a, b);
        let total_shares: Balance = assets.total_supply(&share_id);
        let (out_a, out_b) = match withdrawal(pools.0, pools.1, total_shares, share_amount) {
            Some(amounts) => amounts,
            None => {
                return Err(Error::InvalidLiquidityIncrement);
            },
        };
        if !assets.asset_exists(&share_id) {
            return Err(Error::AssetNotExists);
        }
        if assets.balance_of(&share_id, who) < share_amount {
            return Err(Error::BalanceLow);
        }
        let account: AccountId = self.account;
        if assets.balance_of(&a, &account) < out_a || assets.balance_of(&b, &account) < out_b {
            return Err(Error::BalanceLow);
        }
        let burned = assets.inner_burn(&share_id, who, share_amount);
        assert(burned is Ok);
        if out_a > 0 {
            let paid_a = assets.inner_transfer(&a, &account, who, out_a);
            assert(paid_a is Ok);
        }
        if out_b > 0 {
            let paid_b = assets.inner_transfer(&b, &account, who, out_b);
            assert(paid_b is Ok);
        }
        assets.deposit_event(Event::RemoveLiquidity(*who, a, out_a, b, out_b, share_amount));
        self.set_reserve(a, b, pools.0.saturating_sub(out_a));
        self.set_reserve(b, a, pools.1.saturating_sub(out_b));
        proof {
            if dex_before@.custody(assets_before@) && assets_before@.conserved() && *who
                != dex_before@.account {
                dex_before.lemma_wf();
                assets_before.lemma_wf();
                dex_before@.lemma_remove_liquidity_keeps_custody(
                    assets_before@,
                    *who,
                    a,
                    b,
                    share_amount,
                );
            }
            if dex_before@.backed(assets_before@) {
                dex_before@.lemma_remove_liquidity_keeps_backed(
                    assets_before@,
                    *who,
                    a,
                    b,
                    share_amount,
                );
            }
        }
        Ok(())
    }
}

} // verus!
