//! What stays true of the exchange: laws of its state and of the rules by
//! which it changes.

use crate::errors::Error;
use crate::exchange::{DexState, MAX_HOPS};
use crate::ledger::LedgerState;
use crate::pricing::Ratio;
use crate::primitives::{AccountId, AssetId, Balance, TradingPair};
use vstd::prelude::*;

verus! {

impl DexState {
    /// The reserves do not depend on the order in which the two assets are
    /// named: one order gives the other's result turned round.
    pub proof fn lemma_get_liquidity_is_symmetric(self, a: AssetId, b: AssetId)
        ensures
            self.get_liquidity(a, b) == (self.get_liquidity(b, a).1, self.get_liquidity(b, a).0),
            TradingPair::spec_new(a, b) is Some ==> self.get_liquidity(a, b) == (
                self.reserves[(a, b)],
                self.reserves[(b, a)],
            ),
    {
    }

    /// Once a hop is refused, the error stays however many more hops are
    /// asked for.
    pub proof fn lemma_target_error_stays(
        self,
        path: Seq<AssetId>,
        supply_amount: Balance,
        limit: Option<Ratio>,
        hops: nat,
        more: nat,
    )
        requires
            self.target_amounts_upto(path, supply_amount, limit, hops) is Err,
            hops <= more,
        ensures
            self.target_amounts_upto(path, supply_amount, limit, more) == self.target_amounts_upto(
                path,
                supply_amount,
                limit,
                hops,
            ),
        decreases more,
    {
        if hops < more {
            self.lemma_target_error_stays(path, supply_amount, limit, hops, (more - 1) as nat);
        }
    }

    /// Once a hop is refused, the error stays however many more hops are
    /// asked for.
    pub proof fn lemma_supply_error_stays(
        self,
        path: Seq<AssetId>,
        target_amount: Balance,
        limit: Option<Ratio>,
        hops: nat,
        more: nat,
    )
        requires
            self.supply_amounts_back(path, target_amount, limit, hops) is Err,
            hops <= more,
        ensures
            self.supply_amounts_back(path, target_amount, limit, more) == self.supply_amounts_back(
                path,
                target_amount,
                limit,
                hops,
            ),
        decreases more,
    {
        if hops < more {
            self.lemma_supply_error_stays(path, target_amount, limit, hops, (more - 1) as nat);
        }
    }

    /// A hop of an exact-supply trade moves the pool's reserves to the old
    /// supply reserve plus what is paid in and the old target reserve less
    /// what is paid out, and their product is then no smaller than before;
    /// it is larger where a fee is taken.
    pub proof fn lemma_target_hop_keeps_product(
        self,
        supply: AssetId,
        target: AssetId,
        supply_amount: Balance,
        limit: Option<Ratio>,
    )
        requires
            self.target_hop(supply, target, supply_amount, limit) is Ok,
            self.get_liquidity(supply, target).0 + supply_amount <= u128::MAX,
        ensures
            ({
                let target_amount = self.target_hop(supply, target, supply_amount, limit)->Ok_0;
                let before = self.get_liquidity(supply, target);
                let after = self.swap(supply, target, supply_amount, target_amount).get_liquidity(
                    supply,
                    target,
                );
                &&& after.0 == before.0 + supply_amount
                &&& after.1 == before.1 - target_amount
                &&& after.0 * after.1 >= before.0 * before.1
                &&& self.fee.numerator > 0 ==> after.0 * after.1 > before.0 * before.1
            }),
    {
        let before = self.get_liquidity(supply, target);
        crate::pricing::lemma_exact_supply_hop_keeps_product(
            self.fee,
            before.0,
            before.1,
            supply_amount,
        );
    }

    /// A hop of an exact-target trade moves the pool's reserves to the old
    /// supply reserve plus what is paid in and the old target reserve less
    /// what is paid out, and their product is then larger than before.
    pub proof fn lemma_supply_hop_grows_product(
        self,
        supply: AssetId,
        target: AssetId,
        target_amount: Balance,
        limit: Option<Ratio>,
    )
        requires
            self.supply_hop(supply, target, target_amount, limit) is Ok,
            self.get_liquidity(supply, target).0 + self.supply_hop(
                supply,
                target,
                target_amount,
                limit,
            )->Ok_0 <= u128::MAX,
        ensures
            ({
                let supply_amount = self.supply_hop(supply, target, target_amount, limit)->Ok_0;
                let before = self.get_liquidity(supply, target);
                let after = self.swap(supply, target, supply_amount, target_amount).get_liquidity(
                    supply,
                    target,
                );
                &&& after.0 == before.0 + supply_amount
                &&& after.1 == before.1 - target_amount
                &&& after.0 * after.1 > before.0 * before.1
            }),
    {
        let before = self.get_liquidity(supply, target);
        crate::pricing::lemma_exact_target_hop_grows_product(
            self.fee,
            before.0,
            before.1,
            target_amount,
        );
    }

    /// Under pool custody each reserve is covered: the exchange's account
    /// holds at least what any one pool holds of an asset.
    pub proof fn lemma_custody_covers_reserves(self, ledger: LedgerState, a: AssetId, b: AssetId)
        requires
            self.coherent(),
            self.custody(ledger),
        ensures
            self.get_liquidity(a, b).0 <= ledger.balance_of(a, self.account),
            self.get_liquidity(a, b).1 <= ledger.balance_of(b, self.account),
    {
        assert(self.reserves[(a, b)] <= self.pooled[a]);
        assert(self.reserves[(b, a)] <= self.pooled[b]);
    }

    /// The hops of an exact-supply trade that is not refused pay out no more
    /// than their pools hold.
    pub proof fn lemma_target_hops_within_reserves(
        self,
        path: Seq<AssetId>,
        supply_amount: Balance,
        limit: Option<Ratio>,
    )
        requires
            self.get_target_amounts(path, supply_amount, limit) is Ok,
        ensures
            self.hops_within_reserves(
                path,
                self.get_target_amounts(path, supply_amount, limit)->Ok_0,
            ),
            self.get_target_amounts(path, supply_amount, limit)->Ok_0.len() == path.len(),
            self.get_target_amounts(path, supply_amount, limit)->Ok_0.first() == supply_amount,
    {
        let amounts = self.get_target_amounts(path, supply_amount, limit)->Ok_0;
        self.lemma_target_amounts(path, supply_amount, limit, (path.len() - 1) as nat);
        assert forall|i: int| 0 <= i < path.len() - 1 implies #[trigger] self.hop_within_reserves(
            path,
            amounts,
            i,
        ) by {
            assert(self.target_hop_at(path, amounts, limit, i) == Ok::<Balance, Error>(
                amounts[i + 1],
            ));
            let pools = self.get_liquidity(path[i], path[i + 1]);
            crate::pricing::lemma_exact_supply_hop_keeps_product(
                self.fee,
                pools.0,
                pools.1,
                amounts[i],
            );
        }
    }

    /// The hops of an exact-target trade that is not refused pay out less
    /// than their pools hold.
    pub proof fn lemma_supply_hops_within_reserves(
        self,
        path: Seq<AssetId>,
        target_amount: Balance,
        limit: Option<Ratio>,
    )
        requires
            self.get_supply_amounts(path, target_amount, limit) is Ok,
        ensures
            self.hops_within_reserves(
                path,
                self.get_supply_amounts(path, target_amount, limit)->Ok_0,
            ),
            self.get_supply_amounts(path, target_amount, limit)->Ok_0.len() == path.len(),
            self.get_supply_amounts(path, target_amount, limit)->Ok_0.last() == target_amount,
    {
        let amounts = self.get_supply_amounts(path, target_amount, limit)->Ok_0;
        self.lemma_supply_amounts(path, target_amount, limit, (path.len() - 1) as nat);
        assert forall|i: int| 0 <= i < path.len() - 1 implies #[trigger] self.hop_within_reserves(
            path,
            amounts,
            i,
        ) by {
            assert(self.supply_hop_at(path, amounts, limit, 0, i) == Ok::<Balance, Error>(
                amounts[i],
            ));
            let pools = self.get_liquidity(path[i], path[i + 1]);
            crate::pricing::lemma_exact_target_hop_grows_product(
                self.fee,
                pools.0,
                pools.1,
                amounts[i + 1],
            );
        }
    }

    /// A trade keeps pool custody: where the ledger conserves supply, the
    /// trader is not the exchange's own account, and every hop pays out no
    /// more than its pool holds, the reserves after the trade are again what
    /// the exchange's account holds.
    pub proof fn lemma_trade_keeps_custody(
        self,
        ledger: LedgerState,
        who: AccountId,
        path: Seq<AssetId>,
        amounts: Seq<Balance>,
    )
        requires
            self.coherent(),
            ledger.coherent(),
            ledger.conserved(),
            self.custody(ledger),
            who != self.account,
            2 <= path.len() <= MAX_HOPS,
            amounts.len() == path.len(),
            self.hops_within_reserves(path, amounts),
            self.settlement_error(ledger, who, path, amounts.first(), amounts.last()) is None,
        ensures
            self.swap_by_path(path, amounts, (path.len() - 1) as nat).custody(
                self.settle(ledger, who, path, amounts.first(), amounts.last()),
            ),
    {
        reveal_with_fuel(DexState::swap_by_path, 4);
        let after = self.swap_by_path(path, amounts, (path.len() - 1) as nat);
        let settled = self.settle(ledger, who, path, amounts.first(), amounts.last());
        let start = path[0];
        let via = path[1];
        let paid = amounts[0];
        let passed = amounts[1];
        let account = self.account;
        ledger.lemma_transfer_conserves(start, who, account, paid);
        assert(ledger.balances[(start, account)] == self.pooled[start]);
        assert(ledger.balances[(via, account)] == self.pooled[via]);
        assert(self.reserves[(start, via)] <= self.pooled[start]);
        assert(self.reserves[(via, start)] <= self.pooled[via]);
        assert(self.hop_within_reserves(path, amounts, 0));
        if path.len() == 2 {
            assert forall|asset: AssetId| settled.balances[(asset, account)]
                == #[trigger] after.pooled[asset] by {
                assert(ledger.balances[(asset, account)] == self.pooled[asset]);
            }
        } else {
            let end = path[2];
            let got = amounts[2];
            assert(self.hop_within_reserves(path, amounts, 1));
            assert(ledger.balances[(end, account)] == self.pooled[end]);
            assert(self.reserves[(via, end)] <= self.pooled[via]);
            assert(self.reserves[(end, via)] <= self.pooled[end]);
            if end != start {
                assert(self.reserves[(via, start)] + self.reserves[(via, end)] <= self.pooled[via]);
            }
            let mid = self.swap(start, via, paid, passed);
            assert(after == mid.swap(via, end, passed, got));
            assert forall|asset: AssetId| settled.balances[(asset, account)]
                == #[trigger] after.pooled[asset] by {
                assert(ledger.balances[(asset, account)] == self.pooled[asset]);
            }
        }
    }

    /// A trade leaves no pool with reserves and without shares.
    pub proof fn lemma_trade_keeps_backed(
        self,
        ledger: LedgerState,
        who: AccountId,
        path: Seq<AssetId>,
        amounts: Seq<Balance>,
    )
        requires
            self.backed(ledger),
            2 <= path.len() <= MAX_HOPS,
            amounts.len() == path.len(),
            self.hops_within_reserves(path, amounts),
        ensures
            self.swap_by_path(path, amounts, (path.len() - 1) as nat).backed(
                self.settle(ledger, who, path, amounts.first(), amounts.last()),
            ),
    {
        reveal_with_fuel(DexState::swap_by_path, 4);
        let after = self.swap_by_path(path, amounts, (path.len() - 1) as nat);
        let settled = self.settle(ledger, who, path, amounts.first(), amounts.last());
        assert(self.hop_within_reserves(path, amounts, 0));
        if path.len() == 3 {
            assert(self.hop_within_reserves(path, amounts, 1));
            assert(after == self.swap(path[0], path[1], amounts[0], amounts[1]).swap(
                path[1],
                path[2],
                amounts[1],
                amounts[2],
            ));
        }
        assert forall|pair: TradingPair| pair.valid() implies #[trigger] after.pool_is_backed(
            settled,
            pair,
        ) by {
            assert(self.pool_is_backed(ledger, pair));
            assert(settled.supplies == ledger.supplies);
        }
    }

    /// Adding liquidity leaves no pool with reserves and without shares.
    pub proof fn lemma_add_liquidity_keeps_backed(
        self,
        ledger: LedgerState,
        who: AccountId,
        a: AssetId,
        b: AssetId,
        max_a: Balance,
        max_b: Balance,
    )
        requires
            self.backed(ledger),
            self.add_liquidity_error(ledger, who, a, b, max_a, max_b) is None,
        ensures
            ({
                let (use_a, use_b, shares) = self.liquidity_increment(
                    ledger,
                    a,
                    b,
                    max_a,
                    max_b,
                )->Some_0;
                self.deposit(a, b, use_a, use_b).backed(
                    self.provide(ledger, who, a, b, use_a, use_b, shares),
                )
            }),
    {
        let (use_a, use_b, shares) = self.liquidity_increment(ledger, a, b, max_a, max_b)->Some_0;
        let after = self.deposit(a, b, use_a, use_b);
        let provided = self.provide(ledger, who, a, b, use_a, use_b, shares);
        let own = TradingPair::spec_new(a, b)->Some_0;
        assert forall|pair: TradingPair| pair.valid() implies #[trigger] after.pool_is_backed(
            provided,
            pair,
        ) by {
            assert(self.pool_is_backed(ledger, pair));
            if pair != own {
                crate::primitives::lemma_share_ids_differ(pair, own);
            }
        }
    }

    /// Removing liquidity leaves no pool with reserves and without shares:
    /// the last shares are redeemed for all that the pool holds.
    pub proof fn lemma_remove_liquidity_keeps_backed(
        self,
        ledger: LedgerState,
        who: AccountId,
        a: AssetId,
        b: AssetId,
        share_amount: Balance,
    )
        requires
            self.backed(ledger),
            self.remove_liquidity_error(ledger, who, a, b, share_amount) is None,
        ensures
            ({
                let (out_a, out_b) = self.liquidity_withdrawal(ledger, a, b, share_amount)->Some_0;
                self.withdraw(a, b, out_a, out_b).backed(
                    self.redeem(ledger, who, a, b, out_a, out_b, share_amount),
                )
            }),
    {
        let (out_a, out_b) = self.liquidity_withdrawal(ledger, a, b, share_amount)->Some_0;
        let after = self.withdraw(a, b, out_a, out_b);
        let redeemed = self.redeem(ledger, who, a, b, out_a, out_b, share_amount);
        let own = TradingPair::spec_new(a, b)->Some_0;
        let total_shares = ledger.total_supply(own.spec_share_id());
        assert forall|pair: TradingPair| pair.valid() implies #[trigger] after.pool_is_backed(
            redeemed,
            pair,
        ) by {
            assert(self.pool_is_backed(ledger, pair));
            if pair != own {
                crate::primitives::lemma_share_ids_differ(pair, own);
            } else if share_amount >= total_shares {
                crate::liquidity::lemma_withdrawal_of_all(
                    self.reserves[(a, b)],
                    self.reserves[(b, a)],
                    total_shares,
                    share_amount,
                );
            }
        }
    }

    /// Redeeming the shares that a provision has just minted pays out no
    /// more than the provision took, of either asset. The pools are backed,
    /// and the provision leaves the reserves and the number of shares within
    /// the largest amount there is.
    pub proof fn lemma_fresh_shares_redeem_within_provision(
        self,
        ledger: LedgerState,
        who: AccountId,
        a: AssetId,
        b: AssetId,
        max_a: Balance,
        max_b: Balance,
    )
        requires
            self.backed(ledger),
            self.add_liquidity_error(ledger, who, a, b, max_a, max_b) is None,
            self.shares_fit(ledger, a, b, max_a, max_b),
            ({
                let (use_a, use_b, shares) = self.liquidity_increment(
                    ledger,
                    a,
                    b,
                    max_a,
                    max_b,
                )->Some_0;
                self.reserves[(a, b)] + use_a <= u128::MAX && self.reserves[(b, a)] + use_b
                    <= u128::MAX
            }),
        ensures
            ({
                let (use_a, use_b, shares) = self.liquidity_increment(
                    ledger,
                    a,
                    b,
                    max_a,
                    max_b,
                )->Some_0;
                let after = self.deposit(a, b, use_a, use_b);
                let provided = self.provide(ledger, who, a, b, use_a, use_b, shares);
                after.liquidity_withdrawal(provided, a, b, shares) matches Some((out_a, out_b))
                    && out_a <= use_a && out_b <= use_b
            }),
    {
        let own = TradingPair::spec_new(a, b)->Some_0;
        assert(self.pool_is_backed(ledger, own));
        crate::liquidity::lemma_redemption_is_bounded(
            self.reserves[(a, b)],
            self.reserves[(b, a)],
            ledger.total_supply(own.spec_share_id()),
            max_a,
            max_b,
            a == own.first,
        );
    }

    /// Adding liquidity keeps pool custody, where the ledger conserves
    /// supply and the provider is not the exchange's own account.
    pub proof fn lemma_add_liquidity_keeps_custody(
        self,
        ledger: LedgerState,
        who: AccountId,
        a: AssetId,
        b: AssetId,
        max_a: Balance,
        max_b: Balance,
    )
        requires
            self.coherent(),
            ledger.coherent(),
            ledger.conserved(),
            self.custody(ledger),
            who != self.account,
            self.add_liquidity_error(ledger, who, a, b, max_a, max_b) is None,
        ensures
            ({
                let (use_a, use_b, shares) = self.liquidity_increment(
                    ledger,
                    a,
                    b,
                    max_a,
                    max_b,
                )->Some_0;
                self.deposit(a, b, use_a, use_b).custody(
                    self.provide(ledger, who, a, b, use_a, use_b, shares),
                )
            }),
    {
        let (use_a, use_b, shares) = self.liquidity_increment(ledger, a, b, max_a, max_b)->Some_0;
        let after = self.deposit(a, b, use_a, use_b);
        let provided = self.provide(ledger, who, a, b, use_a, use_b, shares);
        let account = self.account;
        let pair = TradingPair::spec_new(a, b)->Some_0;
        let share_id = pair.spec_share_id();
        assert(ledger.supplies[a] == ledger.circulating[a]);
        assert(ledger.supplies[b] == ledger.circulating[b]);
        assert(ledger.balances[(a, who)] + ledger.balances[(a, account)] <= ledger.circulating[a]);
        assert(ledger.balances[(b, who)] + ledger.balances[(b, account)] <= ledger.circulating[b]);
        assert(ledger.balances[(a, account)] == self.pooled[a]);
        assert(ledger.balances[(b, account)] == self.pooled[b]);
        assert(self.reserves[(a, b)] <= self.pooled[a]);
        assert(self.reserves[(b, a)] <= self.pooled[b]);
        assert(share_id != a && share_id != b);
        assert forall|asset: AssetId| provided.balances[(asset, account)]
            == #[trigger] after.pooled[asset] by {
            assert(ledger.balances[(asset, account)] == self.pooled[asset]);
        }
    }

    /// Removing liquidity keeps pool custody, where the ledger conserves
    /// supply and the provider is not the exchange's own account.
    pub proof fn lemma_remove_liquidity_keeps_custody(
        self,
        ledger: LedgerState,
        who: AccountId,
        a: AssetId,
        b: AssetId,
        share_amount: Balance,
    )
        requires
            self.coherent(),
            ledger.coherent(),
            ledger.conserved(),
            self.custody(ledger),
            who != self.account,
            self.remove_liquidity_error(ledger, who, a, b, share_amount) is None,
        ensures
            ({
                let (out_a, out_b) = self.liquidity_withdrawal(ledger, a, b, share_amount)->Some_0;
                self.withdraw(a, b, out_a, out_b).custody(
                    self.redeem(ledger, who, a, b, out_a, out_b, share_amount),
                )
            }),
    {
        let (out_a, out_b) = self.liquidity_withdrawal(ledger, a, b, share_amount)->Some_0;
        let after = self.withdraw(a, b, out_a, out_b);
        let redeemed = self.redeem(ledger, who, a, b, out_a, out_b, share_amount);
        let account = self.account;
        let pair = TradingPair::spec_new(a, b)->Some_0;
        let share_id = pair.spec_share_id();
        let total_shares = ledger.total_supply(share_id);
        assert(ledger.supplies[share_id] == ledger.circulating[share_id]);
        assert(ledger.balances[(share_id, who)] <= ledger.circulating[share_id]);
        assert(share_amount <= total_shares);
        crate::liquidity::lemma_withdrawal_within_reserves(
            self.reserves[(a, b)],
            self.reserves[(b, a)],
            total_shares,
            share_amount,
        );
        assert(out_a <= self.reserves[(a, b)]);
        assert(out_b <= self.reserves[(b, a)]);
        assert(ledger.balances[(a, account)] == self.pooled[a]);
        assert(ledger.balances[(b, account)] == self.pooled[b]);
        assert(self.reserves[(a, b)] <= self.pooled[a]);
        assert(self.reserves[(b, a)] <= self.pooled[b]);
        assert(share_id != a && share_id != b);
        assert forall|asset: AssetId| redeemed.balances[(asset, account)]
            == #[trigger] after.pooled[asset] by {
            assert(ledger.balances[(asset, account)] == self.pooled[asset]);
        }
    }

    /// The amounts of an exact-supply trade that is not refused: one for each
    /// asset of the path, the first being what is paid in, and each next one
    /// what its hop pays out for the one before.
    pub proof fn lemma_target_amounts(
        self,
        path: Seq<AssetId>,
        supply_amount: Balance,
        limit: Option<Ratio>,
        hops: nat,
    )
        requires
            hops < path.len(),
            self.target_amounts_upto(path, supply_amount, limit, hops) is Ok,
        ensures
            ({
                let amounts = self.target_amounts_upto(path, supply_amount, limit, hops)->Ok_0;
                &&& amounts.len() == hops + 1
                &&& amounts[0] == supply_amount
                &&& forall|i: int|
                    0 <= i < hops ==> #[trigger] self.target_hop_at(path, amounts, limit, i) == Ok::<
                        Balance,
                        Error,
                    >(amounts[i + 1])
            }),
        decreases hops,
    {
        let amounts = self.target_amounts_upto(path, supply_amount, limit, hops)->Ok_0;
        if hops > 0 {
            self.lemma_target_amounts(path, supply_amount, limit, (hops - 1) as nat);
            let shorter = self.target_amounts_upto(
                path,
                supply_amount,
                limit,
                (hops - 1) as nat,
            )->Ok_0;
            assert forall|i: int| 0 <= i < hops implies #[trigger] self.target_hop_at(
                path,
                amounts,
                limit,
                i,
            ) == Ok::<Balance, Error>(amounts[i + 1]) by {
                if i < hops - 1 {
                    assert(self.target_hop_at(path, shorter, limit, i) == Ok::<Balance, Error>(
                        shorter[i + 1],
                    ));
                }
            }
        }
    }

    /// The amounts of an exact-target trade that is not refused: one for each
    /// of the last assets of the path, the last being what is paid out, and
    /// each one before what its hop asks for the next.
    pub proof fn lemma_supply_amounts(
        self,
        path: Seq<AssetId>,
        target_amount: Balance,
        limit: Option<Ratio>,
        hops: nat,
    )
        requires
            hops < path.len(),
            self.supply_amounts_back(path, target_amount, limit, hops) is Ok,
        ensures
            ({
                let amounts = self.supply_amounts_back(path, target_amount, limit, hops)->Ok_0;
                &&& amounts.len() == hops + 1
                &&& amounts.last() == target_amount
                &&& forall|i: int|
                    0 <= i < hops ==> #[trigger] self.supply_hop_at(
                        path,
                        amounts,
                        limit,
                        path.len() - 1 - hops,
                        i,
                    ) == Ok::<Balance, Error>(amounts[i])
            }),
        decreases hops,
    {
        let amounts = self.supply_amounts_back(path, target_amount, limit, hops)->Ok_0;
        let offset = path.len() - 1 - hops;
        if hops > 0 {
            self.lemma_supply_amounts(path, target_amount, limit, (hops - 1) as nat);
            let shorter = self.supply_amounts_back(
                path,
                target_amount,
                limit,
                (hops - 1) as nat,
            )->Ok_0;
            assert forall|i: int| 0 <= i < hops implies #[trigger] self.supply_hop_at(
                path,
                amounts,
                limit,
                offset,
                i,
            ) == Ok::<Balance, Error>(amounts[i]) by {
                if i > 0 {
                    assert(self.supply_hop_at(path, shorter, limit, offset + 1, i - 1) == Ok::<
                        Balance,
                        Error,
                    >(shorter[i - 1]));
                    assert(amounts[i + 1] == shorter[i]);
                    assert(amounts[i] == shorter[i - 1]);
                } else {
                    assert(amounts[1] == shorter[0]);
                }
            }
        }
    }
}

} // verus!
