//! The state of the asset ledger, and the rules by which it changes.
//!
//! [`LedgerState`] holds every balance, total supply and allowance, the
//! metadata of the assets, and the log of events. Each operation of the
//! ledger is a function from one state to the next; the laws at the end say
//! what every operation keeps true.

use crate::assets::AssetInfo;
use crate::errors::Error;
use crate::events::EventView;
use crate::primitives::{AccountId, AssetId, Balance};
use vstd::prelude::*;

verus! {

/// The sum of two amounts, held at the largest amount there is.
pub open spec fn saturating_sum(a: Balance, b: Balance) -> Balance {
    if a + b > u128::MAX {
        u128::MAX
    } else {
        (a + b) as u128
    }
}

/// The difference of two amounts, held at zero.
pub open spec fn saturating_difference(a: Balance, b: Balance) -> Balance {
    if a < b {
        0
    } else {
        (a - b) as u128
    }
}

/// The state of a ledger.
///
/// `balances`, `supplies`, `circulating` and `allowances` have a value for
/// every key, zero unless an operation has set it. `circulating` is, for each
/// asset, the sum of its balances over all accounts.
pub ghost struct LedgerState {
    pub balances: Map<(AssetId, AccountId), Balance>,
    pub supplies: Map<AssetId, Balance>,
    pub circulating: Map<AssetId, nat>,
    pub allowances: Map<(AssetId, AccountId, AccountId), Balance>,
    pub infos: Map<AssetId, Option<AssetInfo>>,
    pub next_asset_id: AssetId,
    pub events: Seq<EventView>,
}

impl LedgerState {
    /// The state of a ledger without assets: every amount is zero, and the
    /// log is empty.
    pub open spec fn empty() -> LedgerState {
        LedgerState {
            balances: Map::total(|k: (AssetId, AccountId)| 0u128),
            supplies: Map::total(|id: AssetId| 0u128),
            circulating: Map::total(|id: AssetId| 0nat),
            allowances: Map::total(|k: (AssetId, AccountId, AccountId)| 0u128),
            infos: Map::empty(),
            next_asset_id: 0,
            events: Seq::empty(),
        }
    }

    /// What `who` holds of `id`.
    pub open spec fn balance_of(self, id: AssetId, who: AccountId) -> Balance {
        self.balances[(id, who)]
    }

    /// The total supply of `id`.
    pub open spec fn total_supply(self, id: AssetId) -> Balance {
        self.supplies[id]
    }

    /// What `spender` may take of `id` from `owner`.
    pub open spec fn allowance(self, id: AssetId, owner: AccountId, spender: AccountId) -> Balance {
        self.allowances[(id, owner, spender)]
    }

    /// Whether `id` has been issued, or created as a pool's share asset.
    pub open spec fn has_asset(self, id: AssetId) -> bool {
        self.infos.dom().contains(id)
    }

    /// The metadata of `id`, where it has any.
    pub open spec fn asset_info(self, id: AssetId) -> Option<AssetInfo> {
        if self.has_asset(id) {
            self.infos[id]
        } else {
            None
        }
    }

    /// Supply conservation: the total supply of every asset is the sum of its
    /// balances.
    pub open spec fn conserved(self) -> bool {
        forall|id: AssetId| self.supplies[id] == #[trigger] self.circulating[id]
    }

    /// What the sum of balances means for single balances: two accounts
    /// together, and so each alone, hold no more of an asset than circulates.
    pub open spec fn coherent(self) -> bool {
        &&& forall|id: AssetId, who: AccountId| #[trigger]
            self.balances[(id, who)] <= self.circulating[id]
        &&& forall|id: AssetId, a: AccountId, b: AccountId|
            a != b ==> #[trigger] self.balances[(id, a)] + #[trigger] self.balances[(id, b)]
                <= self.circulating[id]
    }

    /// The state with one more event at the end of the log.
    pub open spec fn emit(self, event: EventView) -> LedgerState {
        LedgerState { events: self.events.push(event), ..self }
    }

    /// The state in which `who` holds `amount` of `id`.
    pub open spec fn with_balance(self, id: AssetId, who: AccountId, amount: Balance) -> LedgerState {
        LedgerState {
            balances: self.balances.insert((id, who), amount),
            circulating: self.circulating.insert(
                id,
                (self.circulating[id] - self.balances[(id, who)] + amount) as nat,
            ),
            ..self
        }
    }

    /// The state in which the total supply of `id` is `amount`.
    pub open spec fn with_supply(self, id: AssetId, amount: Balance) -> LedgerState {
        LedgerState { supplies: self.supplies.insert(id, amount), ..self }
    }

    /// The state in which `spender` may take `amount` of `id` from `owner`.
    pub open spec fn with_allowance(
        self,
        id: AssetId,
        owner: AccountId,
        spender: AccountId,
        amount: Balance,
    ) -> LedgerState {
        LedgerState { allowances: self.allowances.insert((id, owner, spender), amount), ..self }
    }

    /// The state after `total` of a new plain asset was issued to `owner`.
    /// The new asset takes the next free identifier.
    pub open spec fn issue(self, owner: AccountId, total: Balance, info: AssetInfo) -> LedgerState {
        let id = self.next_asset_id;
        LedgerState {
            infos: self.infos.insert(id, Some(info)),
            next_asset_id: (id + 1) as u64,
            ..self.with_balance(id, owner, total).with_supply(id, total)
        }.emit(EventView::Issued(id, owner, total))
    }

    /// Why a transfer of `amount` of `id` from `from` is refused, if it is.
    pub open spec fn transfer_error(self, id: AssetId, from: AccountId, amount: Balance) -> Option<
        Error,
    > {
        if amount == 0 {
            Some(Error::AmountZero)
        } else if self.balance_of(id, from) < amount {
            Some(Error::BalanceLow)
        } else {
            None
        }
    }

    /// The balances after `amount` of `id` moved from `from` to `to`: first
    /// the debit, then the credit, so that a transfer to oneself changes
    /// nothing.
    pub open spec fn move_balance(
        self,
        id: AssetId,
        from: AccountId,
        to: AccountId,
        amount: Balance,
    ) -> LedgerState {
        let debited = self.with_balance(id, from, (self.balance_of(id, from) - amount) as u128);
        debited.with_balance(id, to, saturating_sum(debited.balance_of(id, to), amount))
    }

    /// The state after a transfer that is not refused.
    pub open spec fn transfer(
        self,
        id: AssetId,
        from: AccountId,
        to: AccountId,
        amount: Balance,
    ) -> LedgerState {
        self.move_balance(id, from, to, amount).emit(EventView::Transferred(id, from, to, amount))
    }

    /// The state after a payment of `amount`, which is a transfer unless
    /// the amount is zero: then nothing moves and nothing is reported.
    pub open spec fn pay(self, id: AssetId, from: AccountId, to: AccountId, amount: Balance) -> LedgerState {
        if amount == 0 {
            self
        } else {
            self.transfer(id, from, to, amount)
        }
    }

    /// The state after `owner` approved `spender` for `amount` of `id`. The
    /// new allowance replaces the old one.
    pub open spec fn approve(
        self,
        id: AssetId,
        owner: AccountId,
        spender: AccountId,
        amount: Balance,
    ) -> LedgerState {
        self.with_allowance(id, owner, spender, amount).emit(
            EventView::Approval(id, owner, spender, amount),
        )
    }

    /// Why a transfer by a spender is refused, if it is: the allowance is
    /// looked at before the transfer itself.
    pub open spec fn transfer_from_error(
        self,
        id: AssetId,
        owner: AccountId,
        spender: AccountId,
        amount: Balance,
    ) -> Option<Error> {
        if self.allowance(id, owner, spender) < amount {
            Some(Error::AllowanceLow)
        } else {
            self.transfer_error(id, owner, amount)
        }
    }

    /// The state after a transfer by a spender that is not refused: the
    /// transfer, and the allowance lowered by the amount.
    pub open spec fn transfer_from(
        self,
        id: AssetId,
        owner: AccountId,
        spender: AccountId,
        to: AccountId,
        amount: Balance,
    ) -> LedgerState {
        self.transfer(id, owner, to, amount).with_allowance(
            id,
            owner,
            spender,
            (self.allowance(id, owner, spender) - amount) as u128,
        )
    }

    /// Why minting `id` is refused, if it is.
    pub open spec fn mint_error(self, id: AssetId) -> Option<Error> {
        if self.has_asset(id) {
            None
        } else {
            Some(Error::AssetNotExists)
        }
    }

    /// The state after `amount` of `id` was minted to `to`. Balance and total
    /// supply stop at the largest amount there is.
    pub open spec fn mint(self, id: AssetId, to: AccountId, amount: Balance) -> LedgerState {
        self.with_balance(id, to, saturating_sum(self.balance_of(id, to), amount)).with_supply(
            id,
            saturating_sum(self.total_supply(id), amount),
        ).emit(EventView::Minted(id, to, amount))
    }

    /// Why burning `amount` of `id` held by `from` is refused, if it is.
    pub open spec fn burn_error(self, id: AssetId, from: AccountId, amount: Balance) -> Option<
        Error,
    > {
        if !self.has_asset(id) {
            Some(Error::AssetNotExists)
        } else if self.balance_of(id, from) < amount {
            Some(Error::BalanceLow)
        } else {
            None
        }
    }

    /// The state after `amount` of `id` held by `from` was burned.
    pub open spec fn burn(self, id: AssetId, from: AccountId, amount: Balance) -> LedgerState {
        self.with_balance(id, from, (self.balance_of(id, from) - amount) as u128).with_supply(
            id,
            saturating_difference(self.total_supply(id), amount),
        ).emit(EventView::Burned(id, from, amount))
    }

    /// The state in which the share asset `id` is known to the ledger.
    pub open spec fn register_share(self, id: AssetId) -> LedgerState {
        if self.has_asset(id) {
            self
        } else {
            LedgerState { infos: self.infos.insert(id, None), ..self }
        }
    }

    /// Issuing keeps supply conservation, given that nothing of the new
    /// asset exists yet.
    pub proof fn lemma_issue_conserves(self, owner: AccountId, total: Balance, info: AssetInfo)
        requires
            self.conserved(),
            self.circulating[self.next_asset_id] == 0,
            self.balance_of(self.next_asset_id, owner) == 0,
        ensures
            self.issue(owner, total, info).conserved(),
    {
        let after = self.issue(owner, total, info);
        assert forall|id: AssetId| after.supplies[id] == #[trigger] after.circulating[id] by {
            assert(self.supplies[id] == self.circulating[id]);
        }
    }

    /// A transfer keeps supply conservation.
    pub proof fn lemma_transfer_conserves(
        self,
        id: AssetId,
        from: AccountId,
        to: AccountId,
        amount: Balance,
    )
        requires
            self.conserved(),
            self.coherent(),
            self.transfer_error(id, from, amount) is None,
        ensures
            self.transfer(id, from, to, amount).conserved(),
            self.move_balance(id, from, to, amount).conserved(),
            from != to ==> self.transfer(id, from, to, amount).balance_of(id, to) == self.balance_of(
                id,
                to,
            ) + amount,
    {
        let after = self.move_balance(id, from, to, amount);
        assert(self.supplies[id] == self.circulating[id]);
        assert(self.balances[(id, from)] <= self.circulating[id]);
        if from != to {
            assert(self.balances[(id, from)] + self.balances[(id, to)] <= self.circulating[id]);
        }
        assert forall|other: AssetId| after.supplies[other] == #[trigger] after.circulating[other] by {
            assert(self.supplies[other] == self.circulating[other]);
        }
    }

    /// A transfer by a spender keeps supply conservation.
    pub proof fn lemma_transfer_from_conserves(
        self,
        id: AssetId,
        owner: AccountId,
        spender: AccountId,
        to: AccountId,
        amount: Balance,
    )
        requires
            self.conserved(),
            self.coherent(),
            self.transfer_from_error(id, owner, spender, amount) is None,
        ensures
            self.transfer_from(id, owner, spender, to, amount).conserved(),
    {
        self.lemma_transfer_conserves(id, owner, to, amount);
        let moved = self.transfer(id, owner, to, amount);
        let after = self.transfer_from(id, owner, spender, to, amount);
        assert forall|other: AssetId| after.supplies[other] == #[trigger] after.circulating[other] by {
            assert(moved.supplies[other] == moved.circulating[other]);
        }
    }

    /// Minting keeps supply conservation as long as the new total supply
    /// fits in an amount.
    pub proof fn lemma_mint_conserves(self, id: AssetId, to: AccountId, amount: Balance)
        requires
            self.conserved(),
            self.coherent(),
            self.total_supply(id) + amount <= u128::MAX,
        ensures
            self.mint(id, to, amount).conserved(),
            self.mint(id, to, amount).balance_of(id, to) == self.balance_of(id, to) + amount,
            self.mint(id, to, amount).total_supply(id) == self.total_supply(id) + amount,
    {
        let after = self.mint(id, to, amount);
        assert(self.supplies[id] == self.circulating[id]);
        assert(self.balances[(id, to)] <= self.circulating[id]);
        assert forall|other: AssetId| after.supplies[other] == #[trigger] after.circulating[other] by {
            assert(self.supplies[other] == self.circulating[other]);
        }
    }

    /// Burning keeps supply conservation.
    pub proof fn lemma_burn_conserves(self, id: AssetId, from: AccountId, amount: Balance)
        requires
            self.conserved(),
            self.coherent(),
            self.burn_error(id, from, amount) is None,
        ensures
            self.burn(id, from, amount).conserved(),
            self.burn(id, from, amount).total_supply(id) == self.total_supply(id) - amount,
    {
        let after = self.burn(id, from, amount);
        assert(self.supplies[id] == self.circulating[id]);
        assert(self.balances[(id, from)] <= self.circulating[id]);
        assert forall|other: AssetId| after.supplies[other] == #[trigger] after.circulating[other] by {
            assert(self.supplies[other] == self.circulating[other]);
        }
    }

    /// Only minting and burning change a total supply, and only that of
    /// their own asset: minting adds the amount, as far as the largest amount
    /// allows, and burning takes it off.
    pub proof fn lemma_only_mint_and_burn_change_supply(
        self,
        id: AssetId,
        from: AccountId,
        spender: AccountId,
        to: AccountId,
        amount: Balance,
        other: AssetId,
    )
        ensures
            self.transfer(id, from, to, amount).supplies == self.supplies,
            self.approve(id, from, spender, amount).supplies == self.supplies,
            self.transfer_from(id, from, spender, to, amount).supplies == self.supplies,
            self.mint(id, to, amount).total_supply(id) == saturating_sum(
                self.total_supply(id),
                amount,
            ),
            self.burn(id, from, amount).total_supply(id) == saturating_difference(
                self.total_supply(id),
                amount,
            ),
            other != id ==> self.mint(id, to, amount).total_supply(other) == self.total_supply(other),
            other != id ==> self.burn(id, from, amount).total_supply(other) == self.total_supply(
                other,
            ),
    {
    }

    /// An approval changes no allowance but the one it sets, and nothing
    /// else but the event log.
    pub proof fn lemma_approve_is_independent(
        self,
        id: AssetId,
        owner: AccountId,
        spender: AccountId,
        amount: Balance,
        other_id: AssetId,
        other_owner: AccountId,
        other_spender: AccountId,
    )
        requires
            (other_id, other_owner, other_spender) != (id, owner, spender),
        ensures
            self.approve(id, owner, spender, amount).allowance(other_id, other_owner, other_spender)
                == self.allowance(other_id, other_owner, other_spender),
            self.approve(id, owner, spender, amount).allowance(id, owner, spender) == amount,
            self.approve(id, owner, spender, amount).balances == self.balances,
            self.approve(id, owner, spender, amount).supplies == self.supplies,
    {
    }
}

} // verus!
