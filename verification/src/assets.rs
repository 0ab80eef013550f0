//! The asset ledger: balances, total supplies, allowances and asset metadata
//! for any number of asset classes.
//!
//! [`Module`] is the ledger. The contract of each of its operations names the
//! [`LedgerState`] that the operation leaves behind.

use crate::errors::Error;
use crate::events::{log_view, Event};
use crate::ledger::LedgerState;
use crate::primitives::{is_plain, is_share, pair_of, AccountId, AssetId, Balance, PLAIN_ASSET_LIMIT};
use crate::table::{
    allowance_key, balance_key, distinct_keys, lemma_amount_within_sum,
    lemma_two_amounts_within_sum, lookup, sum_of, supply_key, Entry, Key, Table,
};
use vstd::prelude::*;

verus! {

/// What is recorded of a plain asset when it is issued.
#[derive(Clone, Copy, Debug, PartialEq, Eq)]
pub struct AssetInfo {
    pub name: [u8; 16],
    pub symbol: [u8; 8],
    pub decimals: u8,
}

impl Default for AssetInfo {
    /// Metadata in which every byte is zero.
    fn default() -> (r: AssetInfo)
        ensures
            r.decimals == 0,
            forall|i: int| 0 <= i < 16 ==> r.name@[i] == 0,
            forall|i: int| 0 <= i < 8 ==> r.symbol@[i] == 0,
    {
        AssetInfo { name: [0u8; 16], symbol: [0u8; 8], decimals: 0 }
    }
}

/// An asset that the ledger knows: a plain asset with its metadata, or a
/// pool's share asset, which has none.
#[derive(Clone, Copy, Debug)]
pub struct AssetRecord {
    pub id: AssetId,
    pub info: Option<AssetInfo>,
}

/// The record of `id`, where the list has one.
pub open spec fn find_record(records: Seq<AssetRecord>, id: AssetId) -> Option<AssetRecord>
    decreases records.len(),
{
    if records.len() == 0 {
        None
    } else if records.last().id == id {
        Some(records.last())
    } else {
        find_record(records.drop_last(), id)
    }
}

/// No asset has two records.
pub open spec fn distinct_ids(records: Seq<AssetRecord>) -> bool {
    forall|i: int, j: int|
        0 <= i < records.len() && 0 <= j < records.len() && i != j ==> records[i].id
            != records[j].id
}

proof fn lemma_find_record_absent(records: Seq<AssetRecord>, id: AssetId)
    requires
        forall|i: int| 0 <= i < records.len() ==> records[i].id != id,
    ensures
        find_record(records, id) is None,
    decreases records.len(),
{
    if records.len() > 0 {
        lemma_find_record_absent(records.drop_last(), id);
    }
}

proof fn lemma_find_record_at(records: Seq<AssetRecord>, i: int)
    requires
        distinct_ids(records),
        0 <= i < records.len(),
    ensures
        find_record(records, records[i].id) == Some(records[i]),
    decreases records.len(),
{
    if i < records.len() - 1 {
        lemma_find_record_at(records.drop_last(), i);
    }
}

proof fn lemma_find_record_is_member(records: Seq<AssetRecord>, id: AssetId)
    requires
        find_record(records, id) is Some,
    ensures
        exists|i: int|
            0 <= i < records.len() && records[i] == find_record(records, id)->Some_0
                && records[i].id == id,
    decreases records.len(),
{
    if records.last().id == id {
        assert(records[records.len() - 1] == records.last());
    } else {
        lemma_find_record_is_member(records.drop_last(), id);
        let i = choose|i: int|
            0 <= i < records.drop_last().len() && records.drop_last()[i] == find_record(
                records.drop_last(),
                id,
            )->Some_0 && records.drop_last()[i].id == id;
        assert(records[i] == records.drop_last()[i]);
    }
}

proof fn lemma_find_record_push(records: Seq<AssetRecord>, record: AssetRecord, id: AssetId)
    ensures
        find_record(records.push(record), id) == (if id == record.id {
            Some(record)
        } else {
            find_record(records, id)
        }),
{
    assert(records.push(record).drop_last() =~= records);
}

/// No asset has two records, plain assets are numbered below the next free
/// identifier, and an asset without metadata is a share asset.
pub open spec fn registry_wf(records: Seq<AssetRecord>, next_asset_id: AssetId) -> bool {
    &&& distinct_ids(records)
    &&& next_asset_id <= PLAIN_ASSET_LIMIT
    &&& forall|i: int|
        0 <= i < records.len() ==> (match (#[trigger] records[i]).info {
            Some(_) => records[i].id < next_asset_id,
            None => is_share(records[i].id),
        })
}

/// Of an asset without a record there is no supply, and nobody holds any.
pub open spec fn nothing_of_unknown_assets(
    records: Seq<AssetRecord>,
    supplies: Table,
    balances: Table,
) -> bool {
    forall|id: AssetId|
        find_record(records, id) is None ==> #[trigger] supplies.spec_get(supply_key(id)) == 0
            && balances.spec_sum(id) == 0
}

/// The asset ledger.
pub struct Module {
    records: Vec<AssetRecord>,
    balances: Table,
    supplies: Table,
    allowances: Table,
    next_asset_id: AssetId,
    events: Vec<Event>,
}

impl View for Module {
    type V = LedgerState;

    closed spec fn view(&self) -> LedgerState {
        LedgerState {
            balances: Map::total(
                |k: (AssetId, AccountId)| self.balances.spec_get(balance_key(k.0, k.1)),
            ),
            supplies: Map::total(|id: AssetId| self.supplies.spec_get(supply_key(id))),
            circulating: Map::total(|id: AssetId| self.balances.spec_sum(id)),
            allowances: Map::total(
                |k: (AssetId, AccountId, AccountId)|
                    self.allowances.spec_get(allowance_key(k.0, k.1, k.2)),
            ),
            infos: Map::new(
                |id: AssetId| find_record(self.records@, id) is Some,
                |id: AssetId| find_record(self.records@, id)->Some_0.info,
            ),
            next_asset_id: self.next_asset_id,
            events: log_view(self.events@),
        }
    }
}

impl Module {
    /// The ledger's invariant. No asset has two records and no key two
    /// entries; every balance is recorded under an asset and its owner alone;
    /// plain assets are numbered below the next free identifier, which is
    /// itself no share identifier; an asset without metadata is a share
    /// asset; and of an asset that the ledger does not know, nothing exists.
    pub closed spec fn wf(&self) -> bool {
        &&& self.balances.wf()
        &&& self.supplies.wf()
        &&& self.allowances.wf()
        &&& forall|key: Key| #[trigger] self.balances.has_key(key) ==> key.second == 0
        &&& registry_wf(self.records@, self.next_asset_id)
        &&& nothing_of_unknown_assets(self.records@, self.supplies, self.balances)
    }

    /// The balances, one entry for each asset and owner that has one: what
    /// the state's balances and circulating sums are taken from.
    pub closed spec fn holdings(&self) -> Seq<Entry> {
        self.balances@
    }

    /// What the state's balances and sums mean: every holding is that of
    /// an asset and an owner, no asset and owner have two holdings, each
    /// balance is the amount that the list of holdings has for the asset and
    /// the owner, and what circulates of an asset is the sum of its holdings.
    pub proof fn lemma_circulating_is_sum_of_balances(&self, id: AssetId, who: AccountId)
        requires
            self.wf(),
        ensures
            distinct_keys(self.holdings()),
            forall|i: int|
                0 <= i < self.holdings().len() ==> (#[trigger] self.holdings()[i]).key
                    == balance_key(self.holdings()[i].key.asset, self.holdings()[i].key.first),
            self@.balance_of(id, who) == lookup(self.holdings(), balance_key(id, who)),
            self@.circulating[id] == sum_of(self.holdings(), id),
    {
        assert forall|i: int| 0 <= i < self.holdings().len() implies (
        #[trigger] self.holdings()[i]).key == balance_key(
            self.holdings()[i].key.asset,
            self.holdings()[i].key.first,
        ) by {
            assert(self.balances.has_key(self.holdings()[i].key));
        }
    }

    /// What the invariant gives of the state.
    pub proof fn lemma_wf(&self)
        requires
            self.wf(),
        ensures
            self@.coherent(),
            self@.next_asset_id <= PLAIN_ASSET_LIMIT,
            forall|id: AssetId| #[trigger]
                self@.has_asset(id) ==> (is_plain(id) && id < self@.next_asset_id
                    && self@.infos[id] is Some) || (is_share(id) && self@.infos[id] is None),
            forall|id: AssetId|
                !#[trigger] self@.has_asset(id) ==> self@.supplies[id] == 0
                    && self@.circulating[id] == 0,
            forall|id: AssetId, who: AccountId|
                !self@.has_asset(id) ==> #[trigger] self@.balances[(id, who)] == 0,
    {
        let s = self@;
        assert forall|id: AssetId, who: AccountId| #[trigger]
            s.balances[(id, who)] <= s.circulating[id] by {
            lemma_amount_within_sum(self.balances@, balance_key(id, who));
        }
        assert forall|id: AssetId, a: AccountId, b: AccountId| a != b implies #[trigger]
            s.balances[(id, a)] + #[trigger] s.balances[(id, b)] <= s.circulating[id] by {
            lemma_two_amounts_within_sum(self.balances@, balance_key(id, a), balance_key(id, b));
        }
        assert forall|id: AssetId| s.has_asset(id) implies (is_plain(id) && id < s.next_asset_id
            && s.infos[id] is Some) || (is_share(id) && s.infos[id] is None) by {
            lemma_find_record_is_member(self.records@, id);
        }
        assert forall|id: AssetId, who: AccountId| !s.has_asset(id) implies s.balances[(id, who)]
            == 0 by {
            assert(self.supplies.spec_get(supply_key(id)) == 0);
            lemma_amount_within_sum(self.balances@, balance_key(id, who));
        }
        assert forall|id: AssetId| !s.has_asset(id) implies s.supplies[id] == 0 && s.circulating[id]
            == 0 by {
            assert(self.supplies.spec_get(supply_key(id)) == 0);
        }
    }

    /// A ledger without assets: every amount is zero and the log is empty.
    pub fn new() -> (r: Module)
        ensures
            r.wf(),
            r@ == LedgerState::empty(),
            r@.conserved(),
    {
        let r = Module {
            records: Vec::new(),
            balances: Table::new(),
            supplies: Table::new(),
            allowances: Table::new(),
            next_asset_id: 0,
            events: Vec::new(),
        };
        proof {
            assert forall|id: AssetId| find_record(r.records@, id) is None by {
                lemma_find_record_absent(r.records@, id);
            }
            let expected = LedgerState::empty();
            assert(r@.balances =~= expected.balances);
            assert(r@.supplies =~= expected.supplies);
            assert(r@.circulating =~= expected.circulating);
            assert(r@.allowances =~= expected.allowances);
            assert(r@.infos =~= expected.infos);
            assert(r@.events =~= expected.events);
        }
        r
    }

    /// Where the record of `id` stands, if there is one.
    fn record_position(&self, id: AssetId) -> (r: Option<usize>)
        requires
            distinct_ids(self.records@),
        ensures
            match r {
                Some(i) => i < self.records@.len() && self.records@[i as int].id == id
                    && find_record(self.records@, id) == Some(self.records@[i as int]),
                None => find_record(self.records@, id) is None,
            },
    {
        let mut i: usize = 0;
        while i < self.records.len()
            invariant
                i <= self.records@.len(),
                distinct_ids(self.records@),
                forall|j: int| 0 <= j < i ==> self.records@[j].id != id,
            decreases self.records@.len() - i,
        {
            if self.records[i].id == id {
                proof {
                    lemma_find_record_at(self.records@, i as int);
                }
                return Some(i);
            }
            i += 1;
        }
        proof {
            lemma_find_record_absent(self.records@, id);
        }
        None
    }

    /// Issues `initial_supply` of a new plain asset to `owner` and returns the
    /// asset's identifier, the next free one.
    pub fn inner_issue(&mut self, owner: &AccountId, initial_supply: Balance, info: &AssetInfo) -> (id:
        AssetId)
        requires
            old(self).wf(),
            old(self)@.next_asset_id < PLAIN_ASSET_LIMIT,
        ensures
            final(self).wf(),
            id == old(self)@.next_asset_id,
            final(self)@ == old(self)@.issue(*owner, initial_supply, *info),
            old(self)@.conserved() ==> final(self)@.conserved(),
    {
        let id: AssetId = self.next_asset_id;
        let ghost before = *self;
        proof {
            before.lemma_wf();
            assert(!before@.has_asset(id));
            assert(find_record(before.records@, id) is None);
        }
        self.next_asset_id = id + 1;
        self.balances.set(Key { asset: id, first: *owner, second: 0 }, initial_supply);
        self.supplies.set(Key { asset: id, first: 0, second: 0 }, initial_supply);
        self.records.push(AssetRecord { id, info: Some(*info) });
        self.events.push(Event::Issued(id, *owner, initial_supply));
        proof {
            let expected = before@.issue(*owner, initial_supply, *info);
            let record = AssetRecord { id, info: Some(*info) };
            assert(self.records@ == before.records@.push(record));
            assert forall|other: AssetId| find_record(self.records@, other) == (if other == id {
                Some(record)
            } else {
                find_record(before.records@, other)
            }) by {
                lemma_find_record_push(before.records@, record, other);
            }
            assert(distinct_ids(self.records@)) by {
                assert forall|i: int| 0 <= i < before.records@.len() implies before.records@[i].id
                    != id by {
                    if before.records@[i].id == id {
                        lemma_find_record_at(before.records@, i);
                    }
                }
            }
            assert(self@.balances =~= expected.balances);
            assert(self@.supplies =~= expected.supplies);
            assert(self@.circulating =~= expected.circulating);
            assert(self@.allowances =~= expected.allowances);
            assert(self@.infos =~= expected.infos);
            assert(self@.events =~= expected.events);
            assert(self.wf()) by {
                assert forall|other: AssetId|
                    find_record(self.records@, other) is None implies #[trigger] self.supplies.spec_get(
                    supply_key(other),
                ) == 0 && self.balances.spec_sum(other) == 0 by {
                    assert(other != id);
                    assert(before.supplies.spec_get(supply_key(other)) == 0);
                }
            }
            if before@.conserved() {
                before@.lemma_issue_conserves(*owner, initial_supply, *info);
            }
        }
        id
    }

    /// Moves `amount` of `id` from `owner` to `target`. A zero amount and an
    /// amount above the owner's balance are refused.
    pub fn inner_transfer(
        &mut self,
        id: &AssetId,
        owner: &AccountId,
        target: &AccountId,
        amount: Balance,
    ) -> (r: Result<(), Error>)
        requires
            old(self).wf(),
        ensures
            final(self).wf(),
            match old(self)@.transfer_error(*id, *owner, amount) {
                Some(e) => r == Err::<(), Error>(e) && final(self)@ == old(self)@,
                None => r == Ok::<(), Error>(()) && final(self)@ == old(self)@.transfer(
                    *id,
                    *owner,
                    *target,
                    amount,
                ),
            },
            old(self)@.conserved() ==> final(self)@.conserved(),
    {
        let ghost before = *self;
        let from_key = Key { asset: *id, first: *owner, second: 0 };
        let to_key = Key { asset: *id, first: *target, second: 0 };
        let owner_balance: Balance = self.balances.get(from_key);
        if amount == 0 {
            return Err(Error::AmountZero);
        }
        if owner_balance < amount {
            return Err(Error::BalanceLow);
        }
        let new_balance: Balance = owner_balance - amount;
        self.balances.set(from_key, new_balance);
        let target_balance: Balance = self.balances.get(to_key);
        self.balances.set(to_key, target_balance.saturating_add(amount));
        self.events.push(Event::Transferred(*id, *owner, *target, amount));
        proof {
            let expected = before@.transfer(*id, *owner, *target, amount);
            before.lemma_wf();
            assert(self@.balances =~= expected.balances);
            assert(self@.circulating =~= expected.circulating);
            assert(self@.supplies =~= expected.supplies);
            assert(self@.allowances =~= expected.allowances);
            assert(self@.infos =~= expected.infos);
            assert(self@.events =~= expected.events);
            assert(self.wf()) by {
                assert(before@.has_asset(*id));
                assert forall|other: AssetId|
                    find_record(self.records@, other) is None implies #[trigger] self.supplies.spec_get(
                    supply_key(other),
                ) == 0 && self.balances.spec_sum(other) == 0 by {
                    assert(other != *id);
                    assert(before.supplies.spec_get(supply_key(other)) == 0);
                }
            }
            if before@.conserved() {
                before@.lemma_transfer_conserves(*id, *owner, *target, amount);
            }
        }
        Ok(())
    }

    /// Lets `spender` take up to `amount` of `id` from `owner`. The amount
    /// replaces what was approved before; no other allowance changes.
    pub fn inner_approve(
        &mut self,
        id: &AssetId,
        owner: &AccountId,
        spender: &AccountId,
        amount: Balance,
    ) -> (r: Result<(), Error>)
        requires
            old(self).wf(),
        ensures
            final(self).wf(),
            r == Ok::<(), Error>(()),
            final(self)@ == old(self)@.approve(*id, *owner, *spender, amount),
            forall|a: AssetId, o: AccountId, s: AccountId|
                (a, o, s) != (*id, *owner, *spender) ==> final(self)@.allowance(a, o, s) == old(
                    self,
                )@.allowance(a, o, s),
            old(self)@.conserved() ==> final(self)@.conserved(),
    {
        let ghost before = *self;
        self.allowances.set(Key { asset: *id, first: *owner, second: *spender }, amount);
        self.events.push(Event::Approval(*id, *owner, *spender, amount));
        proof {
            let expected = before@.approve(*id, *owner, *spender, amount);
            assert(self@.balances =~= expected.balances);
            assert(self@.circulating =~= expected.circulating);
            assert(self@.supplies =~= expected.supplies);
            assert(self@.allowances =~= expected.allowances);
            assert(self@.infos =~= expected.infos);
            assert(self@.events =~= expected.events);
        }
        Ok(())
    }

    /// Moves `amount` of `id` from `owner` to `target` on behalf of
    /// `spender`, and lowers the spender's allowance by the amount. An amount
    /// above the allowance is refused, then whatever a transfer refuses.
    pub fn inner_transfer_from(
        &mut self,
        id: &AssetId,
        owner: &AccountId,
        spender: &AccountId,
        target: &AccountId,
        amount: Balance,
    ) -> (r: Result<(), Error>)
        requires
            old(self).wf(),
        ensures
            final(self).wf(),
            match old(self)@.transfer_from_error(*id, *owner, *spender, amount) {
                Some(e) => r == Err::<(), Error>(e) && final(self)@ == old(self)@,
                None => r == Ok::<(), Error>(()) && final(self)@ == old(self)@.transfer_from(
                    *id,
                    *owner,
                    *spender,
                    *target,
                    amount,
                ),
            },
            old(self)@.conserved() ==> final(self)@.conserved(),
    {
        let ghost before = *self;
        let key = Key { asset: *id, first: *owner, second: *spender };
        let allowance: Balance = self.allowances.get(key);
        if allowance < amount {
            return Err(Error::AllowanceLow);
        }
        let new_allowance: Balance = allowance - amount;
        match self.inner_transfer(id, owner, target, amount) {
            Err(e) => {
                return Err(e);
            },
            Ok(()) => {},
        }
        let ghost moved = *self;
        self.allowances.set(key, new_allowance);
        proof {
            let expected = before@.transfer_from(*id, *owner, *spender, *target, amount);
            assert(self.wf()) by {
                assert(moved.wf());
                assert forall|other: AssetId|
                    find_record(self.records@, other) is None implies #[trigger] self.supplies.spec_get(
                    supply_key(other),
                ) == 0 && self.balances.spec_sum(other) == 0 by {
                    assert(moved.supplies.spec_get(supply_key(other)) == 0);
                }
            }
            assert(self@.balances =~= expected.balances);
            assert(self@.circulating =~= expected.circulating);
            assert(self@.supplies =~= expected.supplies);
            assert(self@.allowances =~= expected.allowances);
            assert(self@.infos =~= expected.infos);
            assert(self@.events =~= expected.events);
            if before@.conserved() {
                before.lemma_wf();
                before@.lemma_transfer_from_conserves(*id, *owner, *spender, *target, amount);
            }
        }
        Ok(())
    }

    /// Creates `amount` of `id` for `owner`. An asset that the ledger does
    /// not know is refused. Balance and total supply stop at the largest
    /// amount there is; supply conservation is kept as long as the total supply
    /// does not reach it.
    pub fn inner_mint(&mut self, id: &AssetId, owner: &AccountId, amount: Balance) -> (r: Result<
        (),
        Error,
    >)
        requires
            old(self).wf(),
        ensures
            final(self).wf(),
            match old(self)@.mint_error(*id) {
                Some(e) => r == Err::<(), Error>(e) && final(self)@ == old(self)@,
                None => r == Ok::<(), Error>(()) && final(self)@ == old(self)@.mint(
                    *id,
                    *owner,
                    amount,
                ),
            },
            old(self)@.conserved() && old(self)@.total_supply(*id) + amount <= u128::MAX
                ==> final(self)@.conserved(),
    {
        let ghost before = *self;
        if self.record_position(*id).is_none() {
            return Err(Error::AssetNotExists);
        }
        let key = Key { asset: *id, first: *owner, second: 0 };
        let supply = Key { asset: *id, first: 0, second: 0 };
        let new_balance: Balance = self.balances.get(key).saturating_add(amount);
        self.balances.set(key, new_balance);
        let new_supply: Balance = self.supplies.get(supply).saturating_add(amount);
        self.supplies.set(supply, new_supply);
        self.events.push(Event::Minted(*id, *owner, amount));
        proof {
            let expected = before@.mint(*id, *owner, amount);
            assert(self@.balances =~= expected.balances);
            assert(self@.circulating =~= expected.circulating);
            assert(self@.supplies =~= expected.supplies);
            assert(self@.allowances =~= expected.allowances);
            assert(self@.infos =~= expected.infos);
            assert(self@.events =~= expected.events);
            assert(self.wf()) by {
                assert forall|other: AssetId|
                    find_record(self.records@, other) is None implies #[trigger] self.supplies.spec_get(
                    supply_key(other),
                ) == 0 && self.balances.spec_sum(other) == 0 by {
                    assert(other != *id);
                    assert(before.supplies.spec_get(supply_key(other)) == 0);
                }
            }
            if before@.conserved() && before@.total_supply(*id) + amount <= u128::MAX {
                before.lemma_wf();
                before@.lemma_mint_conserves(*id, *owner, amount);
            }
        }
        Ok(())
    }

    /// Destroys `amount` of `id` held by `owner`. An asset that the ledger
    /// does not know is refused, then an amount above the owner's balance.
    pub fn inner_burn(&mut self, id: &AssetId, owner: &AccountId, amount: Balance) -> (r: Result<
        (),
        Error,
    >)
        requires
            old(self).wf(),
        ensures
            final(self).wf(),
            match old(self)@.burn_error(*id, *owner, amount) {
                Some(e) => r == Err::<(), Error>(e) && final(self)@ == old(self)@,
                None => r == Ok::<(), Error>(()) && final(self)@ == old(self)@.burn(
                    *id,
                    *owner,
                    amount,
                ),
            },
            old(self)@.conserved() ==> final(self)@.conserved(),
    {
        let ghost before = *self;
        if self.record_position(*id).is_none() {
            return Err(Error::AssetNotExists);
        }
        let key = Key { asset: *id, first: *owner, second: 0 };
        let supply = Key { asset: *id, first: 0, second: 0 };
        let balance: Balance = self.balances.get(key);
        if balance < amount {
            return Err(Error::BalanceLow);
        }
        let new_balance: Balance = balance - amount;
        self.balances.set(key, new_balance);
        let new_supply: Balance = self.supplies.get(supply).saturating_sub(amount);
        self.supplies.set(supply, new_supply);
        self.events.push(Event::Burned(*id, *owner, amount));
        proof {
            let expected = before@.burn(*id, *owner, amount);
            assert(self@.balances =~= expected.balances);
            assert(self@.circulating =~= expected.circulating);
            assert(self@.supplies =~= expected.supplies);
            assert(self@.allowances =~= expected.allowances);
            assert(self@.infos =~= expected.infos);
            assert(self@.events =~= expected.events);
            assert(self.wf()) by {
                assert forall|other: AssetId|
                    find_record(self.records@, other) is None implies #[trigger] self.supplies.spec_get(
                    supply_key(other),
                ) == 0 && self.balances.spec_sum(other) == 0 by {
                    assert(other != *id);
                    assert(before.supplies.spec_get(supply_key(other)) == 0);
                }
            }
            if before@.conserved() {
                before.lemma_wf();
                before@.lemma_burn_conserves(*id, *owner, amount);
            }
        }
        Ok(())
    }

    /// Makes the share asset `id` known to the ledger, so that it can be
    /// minted. An identifier that is no share identifier is refused.
    pub fn inner_register_share(&mut self, id: &AssetId) -> (r: Result<(), Error>)
        requires
            old(self).wf(),
        ensures
            final(self).wf(),
            is_share(*id) ==> r == Ok::<(), Error>(()) && final(self)@ == old(self)@.register_share(
                *id,
            ),
            !is_share(*id) ==> r == Err::<(), Error>(Error::InvalidCurrencyId) && final(self)@
                == old(self)@,
            old(self)@.conserved() ==> final(self)@.conserved(),
    {
        let ghost before = *self;
        if pair_of(*id).is_none() {
            return Err(Error::InvalidCurrencyId);
        }
        if self.record_position(*id).is_some() {
            return Ok(());
        }
        self.records.push(AssetRecord { id: *id, info: None });
        proof {
            let expected = before@.register_share(*id);
            let record = AssetRecord { id: *id, info: None };
            assert(self.records@ == before.records@.push(record));
            assert forall|other: AssetId| find_record(self.records@, other) == (if other == *id {
                Some(record)
            } else {
                find_record(before.records@, other)
            }) by {
                lemma_find_record_push(before.records@, record, other);
            }
            assert(distinct_ids(self.records@)) by {
                assert forall|i: int| 0 <= i < before.records@.len() implies before.records@[i].id
                    != *id by {
                    if before.records@[i].id == *id {
                        lemma_find_record_at(before.records@, i);
                    }
                }
            }
            assert(self@.infos =~= expected.infos);
            assert(self@.balances =~= expected.balances);
            assert(self@.circulating =~= expected.circulating);
            assert(self@.supplies =~= expected.supplies);
            assert(self@.allowances =~= expected.allowances);
        }
        Ok(())
    }

    /// Adds `event` to the end of the log.
    pub fn deposit_event(&mut self, event: Event)
        requires
            old(self).wf(),
        ensures
            final(self).wf(),
            final(self)@ == old(self)@.emit(event@),
    {
        let ghost before = *self;
        self.events.push(event);
        proof {
            let expected = before@.emit(event@);
            assert(self@.events =~= expected.events);
            assert(self@.balances =~= expected.balances);
            assert(self@.circulating =~= expected.circulating);
            assert(self@.supplies =~= expected.supplies);
            assert(self@.allowances =~= expected.allowances);
            assert(self@.infos =~= expected.infos);
        }
    }

    /// What `owner` holds of `id`.
    pub fn balance_of(&self, id: &AssetId, owner: &AccountId) -> (r: Balance)
        requires
            self.wf(),
        ensures
            r == self@.balance_of(*id, *owner),
    {
        self.balances.get(Key { asset: *id, first: *owner, second: 0 })
    }

    /// The total supply of `id`.
    pub fn total_supply(&self, id: &AssetId) -> (r: Balance)
        requires
            self.wf(),
        ensures
            r == self@.total_supply(*id),
    {
        self.supplies.get(Key { asset: *id, first: 0, second: 0 })
    }

    /// What `spender` may take of `id` from `owner`.
    pub fn allowances(&self, id: &AssetId, owner: &AccountId, spender: &AccountId) -> (r: Balance)
        requires
            self.wf(),
        ensures
            r == self@.allowance(*id, *owner, *spender),
    {
        self.allowances.get(Key { asset: *id, first: *owner, second: *spender })
    }

    /// The metadata of `id`: `None` for an asset that was never issued.
    pub fn asset_info(&self, id: &AssetId) -> (r: Option<AssetInfo>)
        requires
            self.wf(),
        ensures
            r == self@.asset_info(*id),
    {
        match self.record_position(*id) {
            Some(i) => self.records[i].info,
            None => None,
        }
    }

    /// Whether `id` has been issued, or created as a pool's share asset.
    pub fn asset_exists(&self, id: &AssetId) -> (r: bool)
        requires
            self.wf(),
        ensures
            r == self@.has_asset(*id),
    {
        self.record_position(*id).is_some()
    }

    /// The identifier that the next issued asset will get.
    pub fn next_asset_id(&self) -> (r: AssetId)
        ensures
            r == self@.next_asset_id,
    {
        self.next_asset_id
    }

    /// The event log, oldest event first.
    pub fn events(&self) -> (r: &Vec<Event>)
        ensures
            log_view(r@) == self@.events,
    {
        &self.events
    }
}

} // verus!
