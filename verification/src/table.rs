//! A table of amounts, each under a key, with zero for a key that is absent.
//!
//! The ledger keeps balances, total supplies and allowances in tables of this
//! kind. A table is a list of entries in which no key occurs twice; what it
//! means is the amount under each key and, for each asset, the sum of the
//! amounts under that asset's keys.

use crate::primitives::{AccountId, AssetId, Balance};
use vstd::prelude::*;

verus! {

/// What an amount is recorded under: an asset, and up to two further parts
/// that say whose amount of the asset it is. A balance is keyed by asset and
/// owner, an allowance by asset, owner and spender, a total supply by asset
/// alone, and a pool's reserve by the asset and the other asset of the pool;
/// the parts that a key does not use are zero.
#[derive(Clone, Copy, Debug, PartialEq, Eq, Structural)]
pub struct Key {
    pub asset: AssetId,
    pub first: u64,
    pub second: u64,
}

/// One amount and its key.
#[derive(Clone, Copy, Debug)]
pub struct Entry {
    pub key: Key,
    pub amount: Balance,
}

/// The key of the balance that `owner` holds of `asset`.
pub open spec fn balance_key(asset: AssetId, owner: AccountId) -> Key {
    Key { asset, first: owner, second: 0 }
}

/// The key of the total supply of `asset`.
pub open spec fn supply_key(asset: AssetId) -> Key {
    Key { asset, first: 0, second: 0 }
}

/// The key of what `spender` may take of `asset` from `owner`.
pub open spec fn allowance_key(asset: AssetId, owner: AccountId, spender: AccountId) -> Key {
    Key { asset, first: owner, second: spender }
}

/// The key of the reserve of `asset` in the pool that it shares with
/// `partner`.
pub open spec fn reserve_key(asset: AssetId, partner: AssetId) -> Key {
    Key { asset, first: partner, second: 0 }
}

/// No key occurs twice.
pub open spec fn distinct_keys(entries: Seq<Entry>) -> bool {
    forall|i: int, j: int|
        0 <= i < entries.len() && 0 <= j < entries.len() && i != j ==> entries[i].key
            != entries[j].key
}

/// The amount under `key`: zero where no entry has that key.
pub open spec fn lookup(entries: Seq<Entry>, key: Key) -> Balance
    decreases entries.len(),
{
    if entries.len() == 0 {
        0
    } else if entries.last().key == key {
        entries.last().amount
    } else {
        lookup(entries.drop_last(), key)
    }
}

/// What one entry adds to the sum of `asset`.
pub open spec fn share_of_sum(entry: Entry, asset: AssetId) -> nat {
    if entry.key.asset == asset {
        entry.amount as nat
    } else {
        0
    }
}

/// The sum of the amounts recorded under the keys of `asset`.
pub open spec fn sum_of(entries: Seq<Entry>, asset: AssetId) -> nat
    decreases entries.len(),
{
    if entries.len() == 0 {
        0
    } else {
        sum_of(entries.drop_last(), asset) + share_of_sum(entries.last(), asset)
    }
}

/// A key that no entry has gives zero.
pub proof fn lemma_lookup_absent(entries: Seq<Entry>, key: Key)
    requires
        forall|i: int| 0 <= i < entries.len() ==> entries[i].key != key,
    ensures
        lookup(entries, key) == 0,
    decreases entries.len(),
{
    if entries.len() > 0 {
        lemma_lookup_absent(entries.drop_last(), key);
    }
}

/// The key of an entry gives that entry's amount.
pub proof fn lemma_lookup_at(entries: Seq<Entry>, i: int)
    requires
        distinct_keys(entries),
        0 <= i < entries.len(),
    ensures
        lookup(entries, entries[i].key) == entries[i].amount,
    decreases entries.len(),
{
    if i < entries.len() - 1 {
        lemma_lookup_at(entries.drop_last(), i);
    }
}

/// A new entry at the end changes the amount under its own key only.
pub proof fn lemma_lookup_push(entries: Seq<Entry>, entry: Entry, key: Key)
    ensures
        lookup(entries.push(entry), key) == (if key == entry.key {
            entry.amount
        } else {
            lookup(entries, key)
        }),
{
    assert(entries.push(entry).drop_last() =~= entries);
}

/// A new amount in an entry changes the amount under that entry's key only.
pub proof fn lemma_lookup_update(entries: Seq<Entry>, i: int, amount: Balance, key: Key)
    requires
        distinct_keys(entries),
        0 <= i < entries.len(),
    ensures
        lookup(entries.update(i, Entry { key: entries[i].key, amount }), key) == (if key
            == entries[i].key {
            amount
        } else {
            lookup(entries, key)
        }),
    decreases entries.len(),
{
    let changed = entries.update(i, Entry { key: entries[i].key, amount });
    if i == entries.len() - 1 {
        assert(changed.drop_last() =~= entries.drop_last());
    } else {
        assert(changed.drop_last() =~= entries.drop_last().update(
            i,
            Entry { key: entries[i].key, amount },
        ));
        lemma_lookup_update(entries.drop_last(), i, amount, key);
    }
}

/// A new entry at the end adds its amount to the sum of its asset.
pub proof fn lemma_sum_push(entries: Seq<Entry>, entry: Entry, asset: AssetId)
    ensures
        sum_of(entries.push(entry), asset) == sum_of(entries, asset) + share_of_sum(entry, asset),
{
    assert(entries.push(entry).drop_last() =~= entries);
}

/// A new amount in an entry moves the sum of its asset by the difference.
pub proof fn lemma_sum_update(entries: Seq<Entry>, i: int, amount: Balance, asset: AssetId)
    requires
        0 <= i < entries.len(),
    ensures
        sum_of(entries.update(i, Entry { key: entries[i].key, amount }), asset) + share_of_sum(
            entries[i],
            asset,
        ) == sum_of(entries, asset) + share_of_sum(Entry { key: entries[i].key, amount }, asset),
    decreases entries.len(),
{
    let changed = entries.update(i, Entry { key: entries[i].key, amount });
    if i == entries.len() - 1 {
        assert(changed.drop_last() =~= entries.drop_last());
    } else {
        assert(changed.drop_last() =~= entries.drop_last().update(
            i,
            Entry { key: entries[i].key, amount },
        ));
        lemma_sum_update(entries.drop_last(), i, amount, asset);
    }
}

/// An amount is at most the sum of its asset.
pub proof fn lemma_amount_within_sum(entries: Seq<Entry>, key: Key)
    ensures
        lookup(entries, key) <= sum_of(entries, key.asset),
    decreases entries.len(),
{
    if entries.len() > 0 {
        lemma_amount_within_sum(entries.drop_last(), key);
    }
}

/// The amounts under two keys of one asset are together at most its sum.
pub proof fn lemma_two_amounts_within_sum(entries: Seq<Entry>, first: Key, second: Key)
    requires
        distinct_keys(entries),
        first != second,
        first.asset == second.asset,
    ensures
        lookup(entries, first) + lookup(entries, second) <= sum_of(entries, first.asset),
    decreases entries.len(),
{
    if entries.len() > 0 {
        let front = entries.drop_last();
        assert(distinct_keys(front));
        if entries.last().key == first {
            lemma_amount_within_sum(front, second);
        } else if entries.last().key == second {
            lemma_amount_within_sum(front, first);
        } else {
            lemma_two_amounts_within_sum(front, first, second);
        }
    }
}

/// Where every amount of an asset is zero, so is their sum.
pub proof fn lemma_sum_of_none(entries: Seq<Entry>, asset: AssetId)
    requires
        forall|i: int|
            0 <= i < entries.len() && entries[i].key.asset == asset ==> (#[trigger] entries[i]).amount
                == 0,
    ensures
        sum_of(entries, asset) == 0,
    decreases entries.len(),
{
    if entries.len() > 0 {
        let front = entries.drop_last();
        assert forall|i: int| 0 <= i < front.len() && front[i].key.asset == asset implies (
        #[trigger] front[i]).amount == 0 by {
            assert(front[i] == entries[i]);
        }
        lemma_sum_of_none(front, asset);
        assert(entries.last() == entries[entries.len() - 1]);
    }
}

/// Where every amount of an asset but the one under `key` is zero, the sum of
/// the asset is the amount under `key`.
pub proof fn lemma_sum_of_single(entries: Seq<Entry>, key: Key)
    requires
        distinct_keys(entries),
        forall|i: int|
            0 <= i < entries.len() && entries[i].key.asset == key.asset && entries[i].key != key
                ==> (#[trigger] entries[i]).amount == 0,
    ensures
        sum_of(entries, key.asset) == lookup(entries, key),
    decreases entries.len(),
{
    if entries.len() > 0 {
        let front = entries.drop_last();
        let last = entries.last();
        assert(last == entries[entries.len() - 1]);
        assert forall|i: int| 0 <= i < front.len() implies front[i] == entries[i] by {}
        if last.key == key {
            assert forall|i: int| 0 <= i < front.len() && front[i].key.asset == key.asset implies (
            #[trigger] front[i]).amount == 0 by {
                assert(front[i] == entries[i]);
                assert(entries[i].key != entries[entries.len() - 1].key);
            }
            lemma_sum_of_none(front, key.asset);
        } else {
            assert(distinct_keys(front));
            assert forall|i: int|
                0 <= i < front.len() && front[i].key.asset == key.asset && front[i].key
                    != key implies (#[trigger] front[i]).amount == 0 by {
                assert(front[i] == entries[i]);
            }
            lemma_sum_of_single(front, key);
        }
    }
}

/// Amounts under keys, zero where a key is absent.
pub struct Table {
    entries: Vec<Entry>,
}

impl View for Table {
    type V = Seq<Entry>;

    closed spec fn view(&self) -> Seq<Entry> {
        self.entries@
    }
}

impl Table {
    /// No key occurs twice.
    pub open spec fn wf(&self) -> bool {
        distinct_keys(self@)
    }

    /// The amount under `key`.
    pub open spec fn spec_get(&self, key: Key) -> Balance {
        lookup(self@, key)
    }

    /// The sum of the amounts under the keys of `asset`.
    pub open spec fn spec_sum(&self, asset: AssetId) -> nat {
        sum_of(self@, asset)
    }

    /// Whether the table has an entry for `key`.
    pub open spec fn has_key(&self, key: Key) -> bool {
        exists|i: int| 0 <= i < self@.len() && #[trigger] self@[i].key == key
    }

    /// A table in which every amount is zero.
    pub fn new() -> (r: Table)
        ensures
            r.wf(),
            r@ == Seq::<Entry>::empty(),
            forall|key: Key| !r.has_key(key),
            forall|key: Key| r.spec_get(key) == 0,
            forall|asset: AssetId| r.spec_sum(asset) == 0,
    {
        Table { entries: Vec::new() }
    }

    /// Where the entry of `key` stands, if there is one.
    fn position(&self, key: Key) -> (r: Option<usize>)
        ensures
            match r {
                Some(i) => i < self@.len() && self@[i as int].key == key,
                None => forall|i: int| 0 <= i < self@.len() ==> self@[i].key != key,
            },
    {
        let mut i: usize = 0;
        while i < self.entries.len()
            invariant
                i <= self.entries@.len(),
                forall|j: int| 0 <= j < i ==> self.entries@[j].key != key,
            decreases self.entries@.len() - i,
        {
            if self.entries[i].key == key {
                return Some(i);
            }
            i += 1;
        }
        None
    }

    /// The amount under `key`.
    pub fn get(&self, key: Key) -> (r: Balance)
        requires
            self.wf(),
        ensures
            r == self.spec_get(key),
    {
        match self.position(key) {
            Some(i) => {
                proof {
                    lemma_lookup_at(self@, i as int);
                }
                self.entries[i].amount
            },
            None => {
                proof {
                    lemma_lookup_absent(self@, key);
                }
                0
            },
        }
    }

    /// Puts `amount` under `key`. No other amount changes, and the sum of the
    /// key's asset moves by the difference between the new amount and the old.
    pub fn set(&mut self, key: Key, amount: Balance)
        requires
            old(self).wf(),
        ensures
            final(self).wf(),
            final(self).spec_get(key) == amount,
            forall|other: Key| other != key ==> final(self).spec_get(other) == old(self).spec_get(other),
            final(self).spec_sum(key.asset) + old(self).spec_get(key) == old(self).spec_sum(key.asset)
                + amount,
            forall|asset: AssetId|
                asset != key.asset ==> final(self).spec_sum(asset) == old(self).spec_sum(asset),
            forall|other: Key|
                #[trigger] final(self).has_key(other) ==> other == key || old(self).has_key(other),
    {
        let ghost before = self@;
        match self.position(key) {
            Some(i) => {
                self.entries.set(i, Entry { key, amount });
                proof {
                    let after = self@;
                    assert(after =~= before.update(i as int, Entry { key: before[i as int].key, amount }));
                    lemma_lookup_at(before, i as int);
                    assert forall|other: Key| true implies lookup(after, other) == (if other == key {
                        amount
                    } else {
                        lookup(before, other)
                    }) by {
                        lemma_lookup_update(before, i as int, amount, other);
                    }
                    assert forall|asset: AssetId| true implies sum_of(after, asset) + share_of_sum(
                        before[i as int],
                        asset,
                    ) == sum_of(before, asset) + share_of_sum(Entry { key, amount }, asset) by {
                        lemma_sum_update(before, i as int, amount, asset);
                    }
                    assert(sum_of(after, key.asset) + share_of_sum(before[i as int], key.asset)
                        == sum_of(before, key.asset) + share_of_sum(Entry { key, amount }, key.asset));
                    assert forall|other: Key| #[trigger] self.has_key(other) implies other == key
                        || old(self).has_key(other) by {
                        let j = choose|j: int| 0 <= j < after.len() && #[trigger] after[j].key == other;
                        assert(before[j].key == other);
                    }
                }
            },
            None => {
                self.entries.push(Entry { key, amount });
                proof {
                    let after = self@;
                    assert(after =~= before.push(Entry { key, amount }));
                    lemma_lookup_absent(before, key);
                    assert forall|other: Key| true implies lookup(after, other) == (if other == key {
                        amount
                    } else {
                        lookup(before, other)
                    }) by {
                        lemma_lookup_push(before, Entry { key, amount }, other);
                    }
                    assert forall|asset: AssetId| true implies sum_of(after, asset) == sum_of(
                        before,
                        asset,
                    ) + share_of_sum(Entry { key, amount }, asset) by {
                        lemma_sum_push(before, Entry { key, amount }, asset);
                    }
                    assert(sum_of(after, key.asset) == sum_of(before, key.asset) + share_of_sum(
                        Entry { key, amount },
                        key.asset,
                    ));
                    assert forall|other: Key| #[trigger] self.has_key(other) implies other == key
                        || old(self).has_key(other) by {
                        let j = choose|j: int| 0 <= j < after.len() && #[trigger] after[j].key == other;
                        if j < before.len() {
                            assert(before[j].key == other);
                        }
                    }
                }
            },
        }
    }
}

} // verus!
