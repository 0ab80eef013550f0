//! Identifiers, amounts and trading pairs.
//!
//! Asset identifiers fall into two disjoint ranges. Plain assets, issued by
//! users, lie below [`PLAIN_ASSET_LIMIT`]. The share asset of a pool carries
//! [`SHARE_TAG`] and, below it, the two plain identifiers of the pool's
//! canonical pair, so that the pair can be read back from the identifier.

use vstd::prelude::*;

verus! {

/// The identifier of an asset class.
pub type AssetId = u64;

/// The identifier of an account.
pub type AccountId = u64;

/// An amount of an asset.
pub type Balance = u128;

/// Plain asset identifiers are the numbers below this bound (2^31).
pub const PLAIN_ASSET_LIMIT: u64 = 0x8000_0000;

/// The bit that marks a share asset identifier (2^63).
pub const SHARE_TAG: u64 = 0x8000_0000_0000_0000;

/// Whether `id` names a plain asset.
pub open spec fn is_plain(id: AssetId) -> bool {
    id < PLAIN_ASSET_LIMIT
}

/// The pair encoded in `id`, where `id` is a share asset identifier.
pub open spec fn spec_pair_of(id: AssetId) -> Option<TradingPair> {
    if id >= SHARE_TAG && (id - SHARE_TAG) / (PLAIN_ASSET_LIMIT as int) < (id - SHARE_TAG) % (
    PLAIN_ASSET_LIMIT as int) {
        Some(
            TradingPair {
                first: ((id - SHARE_TAG) / (PLAIN_ASSET_LIMIT as int)) as u64,
                second: ((id - SHARE_TAG) % (PLAIN_ASSET_LIMIT as int)) as u64,
            },
        )
    } else {
        None
    }
}

/// Whether `id` names the share asset of some pool.
pub open spec fn is_share(id: AssetId) -> bool {
    spec_pair_of(id) is Some
}

/// The pair whose share asset `id` is, or `None` where `id` is no share asset.
pub fn pair_of(id: AssetId) -> (r: Option<TradingPair>)
    ensures
        r == spec_pair_of(id),
        r matches Some(pair) ==> pair.valid() && pair.spec_share_id() == id,
{
    if id < SHARE_TAG {
        return None;
    }
    let rest: u64 = id - SHARE_TAG;
    let first: u64 = rest / PLAIN_ASSET_LIMIT;
    let second: u64 = rest % PLAIN_ASSET_LIMIT;
    if first < second {
        Some(TradingPair { first, second })
    } else {
        None
    }
}

/// Two distinct plain assets in canonical order: the smaller identifier first.
#[derive(Clone, Copy, Debug, PartialEq, Eq, Structural)]
pub struct TradingPair {
    pub first: AssetId,
    pub second: AssetId,
}

impl TradingPair {
    /// Whether the pair is canonical: two plain assets, the smaller first.
    pub open spec fn valid(self) -> bool {
        self.first < self.second && is_plain(self.second)
    }

    /// The canonical pair of `a` and `b`, where they form one.
    pub open spec fn spec_new(a: AssetId, b: AssetId) -> Option<TradingPair> {
        if a == b || !is_plain(a) || !is_plain(b) {
            None
        } else if a < b {
            Some(TradingPair { first: a, second: b })
        } else {
            Some(TradingPair { first: b, second: a })
        }
    }

    /// The identifier of the pair's share asset.
    pub open spec fn spec_share_id(self) -> AssetId {
        (SHARE_TAG + self.first * PLAIN_ASSET_LIMIT + self.second) as u64
    }

    /// The canonical pair of `a` and `b`: `None` unless they are two
    /// different plain assets.
    pub fn new(a: AssetId, b: AssetId) -> (r: Option<TradingPair>)
        ensures
            r == Self::spec_new(a, b),
            r matches Some(pair) ==> pair.valid(),
    {
        if a == b || a >= PLAIN_ASSET_LIMIT || b >= PLAIN_ASSET_LIMIT {
            None
        } else if a < b {
            Some(TradingPair { first: a, second: b })
        } else {
            Some(TradingPair { first: b, second: a })
        }
    }

    /// Whether the pair is canonical.
    pub fn is_valid(&self) -> (r: bool)
        ensures
            r == self.valid(),
    {
        self.first < self.second && self.second < PLAIN_ASSET_LIMIT
    }

    /// The identifier of the pair's share asset: `None` where the pair is not
    /// canonical.
    pub fn get_dex_share_currency_id(&self) -> (r: Option<AssetId>)
        ensures
            r == (if self.valid() {
                Some(self.spec_share_id())
            } else {
                None
            }),
            r matches Some(id) ==> is_share(id) && !is_plain(id) && spec_pair_of(id) == Some(*self),
    {
        if self.first < self.second && self.second < PLAIN_ASSET_LIMIT {
            let id: u64 = SHARE_TAG + self.first * PLAIN_ASSET_LIMIT + self.second;
            Some(id)
        } else {
            None
        }
    }
}

/// Plain and share identifiers never coincide.
pub proof fn lemma_plain_and_share_are_disjoint(id: AssetId)
    ensures
        !(is_plain(id) && is_share(id)),
{
}

/// The pair read back from the share identifier of a canonical pair is that
/// pair.
pub proof fn lemma_share_id_round_trip(pair: TradingPair)
    requires
        pair.valid(),
    ensures
        is_share(pair.spec_share_id()),
        spec_pair_of(pair.spec_share_id()) == Some(pair),
{
}

/// An identifier from which a pair can be read is the share identifier of
/// that pair, and the pair is canonical.
pub proof fn lemma_pair_of_share_id(id: AssetId)
    requires
        is_share(id),
    ensures
        spec_pair_of(id)->Some_0.valid(),
        spec_pair_of(id)->Some_0.spec_share_id() == id,
{
}

/// Different canonical pairs have different share identifiers.
pub proof fn lemma_share_ids_differ(p: TradingPair, q: TradingPair)
    requires
        p.valid(),
        q.valid(),
        p != q,
    ensures
        p.spec_share_id() != q.spec_share_id(),
{
    lemma_share_id_round_trip(p);
    lemma_share_id_round_trip(q);
}

/// The canonical pair does not depend on the order of the two assets.
pub proof fn lemma_pair_is_unordered(a: AssetId, b: AssetId)
    ensures
        TradingPair::spec_new(a, b) == TradingPair::spec_new(b, a),
{
}

} // verus!
