//! What the ledger and the exchange report of their successful operations.

use crate::primitives::{AccountId, AssetId, Balance};
use vstd::prelude::*;

verus! {

/// One entry of the event log.
#[derive(Debug, PartialEq, Eq)]
pub enum Event {
    /// An asset was issued: asset, owner, initial supply.
    Issued(AssetId, AccountId, Balance),
    /// An amount moved: asset, from, to, amount.
    Transferred(AssetId, AccountId, AccountId, Balance),
    /// An allowance was set: asset, owner, spender, amount.
    Approval(AssetId, AccountId, AccountId, Balance),
    /// An amount was destroyed: asset, owner, amount.
    Burned(AssetId, AccountId, Balance),
    /// An amount was created: asset, owner, amount.
    Minted(AssetId, AccountId, Balance),
    /// Liquidity was added: provider, first asset and the amount taken of it,
    /// second asset and the amount taken of it, shares minted.
    AddLiquidity(AccountId, AssetId, Balance, AssetId, Balance, Balance),
    /// Liquidity was removed: provider, first asset and the amount paid out,
    /// second asset and the amount paid out, shares burned.
    RemoveLiquidity(AccountId, AssetId, Balance, AssetId, Balance, Balance),
    /// A trade ran along a path: trader, path, amount paid in, amount paid out.
    Swap(AccountId, Vec<AssetId>, Balance, Balance),
}

/// What an [`Event`] says, with the path of a trade as a sequence.
pub ghost enum EventView {
    Issued(AssetId, AccountId, Balance),
    Transferred(AssetId, AccountId, AccountId, Balance),
    Approval(AssetId, AccountId, AccountId, Balance),
    Burned(AssetId, AccountId, Balance),
    Minted(AssetId, AccountId, Balance),
    AddLiquidity(AccountId, AssetId, Balance, AssetId, Balance, Balance),
    RemoveLiquidity(AccountId, AssetId, Balance, AssetId, Balance, Balance),
    Swap(AccountId, Seq<AssetId>, Balance, Balance),
}

impl View for Event {
    type V = EventView;

    open spec fn view(&self) -> EventView {
        match *self {
            Event::Issued(id, owner, total) => EventView::Issued(id, owner, total),
            Event::Transferred(id, from, to, amount) => EventView::Transferred(id, from, to, amount),
            Event::Approval(id, owner, spender, amount) => EventView::Approval(
                id,
                owner,
                spender,
                amount,
            ),
            Event::Burned(id, owner, amount) => EventView::Burned(id, owner, amount),
            Event::Minted(id, owner, amount) => EventView::Minted(id, owner, amount),
            Event::AddLiquidity(who, a, used_a, b, used_b, shares) => EventView::AddLiquidity(
                who,
                a,
                used_a,
                b,
                used_b,
                shares,
            ),
            Event::RemoveLiquidity(who, a, out_a, b, out_b, shares) => EventView::RemoveLiquidity(
                who,
                a,
                out_a,
                b,
                out_b,
                shares,
            ),
            Event::Swap(who, path, supply, target) => EventView::Swap(who, path@, supply, target),
        }
    }
}

impl Clone for Event {
    /// A copy that says the same.
    fn clone(&self) -> (r: Event)
        ensures
            r@ == self@,
    {
        match self {
            Event::Issued(id, owner, total) => Event::Issued(*id, *owner, *total),
            Event::Transferred(id, from, to, amount) => Event::Transferred(*id, *from, *to, *amount),
            Event::Approval(id, owner, spender, amount) => Event::Approval(
                *id,
                *owner,
                *spender,
                *amount,
            ),
            Event::Burned(id, owner, amount) => Event::Burned(*id, *owner, *amount),
            Event::Minted(id, owner, amount) => Event::Minted(*id, *owner, *amount),
            Event::AddLiquidity(who, a, used_a, b, used_b, shares) => Event::AddLiquidity(
                *who,
                *a,
                *used_a,
                *b,
                *used_b,
                *shares,
            ),
            Event::RemoveLiquidity(who, a, out_a, b, out_b, shares) => Event::RemoveLiquidity(
                *who,
                *a,
                *out_a,
                *b,
                *out_b,
                *shares,
            ),
            Event::Swap(who, path, supply, target) => {
                let copied: Vec<AssetId> = path.clone();
                assert(copied@ =~= path@);
                Event::Swap(*who, copied, *supply, *target)
            },
        }
    }
}

/// What a log of events says, event by event.
pub open spec fn log_view(events: Seq<Event>) -> Seq<EventView> {
    events.map_values(|e: Event| e@)
}

} // verus!
