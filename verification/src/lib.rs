//! A multi-asset token ledger and a constant-product exchange built on it.
//!
//! The ledger ([`assets`]) issues assets and keeps their balances, total
//! supplies and allowances. The exchange ([`dex`]) keeps pools of two assets
//! each, mints and redeems the shares of those who provide liquidity, and
//! trades along paths of up to three assets at prices that keep the product of
//! a pool's reserves from shrinking.
//!
//! Both are described by a mathematical state and by functions from one state
//! to the next ([`ledger`], [`exchange`]); the contract of every operation
//! names the state that it leaves behind, and an operation that is refused
//! leaves the state as it was. What holds of every state that the operations
//! reach is proved once and for all: the total supply of an asset is the sum
//! of its balances ([`ledger::LedgerState::conserved`]), the exchange's
//! account holds what the pools hold in reserve
//! ([`exchange::DexState::custody`]), and no pool has reserves without shares
//! ([`exchange::DexState::backed`]).
//!
//! Prices and shares are computed without loss ([`pricing`], [`liquidity`]),
//! on integers of 256 bits ([`wide`]).

pub mod assets;
pub mod dex;
pub mod errors;
pub mod events;
pub mod exchange;
pub mod exchange_laws;
pub mod ledger;
pub mod liquidity;
pub mod pricing;
pub mod primitives;
pub mod table;
pub mod wide;
