//! An in-memory model of a two-party conditional asset exchange (escrow).
//!
//! A maker deposits an asset into a vault controlled by a derived authority
//! and states the counter-asset amount required to release it. A taker who
//! supplies that amount triggers an atomic exchange; alternatively the maker
//! withdraws the deposit by cancelling the offer before anyone accepts it.
//!
//! The engine in [`engine`] keeps balances, offers and vaults as one state
//! value and verifies every transition; the vault authority for each offer is
//! derived through the platform's program-derived-address scheme in
//! [`authority`].

pub mod address;
pub mod authority;
pub mod engine;
pub mod errors;
pub mod laws;
pub mod ledger;
pub mod offer;
