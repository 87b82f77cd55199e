//! Ledger-state maintenance for a shielded asset ledger: an append-only
//! ternary commitment tree restored from its frontier, the nullifier set,
//! the translation of chain events into ledger events, read-only queries,
//! and the small decision procedures of the relay and the wallet client.
use vstd::prelude::*;

pub mod ledger;
pub mod merkle;
pub mod poll_cycle;
pub mod polling;
pub mod query;
pub mod relay;
pub mod routes;
pub mod wallet;
pub mod wallet_routes;

verus! {

} // verus!
