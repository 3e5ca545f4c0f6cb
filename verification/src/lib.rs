//! A minimal fungible-token ledger: per-holder balances, per-owner/spender
//! allowances, a supply cap fixed at initialization, and five mutating
//! operations (mint, burn, approve, transfer) plus read-only queries.
//!
//! Every operation is verified: it preserves the ledger invariants
//! (`total_supply` equals the sum of all balances and never exceeds
//! `max_supply`), applies its effect exactly as stated, and leaves the
//! ledger untouched whenever it reports an error.

pub mod laws;
pub mod ledger;
