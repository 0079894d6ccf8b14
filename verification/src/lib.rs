//! Escrow-backed English-auction marketplace for a single non-fungible asset
//! type, settled in a fungible reserve currency.
//!
//! The core is the listing/bidding/settlement state machine together with the
//! per-account staking ledger. The persisted store is an explicit [`state::Market`]
//! value handed by reference into every operation; persistence, wire formats and
//! address-format conversion are left to external collaborators, which receive
//! the transfer instructions each operation returns.

pub mod coin_helpers;
pub mod contract;
pub mod laws;
pub mod msg;
pub mod state;
