//! A price-oracle and data-request settlement library.
//!
//! The crate models a provider/price store with a fee-metered aggregation
//! engine, a per-account storage-rent escrow, and a coordinator that brokers
//! staked data requests between a payment-token ledger and an oracle peer.
//! The host ledger (timestamps, attached payments, storage metering, outbound
//! transfers) is an external collaborator: its readings enter as plain
//! parameters and outbound calls leave as pending-effect values.

pub mod errors;
pub mod fungible_token_handler;
pub mod helpers;
pub mod lookup;
pub mod oracle;
pub mod requester;
pub mod storage_manager;
pub mod types;

use vstd::prelude::*;

verus! {

} // verus!
