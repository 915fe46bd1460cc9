//! Core of a cross-chain minter/redeemer bridge: it mirrors native SOL
//! deposits into a wrapped ledger token (gSOL) and, on the reverse path,
//! burns gSOL and produces a signed redemption coupon.
//!
//! The library holds the verified logic: the event-sourced state store with
//! its lifecycle transitions, the signature-discovery and range-resolution
//! decisions of the log scraper, the transaction classifier, and the
//! withdrawal/coupon engine. The canister facade around it (timers, HTTP
//! outcalls, ledger and signer calls) hands plain values in and out.

pub mod audit;
pub mod bytes;
pub mod cbor;
pub mod coupon;
pub mod crypto;
pub mod events;
pub mod laws;
pub mod scraper;
pub mod sol_rpc_client;
pub mod state;
pub mod withdraw;

use vstd::prelude::*;

verus! {

/// Upper bound on retries before a pending entity is dropped or
/// classified as invalid.
pub const MAX_RETRIES: u64 = 5;

} // verus!
