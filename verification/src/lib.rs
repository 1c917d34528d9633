//! Coordination core of a pooled proof-of-work mining service.
//!
//! The pool tracks the authoritative on-chain puzzle state, hands out work
//! bound to a miner and pool identity, verifies and scores submitted hashes,
//! and settles proportional payouts while reconciling submissions and
//! payments against an external ledger.

pub mod block;
pub mod common;
pub mod datum;
pub mod datum_parse;
pub mod datum_roundtrip;
pub mod difficulty;
pub mod hashing;
pub mod hex_codec;
pub mod nonce;
pub mod payout;
pub mod rate_limit;
pub mod reconcile;
pub mod shares;
pub mod validator;
