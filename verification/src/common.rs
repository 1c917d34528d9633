//! Plain data carried between the pool, its miners and its collaborators.
//!
//! Address parsing and message-signature verification themselves are the
//! work of external collaborators; the types here carry their inputs and
//! outcomes, and the errors they report.

use vstd::prelude::*;

verus! {

/// A one-line message for a pool client.
#[derive(Debug)]
pub struct GenericMessageResponse {
    pub message: String,
}

/// A signed registration request: the miner's address, its public key, the
/// signed payload and the signature, all as text.
#[derive(Debug)]
pub struct Registration {
    pub address: String,
    pub key: String,
    pub payload: String,
    pub signature: String,
}

/// A miner identity: its row id, payout address, the public-key hash its
/// work is attributed to, and its current sampling difficulty.
#[derive(Debug)]
pub struct Miner {
    pub id: i32,
    pub address: String,
    pub pkh: String,
    pub sampling_difficulty: i32,
}

/// A wallet address that could not be parsed into a public-key hash.
#[derive(Debug)]
pub struct AddressParseError(pub String);

/// A registration signature that could not be verified.
#[derive(Debug)]
pub struct SignatureVerificationError(pub String);

/// Wraps an address-parsing failure message in its error type.
pub fn address_error(msg: &str) -> (r: AddressParseError)
    ensures
        r.0@ == msg@,
{
    AddressParseError(msg.to_owned())
}

/// Wraps a signature-verification failure message in its error type.
pub fn signature_error(msg: &str) -> (r: SignatureVerificationError)
    ensures
        r.0@ == msg@,
{
    SignatureVerificationError(msg.to_owned())
}

} // verus!
