//! Trusted boundary to the BLS signature library.
//!
//! The state machine carries admin keys as their 96-byte compressed
//! encodings and never looks inside them; the checks that need the actual
//! curve arithmetic — key well-formedness, the fixed-width raw encoding
//! written into signature messages, and aggregated-signature verification —
//! are made here, each behind a contract that claims no more than the
//! library's documentation shows.

use vstd::prelude::*;

use dusk_bytes::Serializable;
use dusk_core::signatures::bls::{MultisigPublicKey, MultisigSignature, PublicKey};

use crate::keys::{keys_view, AdminKey, AggregateSig};

verus! {

/// Whether an encoding decodes to a well-formed BLS public key: on the
/// curve, in the prime-order subgroup, and not the identity.
pub uninterp spec fn key_valid(bytes: Seq<u8>) -> bool;

/// The verdict of the aggregated-signature check: whether the signature
/// with the given encoding verifies over the message under the keys with
/// the given encodings, in order. An encoding that does not decode, or a
/// failing aggregation, makes the verdict negative.
pub uninterp spec fn sig_verdict(msg: Seq<u8>, keys: Seq<Seq<u8>>, sig: Seq<u8>) -> bool;

/// The 193-byte fixed-width raw encoding of the key with the given
/// compressed encoding.
pub uninterp spec fn key_raw_encoding(bytes: Seq<u8>) -> Seq<u8>;

/// Relies on `PublicKey::from_bytes` and `PublicKey::is_valid` of
/// `bls12_381-bls`: whether the encoding decodes to a key that is on the
/// curve, in the subgroup, and not the identity. Both depend on the bytes
/// alone, so the verdict is a function of the encoding.
#[verifier::external_body]
pub fn key_is_valid(key: &AdminKey) -> (r: bool)
    ensures
        r == key_valid(key@),
{
    match <&[u8; 96]>::try_from(key.bytes.as_slice()) {
        Ok(arr) => match PublicKey::from_bytes(arr) {
            Ok(pk) => pk.is_valid(),
            Err(_) => false,
        },
        Err(_) => false,
    }
}

/// Relies on `PublicKey::from_bytes` and `PublicKey::to_raw_bytes` of
/// `bls12_381-bls`: the raw 193-byte encoding is a function of the key
/// alone. Only called on encodings that decode to well-formed keys.
#[verifier::external_body]
pub fn key_raw_bytes(key: &AdminKey) -> (r: Vec<u8>)
    requires
        key_valid(key@),
    ensures
        r@ == key_raw_encoding(key@),
        r@.len() == 193,
{
    let arr: &[u8; 96] = key.bytes.as_slice().try_into().expect("well-formed key");
    let pk = PublicKey::from_bytes(arr).expect("well-formed key");
    pk.to_raw_bytes().to_vec()
}

/// Relies on `MultisigSignature::from_bytes`, `PublicKey::from_bytes`,
/// `MultisigPublicKey::aggregate`, and `MultisigPublicKey::verify` of
/// `bls12_381-bls`: pure curve arithmetic, so the verdict is a function of
/// the message, the key encodings, and the signature encoding alone. A key
/// or signature that does not decode, or a failing aggregation, makes the
/// verdict negative.
#[verifier::external_body]
pub fn multisig_verdict(msg: &Vec<u8>, keys: &Vec<AdminKey>, sig: &AggregateSig) -> (r: bool)
    ensures
        r == sig_verdict(msg@, keys_view(keys@), sig@),
{
    let s = match <&[u8; 48]>::try_from(sig.bytes.as_slice()).ok().and_then(|a| MultisigSignature::from_bytes(a).ok()) {
        Some(s) => s,
        None => return false,
    };
    let mut pks: std::vec::Vec<PublicKey> = std::vec::Vec::new();
    for key in keys.iter() {
        match <&[u8; 96]>::try_from(key.bytes.as_slice()).ok().and_then(|a| PublicKey::from_bytes(a).ok()) {
            Some(pk) => pks.push(pk),
            None => return false,
        }
    }
    match MultisigPublicKey::aggregate(&pks) {
        Ok(apk) => apk.verify(&s, msg.as_slice()).is_ok(),
        Err(_) => false,
    }
}

} // verus!
