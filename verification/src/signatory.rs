//! Asymmetric message signing over raw payloads with fixed-length,
//! hex-encoded keys.
//!
//! The hexadecimal layer is verified exactly; the Ed25519 primitive itself is
//! called through trusted wrappers whose results carry opaque names, so that
//! the contracts can say precisely which strings sign and verify accept.
use vstd::prelude::*;

use crate::errors::Error;
use ed25519_dalek::{Signer, Verifier};
use crate::hex_codec::{
    hex_decode,
    hex_encode_upper,
    hex_upper_of,
    lemma_hex_round_trip,
    spec_hex_decode,
    spec_is_hex_seq,
};

verus! {

/// The Ed25519 signature that the given 32-byte signing key produces over a
/// message.  The scheme is deterministic: the result depends on the key and
/// the message alone.
pub uninterp spec fn ed25519_sig_of(sk: Seq<u8>, msg: Seq<char>) -> Seq<u8>;

/// The public verifying key derived from a 32-byte signing key.
pub uninterp spec fn ed25519_pubkey_of(sk: Seq<u8>) -> Seq<u8>;

/// Whether Ed25519 verification accepts the signature bytes for this public
/// key and message; false also covers key or signature encodings the scheme
/// rejects outright.
pub uninterp spec fn ed25519_accepts(pk: Seq<u8>, msg: Seq<char>, sig: Seq<u8>) -> bool;

/// Relies on ed25519-dalek's `SigningKey::from_bytes` and `Signer::sign`:
/// deterministic signing that yields a 64-byte signature, which the crate
/// documents as verifying under the corresponding public key.
#[verifier::external_body]
fn ed25519_sign_raw(key: &Vec<u8>, data: &str) -> (r: Vec<u8>)
    requires
        key@.len() == 32,
    ensures
        r@ == ed25519_sig_of(key@, data@),
        r@.len() == 64,
        ed25519_accepts(ed25519_pubkey_of(key@), data@, r@),
{
    let arr: [u8; 32] = key.as_slice().try_into().unwrap();
    let signing_key = ed25519_dalek::SigningKey::from_bytes(&arr);
    signing_key.sign(data.as_bytes()).to_bytes().to_vec()
}

/// Relies on ed25519-dalek's `SigningKey::verifying_key` and
/// `VerifyingKey::to_bytes`: the 32-byte public counterpart of a signing key.
#[verifier::external_body]
fn ed25519_pubkey_raw(key: &Vec<u8>) -> (r: Vec<u8>)
    requires
        key@.len() == 32,
    ensures
        r@ == ed25519_pubkey_of(key@),
        r@.len() == 32,
{
    let arr: [u8; 32] = key.as_slice().try_into().unwrap();
    let signing_key = ed25519_dalek::SigningKey::from_bytes(&arr);
    signing_key.verifying_key().to_bytes().to_vec()
}

/// Relies on ed25519-dalek's `VerifyingKey::from_bytes`,
/// `Signature::from_bytes` and `Verifier::verify`: whether the scheme accepts
/// the signature for this key and message; a key encoding the scheme rejects
/// counts as refusal.
#[verifier::external_body]
fn ed25519_verify_raw(key: &Vec<u8>, data: &str, sig: &Vec<u8>) -> (r: bool)
    requires
        key@.len() == 32,
        sig@.len() == 64,
    ensures
        r == ed25519_accepts(key@, data@, sig@),
{
    let arr: [u8; 32] = key.as_slice().try_into().unwrap();
    let verifying_key = match ed25519_dalek::VerifyingKey::from_bytes(&arr) {
        Ok(k) => k,
        Err(_) => {
            return false;
        },
    };
    let sig_arr: [u8; 64] = sig.as_slice().try_into().unwrap();
    let signature = ed25519_dalek::Signature::from_bytes(&sig_arr);
    verifying_key.verify(data.as_bytes(), &signature).is_ok()
}

/// Whether a string is the hexadecimal rendering of exactly `n` bytes.
pub open spec fn spec_is_key_hex(s: Seq<char>, n: int) -> bool {
    spec_is_hex_seq(s) && spec_hex_decode(s).len() == n
}

/// Signs `data` with a hex-encoded 32-byte signing key.  On success the
/// result is the upper-case hexadecimal rendering of the Ed25519 signature,
/// and that signature verifies under the key's public counterpart.
pub fn sign(signing_key: &str, data: &str) -> (r: Result<String, Error>)
    ensures
        r is Ok <==> spec_is_key_hex(signing_key@, 32),
        r matches Ok(s) ==> {
            let sk = spec_hex_decode(signing_key@);
            &&& s@ == hex_upper_of(ed25519_sig_of(sk, data@))
            &&& spec_is_key_hex(s@, 64)
            &&& spec_hex_decode(s@) == ed25519_sig_of(sk, data@)
            &&& ed25519_accepts(ed25519_pubkey_of(sk), data@, ed25519_sig_of(sk, data@))
        },
        r matches Err(e) ==> e is SomethingWentWrong,
{
    let key_bytes = match hex_decode(signing_key) {
        Some(b) => b,
        None => {
            return Err(
                Error::new_something_went_wrong(String::from_str("signing key is not valid hex")),
            );
        },
    };
    if key_bytes.len() != 32 {
        return Err(
            Error::new_something_went_wrong(String::from_str("signing key must be 32 bytes")),
        );
    }
    let sig = ed25519_sign_raw(&key_bytes, data);
    proof {
        lemma_hex_round_trip(sig@);
    }
    Ok(hex_encode_upper(&sig))
}

/// The hex-encoded public key matching a hex-encoded 32-byte signing key.
pub fn derive_verifying_key(signing_key: &str) -> (r: Result<String, Error>)
    ensures
        r is Ok <==> spec_is_key_hex(signing_key@, 32),
        r matches Ok(s) ==> s@ == hex_upper_of(ed25519_pubkey_of(spec_hex_decode(signing_key@)))
            && spec_is_key_hex(s@, 32) && spec_hex_decode(s@) == ed25519_pubkey_of(
            spec_hex_decode(signing_key@),
        ),
        r matches Err(e) ==> e is SomethingWentWrong,
{
    let key_bytes = match hex_decode(signing_key) {
        Some(b) => b,
        None => {
            return Err(
                Error::new_something_went_wrong(String::from_str("signing key is not valid hex")),
            );
        },
    };
    if key_bytes.len() != 32 {
        return Err(
            Error::new_something_went_wrong(String::from_str("signing key must be 32 bytes")),
        );
    }
    let pk = ed25519_pubkey_raw(&key_bytes);
    proof {
        lemma_hex_round_trip(pk@);
    }
    Ok(hex_encode_upper(&pk))
}

/// Verifies a signature produced by `sign`.  Succeeds exactly when the key is
/// the hexadecimal rendering of 32 bytes, the signature that of 64 bytes, and
/// the scheme accepts them for `data`; every failure is surfaced as an error,
/// never swallowed.
///
/// Together with the clauses of `sign` and `derive_verifying_key` this
/// closes the round trip: a signature fresh from `sign` under key `k`
/// decodes back to the signature bytes, the derived key to the public key
/// bytes, and this function then answers `Ok`.
pub fn verify(verifying_key: &str, data: &str, signature: &str) -> (r: Result<(), Error>)
    ensures
        r is Ok <==> spec_is_key_hex(verifying_key@, 32) && spec_is_key_hex(signature@, 64)
            && ed25519_accepts(
            spec_hex_decode(verifying_key@),
            data@,
            spec_hex_decode(signature@),
        ),
        r matches Err(e) ==> e is SomethingWentWrong,
{
    let key_bytes = match hex_decode(verifying_key) {
        Some(b) => b,
        None => {
            return Err(
                Error::new_something_went_wrong(String::from_str("verifying key is not valid hex")),
            );
        },
    };
    if key_bytes.len() != 32 {
        return Err(
            Error::new_something_went_wrong(String::from_str("verifying key must be 32 bytes")),
        );
    }
    let sig_bytes = match hex_decode(signature) {
        Some(b) => b,
        None => {
            return Err(
                Error::new_something_went_wrong(String::from_str("signature is not valid hex")),
            );
        },
    };
    if sig_bytes.len() != 64 {
        return Err(
            Error::new_something_went_wrong(String::from_str("signature must be 64 bytes")),
        );
    }
    if ed25519_verify_raw(&key_bytes, data, &sig_bytes) {
        Ok(())
    } else {
        Err(Error::new_something_went_wrong(String::from_str("signature verification failed")))
    }
}

/// A signature string produced over one key and message decodes back to the
/// signature bytes themselves; with `sign`'s acceptance clause this is the
/// verified half of the sign/verify round trip.
pub proof fn lemma_signature_hex_faithful(sk: Seq<u8>, msg: Seq<char>)
    ensures
        spec_is_hex_seq(hex_upper_of(ed25519_sig_of(sk, msg))),
        spec_hex_decode(hex_upper_of(ed25519_sig_of(sk, msg))) == ed25519_sig_of(sk, msg),
{
    lemma_hex_round_trip(ed25519_sig_of(sk, msg));
}

} // verus!
