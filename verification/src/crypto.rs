//! Identity and message authentication: SHA-256 addresses and ECDSA
//! signatures with public-key recovery over secp256k1.
//!
//! The cryptographic primitives themselves come from the `k256` crate behind
//! trusted wrappers; everything layered on them is verified.
use crate::b256::{lemma_b256_view_eq, B256};
use k256::sha2::Digest;
use vstd::prelude::*;

verus! {

/// The SHA-256 digest (32 bytes) of a byte string.
pub uninterp spec fn sha2_256(data: Seq<u8>) -> Seq<u8>;

/// The uncompressed SEC1 point encoding of the secp256k1 public key that
/// belongs to the private key with the given 32-byte scalar encoding.
pub uninterp spec fn secp256k1_public_key(key: Seq<u8>) -> Seq<u8>;

/// Whether 32 bytes encode a valid secp256k1 private key: a nonzero scalar
/// below the group order.
pub uninterp spec fn secp256k1_valid_key(key: Seq<u8>) -> bool;

/// The ECDSA signature `(r, s, recovery id)` that deterministic (RFC 6979)
/// signing with the given private key produces over a 32-byte prehash, or
/// `None` when signing fails (an invalid key, or a degenerate nonce).
pub uninterp spec fn secp256k1_sign_of(key: Seq<u8>, prehash: Seq<u8>) -> Option<
    (Seq<u8>, Seq<u8>, u8),
>;

/// The uncompressed SEC1 point encoding of the public key recovered from an
/// ECDSA signature `(r, s, recovery_id)` over a 32-byte prehash, if recovery
/// succeeds.
pub uninterp spec fn secp256k1_recover(
    r: Seq<u8>,
    s: Seq<u8>,
    recovery_id: u8,
    prehash: Seq<u8>,
) -> Option<Seq<u8>>;

/// The address belonging to a private key: SHA-256 of the uncompressed
/// encoding of its public key.
pub open spec fn address_of_key(key: Seq<u8>) -> Seq<u8> {
    sha2_256(secp256k1_public_key(key))
}

/// Relies on sha2::Sha256 (re-exported by k256): the 32-byte digest is a
/// function of the input bytes alone.
#[verifier::external_body]
fn sha256_digest(data: &[u8]) -> (r: [u8; 32])
    ensures
        r@ == sha2_256(data@),
{
    let digest = k256::sha2::Sha256::digest(data);
    digest.into()
}

impl B256 {
    /// The SHA-256 digest of arbitrary bytes, as a 32-byte identifier.
    pub fn hash_of(data: &[u8]) -> (r: B256)
        ensures
            r@ == sha2_256(data@),
    {
        B256(sha256_digest(data))
    }

    /// The address of a public key, given its uncompressed SEC1 encoding:
    /// the SHA-256 digest of those bytes.
    pub fn address_of(public_key: &[u8]) -> (r: B256)
        ensures
            r@ == sha2_256(public_key@),
    {
        B256::hash_of(public_key)
    }
}

/// A secp256k1 private key, held as its 32-byte big-endian scalar encoding.
/// Not every byte pattern is a valid key; operations that need a valid key
/// return `None` on the others.
#[derive(Clone, Copy, Debug)]
pub struct SecretKey(pub [u8; 32]);

impl View for SecretKey {
    type V = Seq<u8>;

    open spec fn view(&self) -> Seq<u8> {
        self.0@
    }
}

/// An ECDSA signature with recovery: two 32-byte big-endian scalars and a
/// recovery id in `{0, 1, 2, 3}`.
#[derive(Clone, Copy, Debug)]
pub struct Signature {
    pub r: B256,
    pub s: B256,
    pub recovery_id: u8,
}

/// The address recovered from a signature over a 32-byte prehash: the
/// address of the recovered public key, if recovery succeeds.
pub open spec fn recovered_address(sig: Signature, hash: B256) -> Option<Seq<u8>> {
    match secp256k1_recover(sig.r@, sig.s@, sig.recovery_id, hash@) {
        Some(pk) => Some(sha2_256(pk)),
        None => None,
    }
}

/// Relies on k256's ecdsa::SigningKey::{from_slice, sign_prehash_recoverable}
/// (deterministic ECDSA per RFC 6979, no randomness): whether the call
/// succeeds and what it returns are functions of the key bytes and the
/// prehash alone; on success the returned signature and recovery id
/// recover, over the same prehash, exactly the signer's public key, and
/// the recovery id is at most 3.
#[verifier::external_body]
fn ecdsa_sign_prehash(key: &SecretKey, prehash: &B256) -> (out: Option<Signature>)
    ensures
        out is Some <==> secp256k1_sign_of(key@, prehash@) is Some,
        out matches Some(sig) ==> secp256k1_sign_of(key@, prehash@) == Some(
            (sig.r@, sig.s@, sig.recovery_id),
        ),
        out matches Some(sig) ==> secp256k1_recover(sig.r@, sig.s@, sig.recovery_id, prehash@)
            == Some(secp256k1_public_key(key@)),
        out matches Some(sig) ==> sig.recovery_id <= 3,
{
    let signer = k256::ecdsa::SigningKey::from_slice(&key.0).ok()?;
    let (sig, rid) = signer.sign_prehash_recoverable(&prehash.0).ok()?;
    let r_bytes: [u8; 32] = sig.r().to_bytes().into();
    let s_bytes: [u8; 32] = sig.s().to_bytes().into();
    Some(Signature { r: B256(r_bytes), s: B256(s_bytes), recovery_id: rid.to_byte() })
}

/// Relies on k256's ecdsa recovery (RecoveryId::from_byte,
/// Signature::from_scalars, VerifyingKey::recover_from_prehash) and the
/// uncompressed SEC1 encoding of the result: recovery is a pure function of
/// the signature tuple and the prehash.
#[verifier::external_body]
fn ecdsa_recover_key(sig: &Signature, prehash: &B256) -> (out: Option<Vec<u8>>)
    ensures
        match out {
            Some(pk) => secp256k1_recover(sig.r@, sig.s@, sig.recovery_id, prehash@) == Some(pk@),
            None => secp256k1_recover(sig.r@, sig.s@, sig.recovery_id, prehash@) is None,
        },
{
    let recovery_id = k256::ecdsa::RecoveryId::from_byte(sig.recovery_id)?;
    let k_sig = k256::ecdsa::Signature::from_scalars(sig.r.0, sig.s.0).ok()?;
    let key = k256::ecdsa::VerifyingKey::recover_from_prehash(&prehash.0, &k_sig, recovery_id)
        .ok()?;
    Some(key.to_encoded_point(false).as_bytes().to_vec())
}

/// Relies on k256's ecdsa::SigningKey::{from_slice, verifying_key} and the
/// uncompressed SEC1 point encoding: derivation succeeds exactly when the
/// bytes form a valid key, and the public key is a function of the private
/// key bytes alone.
#[verifier::external_body]
fn secp256k1_derive_public_key(key: &SecretKey) -> (out: Option<Vec<u8>>)
    ensures
        out is Some <==> secp256k1_valid_key(key@),
        out matches Some(pk) ==> pk@ == secp256k1_public_key(key@),
{
    let signer = k256::ecdsa::SigningKey::from_slice(&key.0).ok()?;
    Some(signer.verifying_key().to_encoded_point(false).as_bytes().to_vec())
}

impl SecretKey {
    /// The address belonging to this key; fails exactly when the bytes are
    /// not a valid secp256k1 private key.
    pub fn address(&self) -> (out: Option<B256>)
        ensures
            out is Some <==> secp256k1_valid_key(self@),
            out matches Some(a) ==> a@ == address_of_key(self@),
    {
        match secp256k1_derive_public_key(self) {
            Some(pk) => Some(B256::hash_of(pk.as_slice())),
            None => None,
        }
    }
}

impl Signature {
    /// Sign a 32-byte prehash. Signing is deterministic: it succeeds
    /// exactly when, and returns what, `secp256k1_sign_of` gives for this
    /// key and prehash. On success, recovering an address from the
    /// signature over the same prehash yields exactly the signer's address.
    pub fn sign(key: &SecretKey, hash: B256) -> (out: Option<Signature>)
        ensures
            out is Some <==> secp256k1_sign_of(key@, hash@) is Some,
            out matches Some(sig) ==> secp256k1_sign_of(key@, hash@) == Some(
                (sig.r@, sig.s@, sig.recovery_id),
            ),
            out matches Some(sig) ==> recovered_address(sig, hash) == Some(address_of_key(key@)),
    {
        ecdsa_sign_prehash(key, &hash)
    }

    /// Recover the signer's address from this signature over `hash`.
    pub fn recover(&self, hash: B256) -> (out: Option<B256>)
        ensures
            match out {
                Some(a) => recovered_address(*self, hash) == Some(a@),
                None => recovered_address(*self, hash) is None,
            },
    {
        match ecdsa_recover_key(self, &hash) {
            Some(pk) => Some(B256::hash_of(pk.as_slice())),
            None => None,
        }
    }

    /// Checks that this signature over `hash` was created by `address`:
    /// succeeds exactly when address recovery yields `address`.
    pub fn verify(&self, hash: B256, address: B256) -> (out: Option<()>)
        ensures
            out is Some <==> recovered_address(*self, hash) == Some(address@),
    {
        match self.recover(hash) {
            Some(recovered) => {
                if recovered == address {
                    Some(())
                } else {
                    proof {
                        if recovered@ == address@ {
                            lemma_b256_view_eq(recovered, address);
                        }
                    }
                    None
                }
            },
            None => None,
        }
    }
}

} // verus!
