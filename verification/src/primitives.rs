//! The cryptographic operations that come from outside, and what is relied on of each.

use chacha20poly1305::aead::{Aead, KeyInit, Payload};
use chacha20poly1305::{XChaCha20Poly1305, XNonce};
use hkdf::Hkdf;
use k256::ecdsa::{RecoveryId, Signature, SigningKey, VerifyingKey};
use rand_core::{OsRng, RngCore};
use sha2::{Digest, Sha256};
use sha3::Keccak256;
use vstd::prelude::*;
use zeroize::Zeroize;

use crate::encoding;

verus! {

/// The SHA-256 digest of the data.
pub uninterp spec fn sha256_digest(data: Seq<u8>) -> Seq<u8>;

/// `sha2`'s `Sha256::digest`: 32 bytes that depend on the data alone.
#[verifier::external_body]
pub(crate) fn sha256(data: &[u8]) -> (r: [u8; 32])
    ensures
        r@ == sha256_digest(data@),
{
    Sha256::digest(data).into()
}

/// The Keccak-256 digest of the data.
pub uninterp spec fn keccak256_digest(data: Seq<u8>) -> Seq<u8>;

/// `sha3`'s `Keccak256::digest`: 32 bytes that depend on the data alone.
#[verifier::external_body]
pub(crate) fn keccak256(data: &[u8]) -> (r: [u8; 32])
    ensures
        r@ == keccak256_digest(data@),
{
    Keccak256::digest(data).into()
}

/// The first 32 bytes that HKDF with SHA-256 gives for a salt, a key and a purpose.
pub uninterp spec fn hkdf_sha256_key(salt: Seq<u8>, key: Seq<u8>, info: Seq<u8>) -> Seq<u8>;

/// `hkdf`'s `Hkdf::<Sha256>::new` and `expand`: 32 bytes that depend on the salt, the key and the
/// purpose alone. `expand` refuses only more than 255 times 32 bytes, so it never refuses here.
#[verifier::external_body]
pub(crate) fn hkdf_sha256(salt: &[u8], key: &[u8], info: &[u8]) -> (r: Option<[u8; 32]>)
    ensures
        match r {
            Some(output) => output@ == hkdf_sha256_key(salt@, key@, info@),
            None => false,
        },
{
    let mut output = [0u8; 32];
    match Hkdf::<Sha256>::new(Some(salt), key).expand(info, &mut output) {
        Ok(()) => Some(output),
        Err(_) => None,
    }
}

/// The longest text that XChaCha20-Poly1305 encrypts with one nonce.
pub open spec fn max_plaintext() -> nat {
    64 * 0xffff_fffe
}

/// What XChaCha20-Poly1305 makes of a key, a nonce, a text and associated data.
pub uninterp spec fn xchacha20poly1305_seal(
    key: Seq<u8>,
    nonce: Seq<u8>,
    plaintext: Seq<u8>,
    aad: Seq<u8>,
) -> Seq<u8>;

/// What XChaCha20-Poly1305 reads from a ciphertext, if it is authentic.
pub uninterp spec fn xchacha20poly1305_open(
    key: Seq<u8>,
    nonce: Seq<u8>,
    ciphertext: Seq<u8>,
    aad: Seq<u8>,
) -> Option<Seq<u8>>;

/// `chacha20poly1305`'s `XChaCha20Poly1305::encrypt`: a ciphertext that depends on the key, the
/// nonce, the text and the associated data alone, 16 bytes longer than the text, from which
/// `decrypt` with the same key, nonce and associated data reads the text back. It fails, or
/// panics, only on longer texts.
#[verifier::external_body]
pub(crate) fn aead_seal(key: &[u8; 32], nonce: &[u8; 24], plaintext: &[u8], aad: &[u8]) -> (r:
    Option<Vec<u8>>)
    requires
        plaintext@.len() <= max_plaintext(),
    ensures
        match r {
            Some(ciphertext) => {
                &&& ciphertext@ == xchacha20poly1305_seal(key@, nonce@, plaintext@, aad@)
                &&& ciphertext@.len() == plaintext@.len() + 16
                &&& xchacha20poly1305_open(key@, nonce@, ciphertext@, aad@) == Some(plaintext@)
            },
            None => false,
        },
{
    XChaCha20Poly1305::new(key.into())
        .encrypt(XNonce::from_slice(nonce), Payload { msg: plaintext, aad })
        .ok()
}

/// `chacha20poly1305`'s `XChaCha20Poly1305::decrypt`: whether the ciphertext is accepted, and what
/// is read from it, depends on the key, the nonce, the ciphertext and the associated data alone.
/// Far longer ciphertexts could make it panic.
#[verifier::external_body]
pub(crate) fn aead_open(key: &[u8; 32], nonce: &[u8; 24], ciphertext: &[u8], aad: &[u8]) -> (r:
    Option<Vec<u8>>)
    requires
        ciphertext@.len() <= max_plaintext() + 16,
    ensures
        match r {
            Some(plaintext) => xchacha20poly1305_open(key@, nonce@, ciphertext@, aad@) == Some(
                plaintext@,
            ),
            None => xchacha20poly1305_open(key@, nonce@, ciphertext@, aad@) is None,
        },
{
    XChaCha20Poly1305::new(key.into())
        .decrypt(XNonce::from_slice(nonce), Payload { msg: ciphertext, aad })
        .ok()
}

/// The order of the group that secp256k1 generates.
pub open spec fn secp256k1_order() -> nat {
    0xFFFFFFFF_FFFFFFFF_FFFFFFFF_FFFFFFFE_BAAEDCE6_AF48A03B_BFD25E8C_D0364141nat
}

/// Whether bytes are a private key of secp256k1: a number between zero and the group order,
/// neither included, on 32 bytes.
pub open spec fn is_private_key(bytes: Seq<u8>) -> bool {
    bytes.len() == 32 && 0 < encoding::big_endian_value(bytes) < secp256k1_order()
}

/// `k256`'s `SigningKey::from_slice` on 32 bytes: accepts exactly the numbers between zero and the
/// group order, and tells of a refusal only "signature error".
#[verifier::external_body]
pub(crate) fn check_scalar(private_key: &[u8]) -> (r: Result<(), String>)
    requires
        private_key@.len() == 32,
    ensures
        match r {
            Ok(()) => is_private_key(private_key@),
            Err(message) => !is_private_key(private_key@) && message@ == "signature error"@,
        },
{
    match SigningKey::from_slice(private_key) {
        Ok(_) => Ok(()),
        Err(error) => Err(error.to_string()),
    }
}

/// The public key of a private key, as an uncompressed curve point.
pub uninterp spec fn secp256k1_point(private_key: Seq<u8>) -> Seq<u8>;

/// `k256`'s `verifying_key` and `to_encoded_point(false)` of a signing key: 65 bytes that depend
/// on the private key alone. `SigningKey::from_slice` refuses as it does in [`check_scalar`].
#[verifier::external_body]
pub(crate) fn public_point(private_key: &[u8]) -> (r: Result<Vec<u8>, String>)
    requires
        private_key@.len() == 32,
    ensures
        match r {
            Ok(point) => {
                &&& is_private_key(private_key@)
                &&& point@ == secp256k1_point(private_key@)
                &&& point@.len() == 65
            },
            Err(message) => !is_private_key(private_key@) && message@ == "signature error"@,
        },
{
    match SigningKey::from_slice(private_key) {
        Ok(key) => Ok(key.verifying_key().to_encoded_point(false).as_bytes().to_vec()),
        Err(error) => Err(error.to_string()),
    }
}

/// The signature of a digest, `r` and `s` on 32 bytes each, with its recovery ID, if there is one.
pub uninterp spec fn secp256k1_signature(private_key: Seq<u8>, digest: Seq<u8>) -> Option<
    (Seq<u8>, u8),
>;

/// The public key, as an uncompressed curve point, that a signature of a digest with a recovery ID
/// leads back to, if there is one.
pub uninterp spec fn secp256k1_recovered(digest: Seq<u8>, compact: Seq<u8>, recovery: u8) -> Option<
    Seq<u8>,
>;

/// `k256`'s `VerifyingKey::recover_from_prehash` on a signature and a recovery ID: 65 bytes that
/// depend on the digest, the signature and the recovery ID alone. Bytes that are no signature, and
/// numbers that are no recovery ID, lead back to nothing.
#[verifier::external_body]
pub(crate) fn recover_point(digest: &[u8], compact: &[u8], recovery: u8) -> (r: Option<Vec<u8>>)
    ensures
        match r {
            Some(point) => {
                &&& secp256k1_recovered(digest@, compact@, recovery) == Some(point@)
                &&& point@.len() == 65
            },
            None => secp256k1_recovered(digest@, compact@, recovery) is None,
        },
{
    let signature = Signature::from_slice(compact).ok()?;
    let recovery = RecoveryId::from_byte(recovery)?;
    let key = VerifyingKey::recover_from_prehash(digest, &signature, recovery).ok()?;
    Some(key.to_encoded_point(false).as_bytes().to_vec())
}

/// `k256`'s `SigningKey::sign_prehash_recoverable` on 32 bytes: a signature of 64 bytes and a
/// recovery ID below four, made without randomness from the key and the digest alone, from which
/// `recover_from_prehash` gets the key's public key back. It can fail only where a scalar it
/// computes comes out as zero, and then tells only "signature error".
#[verifier::external_body]
pub(crate) fn sign_recoverable(private_key: &[u8], digest: &[u8]) -> (r: Result<
    (Vec<u8>, u8),
    String,
>)
    requires
        is_private_key(private_key@),
        digest@.len() == 32,
    ensures
        match r {
            Ok((compact, recovery)) => {
                &&& secp256k1_signature(private_key@, digest@) == Some((compact@, recovery))
                &&& secp256k1_recovered(digest@, compact@, recovery) == Some(
                    secp256k1_point(private_key@),
                )
                &&& compact@.len() == 64
                &&& recovery < 4
            },
            Err(message) => {
                &&& secp256k1_signature(private_key@, digest@) is None
                &&& message@ == "signature error"@
            },
        },
{
    SigningKey::from_slice(private_key)
        .and_then(|key| key.sign_prehash_recoverable(digest))
        .map(|(signature, recovery)| (signature.to_bytes().to_vec(), recovery.to_byte()))
        .map_err(|error| error.to_string())
}

/// `k256`'s `SigningKey::random` with the operating system's random numbers: some private key.
/// Nothing is said of which. It panics where the operating system has no random numbers to give.
#[verifier::external_body]
pub(crate) fn random_private_key() -> (r: Vec<u8>)
    ensures
        is_private_key(r@),
{
    SigningKey::random(&mut OsRng).to_bytes().to_vec()
}

/// `rand_core`'s `OsRng::fill_bytes`: as many bytes as asked for. Nothing is said of their values.
/// It panics where the operating system has no random numbers to give.
#[verifier::external_body]
pub(crate) fn random_bytes(length: usize) -> (r: Vec<u8>)
    ensures
        r@.len() == length,
{
    let mut output = vec![0u8; length];
    OsRng.fill_bytes(&mut output);
    output
}

/// `zeroize` on a vector: overwrites its bytes with zeros and leaves it empty. It does not panic.
#[verifier::external_body]
pub(crate) fn wipe(secret: &mut Vec<u8>)
    ensures
        final(secret)@.len() == 0,
    opens_invariants none
    no_unwind
{
    secret.zeroize();
}

/// `zeroize` on an array: overwrites its bytes with zeros. It does not panic.
#[verifier::external_body]
pub(crate) fn wipe_key(secret: &mut [u8; 32])
    ensures
        final(secret)@ == Seq::new(32, |i: int| 0u8),
    opens_invariants none
    no_unwind
{
    secret.zeroize();
}

} // verus!
