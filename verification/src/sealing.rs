//! Encryption with a key and a nonce, and the text form of what it gives.

use vstd::prelude::*;
use vstd::string::*;

use crate::encoding;
use crate::error;
use crate::error::{crypto_error, Error, ErrorView};
use crate::primitives;
use crate::secret::{SecretBytes, SecretKey};
use crate::text::join2;

verus! {

/// What is read from a field that holds base64.
pub open spec fn decoded(field: Seq<char>, value: Seq<char>) -> Result<Seq<u8>, ErrorView> {
    match encoding::base64_bytes(value) {
        Some(bytes) => Ok(bytes),
        None => Err(ErrorView::Crypto(field + " is not valid base64"@)),
    }
}

/// Reads a field that holds base64.
pub(crate) fn decode_base64(field: &str, value: &str) -> (r: Result<Vec<u8>, Error>)
    ensures
        error::result_view(r) == decoded(field@, value@),
{
    match encoding::decode_text(value) {
        Some(bytes) => Ok(bytes),
        None => Err(Error::Crypto(join2(field, " is not valid base64"))),
    }
}

/// What is read from a field that holds a nonce.
pub open spec fn decoded_nonce(value: Seq<char>) -> Result<Seq<u8>, ErrorView> {
    match decoded("nonce"@, value) {
        Err(error) => Err(error),
        Ok(bytes) => if bytes.len() == 24 {
            Ok(bytes)
        } else {
            Err(ErrorView::Crypto("nonce has an invalid length"@))
        },
    }
}

fn nonce_array(bytes: &[u8]) -> (r: [u8; 24])
    requires
        bytes@.len() == 24,
    ensures
        r@ == bytes@,
{
    let mut r: [u8; 24] = [0u8; 24];
    encoding::copy_bytes(&mut r, bytes);
    r
}

/// Reads a field that holds a nonce.
pub(crate) fn decode_nonce(value: &str) -> (r: Result<[u8; 24], Error>)
    ensures
        error::result_view(r) == decoded_nonce(value@),
{
    match decode_base64("nonce", value) {
        Err(error) => Err(error),
        Ok(bytes) => {
            if bytes.len() == 24 {
                Ok(nonce_array(bytes.as_slice()))
            } else {
                Err(crypto_error("nonce has an invalid length"))
            }
        },
    }
}

/// What is read from a ciphertext, if it is authentic. One that is too long to have been made
/// under one nonce is not.
pub open spec fn opened(
    key: Seq<u8>,
    nonce: Seq<u8>,
    ciphertext: Seq<u8>,
    aad: Seq<u8>,
) -> Option<Seq<u8>> {
    if ciphertext.len() > primitives::max_plaintext() + 16 {
        None
    } else {
        primitives::xchacha20poly1305_open(key, nonce, ciphertext, aad)
    }
}

/// Encrypts a text under a key and a nonce.
pub(crate) fn encrypt(key: &SecretKey, nonce: &[u8; 24], plaintext: &[u8], aad: &[u8]) -> (r: Result<
    Vec<u8>,
    Error,
>)
    requires
        plaintext@.len() <= primitives::max_plaintext(),
    ensures
        match r {
            Ok(ciphertext) => {
                &&& ciphertext@ == primitives::xchacha20poly1305_seal(
                    key@,
                    nonce@,
                    plaintext@,
                    aad@,
                )
                &&& ciphertext@.len() == plaintext@.len() + 16
                &&& opened(key@, nonce@, ciphertext@, aad@) == Some(plaintext@)
            },
            Err(_) => false,
        },
{
    match primitives::aead_seal(key.as_array(), nonce, plaintext, aad) {
        Some(ciphertext) => Ok(ciphertext),
        None => Err(crypto_error("encryption failed")),
    }
}

/// Decrypts a ciphertext, if it is authentic.
pub(crate) fn decrypt(key: &SecretKey, nonce: &[u8; 24], ciphertext: &[u8], aad: &[u8]) -> (r: Result<
    SecretBytes,
    Error,
>)
    ensures
        error::result_view(r) == match opened(key@, nonce@, ciphertext@, aad@) {
            Some(plaintext) => Ok(plaintext),
            None => Err(ErrorView::Crypto("authentication or decryption failed"@)),
        },
{
    if ciphertext.len() as u64 > 274_877_906_832 {
        return Err(crypto_error("authentication or decryption failed"));
    }
    match primitives::aead_open(key.as_array(), nonce, ciphertext, aad) {
        Some(plaintext) => Ok(SecretBytes::new(plaintext)),
        None => Err(crypto_error("authentication or decryption failed")),
    }
}

/// A nonce of the operating system's random numbers. Nothing is said of which.
pub(crate) fn random_nonce() -> (r: [u8; 24])
    ensures
        r@.len() == 24,
{
    nonce_array(primitives::random_bytes(24).as_slice())
}

/// A salt of the operating system's random numbers. Nothing is said of which.
pub(crate) fn random_salt() -> (r: [u8; 32])
    ensures
        r@.len() == 32,
{
    salt_array(primitives::random_bytes(32).as_slice())
}

fn salt_array(bytes: &[u8]) -> (r: [u8; 32])
    requires
        bytes@.len() == 32,
    ensures
        r@ == bytes@,
{
    let mut r: [u8; 32] = [0u8; 32];
    encoding::copy_bytes(&mut r, bytes);
    r
}

} // verus!
