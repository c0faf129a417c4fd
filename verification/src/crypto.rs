//! Private keys of secp256k1, and the Ethereum identities and signatures made with them.

use vstd::prelude::*;
use vstd::slice::slice_subrange;
use vstd::string::*;

use crate::encoding;
use crate::error;
use crate::error::{invalid_request, Error, ErrorView};
use crate::primitives;
use crate::secret::SecretBytes;
use crate::text;
use crate::text::join2;

verus! {

/// The length of a private key.
pub const PRIVATE_KEY_BYTES: usize = 32;

/// The length of a digest to sign.
pub const DIGEST_BYTES: usize = 32;

/// The length of an Ethereum signature.
pub const EOA_SIGNATURE_BYTES: usize = 65;

/// Generates a private key at random. Nothing is said of which.
pub fn generate_private_key() -> (r: SecretBytes)
    ensures
        primitives::is_private_key(r@),
{
    SecretBytes::new(primitives::random_private_key())
}

/// Whether bytes are accepted as a private key, and why not.
pub open spec fn private_key_check(private_key: Seq<u8>) -> Result<(), ErrorView> {
    if private_key.len() != 32 {
        Err(ErrorView::InvalidKey("secp256k1 private key must be 32 bytes"@))
    } else if !primitives::is_private_key(private_key) {
        Err(ErrorView::InvalidKey("signature error"@))
    } else {
        Ok(())
    }
}

/// Validates a raw secp256k1 private key.
pub fn validate_private_key(private_key: &[u8]) -> (r: Result<(), Error>)
    ensures
        error::result_view(r) == private_key_check(private_key@),
{
    if private_key.len() != PRIVATE_KEY_BYTES {
        return Err(Error::InvalidKey("secp256k1 private key must be 32 bytes".to_owned()));
    }
    match primitives::check_scalar(private_key) {
        Ok(()) => Ok(()),
        Err(message) => Err(Error::InvalidKey(message)),
    }
}

/// Whether a text is `0x` and a number of bytes in lower-case hexadecimal.
pub open spec fn is_prefixed_hex(text: Seq<char>, bytes: nat) -> bool {
    &&& text.len() == 2 + 2 * bytes
    &&& "0x"@.is_prefix_of(text)
    &&& forall|i: int|
        2 <= i < text.len() ==> '0' <= #[trigger] text[i] <= '9' || 'a' <= text[i] <= 'f'
}

/// `0x` and the hexadecimal text of bytes is such a text.
pub proof fn lemma_prefixed_hex(data: Seq<u8>)
    ensures
        is_prefixed_hex("0x"@ + encoding::hex_text(data), data.len()),
{
    reveal_strlit("0x");
    let text = "0x"@ + encoding::hex_text(data);
    assert("0x"@ =~= text.subrange(0, 2));
    assert forall|i: int| 2 <= i < text.len() implies '0' <= #[trigger] text[i] <= '9' || 'a'
        <= text[i] <= 'f' by {
        assert(text[i] == encoding::hex_text(data)[i - 2]);
    }
}

/// An uncompressed public key as text.
pub open spec fn point_text(point: Seq<u8>) -> Seq<char> {
    "0x"@ + encoding::hex_text(point)
}

/// The last twenty bytes of the hash of a public key, as text.
pub open spec fn hash_address(hash: Seq<u8>) -> Seq<char> {
    "0x"@ + encoding::hex_text(hash.skip(12))
}

/// The Ethereum address of an uncompressed public key.
pub open spec fn point_address(point: Seq<u8>) -> Seq<char> {
    hash_address(primitives::keccak256_digest(point.skip(1)))
}

/// The text of an uncompressed public key.
pub fn point_to_text(point: &[u8]) -> (r: String)
    ensures
        r@ == point_text(point@),
        is_prefixed_hex(r@, point@.len()),
{
    proof {
        lemma_prefixed_hex(point@);
    }
    join2("0x", encoding::hex_encode(point).as_str())
}

/// The address that the hash of a public key gives.
pub fn address_from_hash(hash: &[u8; 32]) -> (r: String)
    ensures
        r@ == hash_address(hash@),
        is_prefixed_hex(r@, 20),
{
    let tail = slice_subrange(hash.as_slice(), 12, 32);
    assert(tail@ =~= hash@.skip(12));
    proof {
        lemma_prefixed_hex(tail@);
    }
    join2("0x", encoding::hex_encode(tail).as_str())
}

/// The lower-case Ethereum address of an uncompressed public key.
pub fn address_from_point(point: &[u8]) -> (r: String)
    requires
        point@.len() > 0,
    ensures
        r@ == point_address(point@),
        is_prefixed_hex(r@, 20),
{
    let coordinates = slice_subrange(point, 1, point.len());
    assert(coordinates@ =~= point@.skip(1));
    address_from_hash(&primitives::keccak256(coordinates))
}

/// The Ethereum address of a private key.
pub open spec fn account_address(private_key: Seq<u8>) -> Seq<char> {
    point_address(primitives::secp256k1_point(private_key))
}

/// The public key of a private key, as text.
pub open spec fn account_public_key(private_key: Seq<u8>) -> Seq<char> {
    point_text(primitives::secp256k1_point(private_key))
}

/// The uncompressed public key of a private key.
fn public_key_point(private_key: &[u8]) -> (r: Result<Vec<u8>, Error>)
    ensures
        error::result_view(r) == match private_key_check(private_key@) {
            Ok(()) => Ok(primitives::secp256k1_point(private_key@)),
            Err(error) => Err(error),
        },
        r matches Ok(point) ==> point@.len() == 65,
{
    match validate_private_key(private_key) {
        Err(error) => Err(error),
        Ok(()) => match primitives::public_point(private_key) {
            Ok(point) => Ok(point),
            Err(message) => Err(Error::InvalidKey(message)),
        },
    }
}

/// Derives the lower-case Ethereum EOA address for a private key.
pub fn address(private_key: &[u8]) -> (r: Result<String, Error>)
    ensures
        error::result_view(r) == match private_key_check(private_key@) {
            Ok(()) => Ok(account_address(private_key@)),
            Err(error) => Err(error),
        },
        r matches Ok(address) ==> is_prefixed_hex(address@, 20),
{
    match public_key_point(private_key) {
        Ok(point) => Ok(address_from_point(point.as_slice())),
        Err(error) => Err(error),
    }
}

/// Derives the uncompressed secp256k1 public key.
pub fn public_key(private_key: &[u8]) -> (r: Result<String, Error>)
    ensures
        error::result_view(r) == match private_key_check(private_key@) {
            Ok(()) => Ok(account_public_key(private_key@)),
            Err(error) => Err(error),
        },
        r matches Ok(public_key) ==> is_prefixed_hex(public_key@, 65),
{
    match public_key_point(private_key) {
        Ok(point) => Ok(point_to_text(point.as_slice())),
        Err(error) => Err(error),
    }
}

/// A signature as Ethereum writes it: `r || s || v`, with 27 added to the recovery ID.
pub fn eoa_signature(compact: &[u8], recovery: u8) -> (r: [u8; 65])
    requires
        compact@.len() == 64,
        recovery <= 228,
    ensures
        r@ == compact@.push((recovery + 27) as u8),
{
    let mut output: [u8; 65] = [0u8; 65];
    let mut i: usize = 0;
    while i < 64
        invariant
            i <= 64,
            compact@.len() == 64,
            forall|j: int| 0 <= j < i ==> output@[j] == compact@[j],
        decreases 64 - i,
    {
        output[i] = compact[i];
        i = i + 1;
    }
    output[64] = recovery + 27;
    assert(output@ =~= compact@.push((recovery + 27) as u8));
    output
}

/// What signing a digest with a private key gives.
pub open spec fn digest_signature(private_key: Seq<u8>, digest: Seq<u8>) -> Result<
    Seq<u8>,
    ErrorView,
> {
    if digest.len() != 32 {
        Err(ErrorView::InvalidRequest("EIP-712 digest must be 32 bytes"@))
    } else {
        match private_key_check(private_key) {
            Err(error) => Err(error),
            Ok(()) => match primitives::secp256k1_signature(private_key, digest) {
                Some((compact, recovery)) => Ok(compact.push((recovery + 27) as u8)),
                None => Err(ErrorView::Crypto("signature error"@)),
            },
        }
    }
}

/// The address of the account that made a signature of a digest, if it is a signature at all.
pub open spec fn recovered_address(digest: Seq<u8>, signature: Seq<u8>) -> Option<Seq<char>> {
    if signature.len() != 65 || signature[64] < 27 {
        None
    } else {
        match primitives::secp256k1_recovered(
            digest,
            signature.take(64),
            (signature[64] - 27) as u8,
        ) {
            Some(point) => Some(point_address(point)),
            None => None,
        }
    }
}

/// Recovers the address of the account that made a signature of a digest.
pub fn recover_address(digest: &[u8], signature: &[u8]) -> (r: Option<String>)
    ensures
        text::option_view(r) == recovered_address(digest@, signature@),
{
    if signature.len() != EOA_SIGNATURE_BYTES || signature[64] < 27 {
        return None;
    }
    let compact = slice_subrange(signature, 0, 64);
    assert(compact@ =~= signature@.take(64));
    match primitives::recover_point(digest, compact, signature[64] - 27) {
        Some(point) => Some(address_from_point(point.as_slice())),
        None => None,
    }
}

/// Signs a precomputed 32-byte digest and returns Ethereum `r || s || v` bytes. The signature leads
/// back to the address of the key.
pub fn sign_digest(private_key: &[u8], digest: &[u8]) -> (r: Result<[u8; 65], Error>)
    ensures
        error::result_view(r) == digest_signature(private_key@, digest@),
        r matches Ok(signature) ==> 27 <= signature@[64] <= 30 && recovered_address(
            digest@,
            signature@,
        ) == Some(account_address(private_key@)),
{
    if digest.len() != DIGEST_BYTES {
        return Err(invalid_request("EIP-712 digest must be 32 bytes"));
    }
    match validate_private_key(private_key) {
        Err(error) => Err(error),
        Ok(()) => match primitives::sign_recoverable(private_key, digest) {
            Ok((compact, recovery)) => {
                let signature = eoa_signature(compact.as_slice(), recovery);
                assert(signature@.take(64) =~= compact@);
                Ok(signature)
            },
            Err(message) => Err(Error::Crypto(message)),
        },
    }
}

} // verus!
