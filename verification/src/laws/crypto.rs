//! Laws on private keys, addresses and signatures.

use vstd::prelude::*;
use vstd::string::*;

use crate::crypto;
use crate::crypto::{
    address, address_from_hash, address_from_point, eoa_signature, generate_private_key,
    point_to_text, public_key, recover_address, sign_digest, validate_private_key,
};
use crate::encoding;
use crate::error::Error;
use crate::primitives;
use crate::secret::SecretBytes;
use crate::text;

verus! {

/// The address of a curve point: `0x` and, in hexadecimal, the Keccak-256 hash of its coordinates
/// without the first twelve bytes.
pub open spec fn address_of_point(point: Seq<u8>) -> Seq<char> {
    "0x"@ + encoding::hex_text(primitives::keccak256_digest(point.skip(1)).skip(12))
}

/// The address of a private key.
pub open spec fn address_of(key: Seq<u8>) -> Seq<char> {
    address_of_point(primitives::secp256k1_point(key))
}

/// The public key of a private key: `0x` and the curve point in hexadecimal.
pub open spec fn public_key_of(key: Seq<u8>) -> Seq<char> {
    "0x"@ + encoding::hex_text(primitives::secp256k1_point(key))
}

/// Whether bytes are a private key: 32 of them, a number from one to below the group order.
pub open spec fn usable(key: Seq<u8>) -> bool {
    key.len() == 32 && primitives::is_private_key(key)
}

/// Whether a failure is what is told of bytes that are no private key.
pub open spec fn tells_bad_key(error: Error, key: Seq<u8>) -> bool {
    error matches Error::InvalidKey(message) && message@ == if key.len() == 32 {
        "signature error"@
    } else {
        "secp256k1 private key must be 32 bytes"@
    }
}

/// The signature of a digest: 64 bytes, and the recovery number with 27 added to it.
pub open spec fn signs(key: Seq<u8>, digest: Seq<u8>, signature: Seq<u8>) -> bool {
    primitives::secp256k1_signature(key, digest) matches Some((compact, recovery)) && {
        &&& signature.len() == compact.len() + 1
        &&& signature.last() == (recovery + 27) as u8
        &&& forall|i: int| 0 <= i < compact.len() ==> #[trigger] signature[i] == compact[i]
    }
}

/// Exactly the private keys of 32 bytes within the group order are accepted.
pub proof fn law_validate_private_key(key: &[u8], r: Result<(), Error>)
    requires
        call_ensures(validate_private_key, (key,), r),
    ensures
        r is Ok == usable(key@),
        r matches Err(error) ==> tells_bad_key(error, key@),
{
}

/// A private key has the address and the public key of its curve point, and bytes that are no
/// private key have neither.
pub proof fn law_identity(
    key: &[u8],
    account: Result<String, Error>,
    point: Result<String, Error>,
)
    requires
        call_ensures(address, (key,), account),
        call_ensures(public_key, (key,), point),
    ensures
        usable(key@) ==> {
            &&& account is Ok && account->Ok_0@ == address_of(key@)
            &&& point is Ok && point->Ok_0@ == public_key_of(key@)
        },
        !usable(key@) ==> {
            &&& account is Err && tells_bad_key(account->Err_0, key@)
            &&& point is Err && tells_bad_key(point->Err_0, key@)
        },
{
}

/// Points and hashes are written as `0x` and hexadecimal digits: a point as it is, a hash without its
/// first twelve bytes, and an address from the hash of the coordinates.
pub proof fn law_points(
    point: &[u8],
    written: String,
    account: String,
    hash: [u8; 32],
    from_hash: String,
)
    requires
        point@.len() > 0,
        call_ensures(point_to_text, (point,), written),
        call_ensures(address_from_point, (point,), account),
        call_ensures(address_from_hash, (&hash,), from_hash),
    ensures
        written@ == "0x"@ + encoding::hex_text(point@),
        account@ == address_of_point(point@),
        account@.len() == 42,
        from_hash@ == "0x"@ + encoding::hex_text(hash@.skip(12)),
        from_hash@.len() == 42,
{
}

/// A signature is written as its 64 bytes and the recovery number with 27 added.
pub proof fn law_eoa_signature(compact: &[u8], recovery: u8, r: [u8; 65])
    requires
        compact@.len() == 64,
        recovery <= 228,
        call_ensures(eoa_signature, (compact, recovery), r),
    ensures
        forall|i: int| 0 <= i < 64 ==> #[trigger] r@[i] == compact@[i],
        r@[64] == recovery + 27,
{
}

/// A digest is signed exactly where it has 32 bytes, the key is a private key and the curve gives a
/// signature. Nothing else is signed, and the reason is told.
pub proof fn law_sign_digest(key: &[u8], digest: &[u8], r: Result<[u8; 65], Error>)
    requires
        call_ensures(sign_digest, (key, digest), r),
    ensures
        r is Ok == (digest@.len() == 32 && usable(key@) && primitives::secp256k1_signature(
            key@,
            digest@,
        ) is Some),
        r matches Ok(signature) ==> signs(key@, digest@, signature@),
        digest@.len() != 32 ==> (r matches Err(Error::InvalidRequest(message)) && message@
            == "EIP-712 digest must be 32 bytes"@),
        digest@.len() == 32 && !usable(key@) ==> r is Err && tells_bad_key(r->Err_0, key@),
        digest@.len() == 32 && usable(key@) && r is Err ==> (r matches Err(Error::Crypto(message))
            && message@ == "signature error"@),
{
    if let Ok(signature) = r {
        lemma_signs(key@, digest@, signature@);
    }
}

pub(crate) proof fn lemma_signs(key: Seq<u8>, digest: Seq<u8>, signature: Seq<u8>)
    requires
        crypto::digest_signature(key, digest) == Ok::<Seq<u8>, crate::error::ErrorView>(signature),
    ensures
        signs(key, digest, signature),
{
}

/// Whoever has a signature of a digest finds the address of the key that made it.
pub proof fn law_signature_recovers(
    key: &[u8],
    digest: &[u8],
    signed: Result<[u8; 65], Error>,
    signature: &[u8],
    r: Option<String>,
)
    requires
        call_ensures(sign_digest, (key, digest), signed),
        signed is Ok,
        signature@ == signed->Ok_0@,
        call_ensures(recover_address, (digest, signature), r),
    ensures
        r is Some,
        r->0@ == address_of(key@),
{
    assert(text::option_view(r) == Some(crypto::account_address(key@)));
    assert(text::option_view(r) == Some(r->0@));
}

/// An address is recovered exactly from 65 bytes whose last is at least 27 and which lead back to a
/// point, by the curve and that byte less 27. It is the point's address.
pub proof fn law_recover_address(digest: &[u8], signature: &[u8], r: Option<String>)
    requires
        call_ensures(recover_address, (digest, signature), r),
    ensures
        signature@.len() != 65 ==> r is None,
        signature@.len() == 65 && signature@[64] < 27 ==> r is None,
        signature@.len() == 65 && signature@[64] >= 27 ==> match primitives::secp256k1_recovered(
            digest@,
            signature@.take(64),
            (signature@[64] - 27) as u8,
        ) {
            Some(point) => r is Some && r->0@ == address_of_point(point),
            None => r is None,
        },
{
    match r {
        Some(found) => {
            assert(text::option_view(r) == Some(found@));
        },
        None => {
            assert(text::option_view(r) is None);
        },
    }
}

/// A generated key is a private key.
pub proof fn law_generate_private_key(r: SecretBytes)
    requires
        call_ensures(generate_private_key, (), r),
    ensures
        usable(r@),
{
}

} // verus!
