//! The master key, and the envelope that keeps the data key under it.

use vstd::prelude::*;
use vstd::string::*;
use vstd::utf8;

use crate::encoding;
use crate::error;
use crate::error::{crypto_error, Error, ErrorView};
use crate::primitives;
use crate::sealing;
use crate::sealing::{decode_base64, decode_nonce, decrypt, encrypt, random_nonce, random_salt};
use crate::secret::{SecretBytes, SecretKey};
use crate::text;
use crate::text::{join3, same_text, strip_prefix, trim};

verus! {

/// The version of the store's files.
pub const STORE_VERSION: u8 = 1;

/// What master-key files start with.
pub const MASTER_KEY_PREFIX: &'static str = "wallet-master-key-v1:";

/// What the key that encrypts the data key is derived for.
pub const KEK_INFO: &'static str = "agent-wallet/kek/v1";

/// What the encryption of the data key is bound to.
pub const META_AAD: &'static str = "agent-wallet/store-metadata/v1";

/// The data-key envelope: the data key, encrypted under a key derived from the master key.
#[derive(Debug)]
pub struct StoreMetadata {
    pub version: u8,
    pub kdf: String,
    pub aead: String,
    pub salt_b64: String,
    pub nonce_b64: String,
    pub encrypted_data_key_b64: String,
}

/// The meaning of a [`StoreMetadata`].
pub struct StoreMetadataView {
    pub version: u8,
    pub kdf: Seq<char>,
    pub aead: Seq<char>,
    pub salt_b64: Seq<char>,
    pub nonce_b64: Seq<char>,
    pub encrypted_data_key_b64: Seq<char>,
}

impl View for StoreMetadata {
    type V = StoreMetadataView;

    open spec fn view(&self) -> StoreMetadataView {
        StoreMetadataView {
            version: self.version,
            kdf: self.kdf@,
            aead: self.aead@,
            salt_b64: self.salt_b64@,
            nonce_b64: self.nonce_b64@,
            encrypted_data_key_b64: self.encrypted_data_key_b64@,
        }
    }
}

impl Clone for StoreMetadata {
    fn clone(&self) -> (r: StoreMetadata)
        ensures
            r@ == self@,
    {
        StoreMetadata {
            version: self.version,
            kdf: self.kdf.clone(),
            aead: self.aead.clone(),
            salt_b64: self.salt_b64.clone(),
            nonce_b64: self.nonce_b64.clone(),
            encrypted_data_key_b64: self.encrypted_data_key_b64.clone(),
        }
    }
}

/// The key that encrypts the data key: derived from the master key and the envelope's salt.
pub open spec fn key_encryption_key(master_key: Seq<u8>, salt: Seq<u8>) -> Seq<u8> {
    primitives::hkdf_sha256_key(salt, master_key, utf8::encode_utf8(KEK_INFO@))
}

fn derive_kek(master_key: &SecretKey, salt: &[u8]) -> (r: Result<SecretKey, Error>)
    ensures
        match r {
            Ok(kek) => kek@ == key_encryption_key(master_key@, salt@),
            Err(_) => false,
        },
{
    match primitives::hkdf_sha256(
        salt,
        master_key.as_array().as_slice(),
        KEK_INFO.as_bytes(),
    ) {
        Some(output) => Ok(SecretKey::new(output)),
        None => Err(crypto_error("failed to derive key-encryption key")),
    }
}

/// The bytes that the encryption of the data key is bound to.
pub open spec fn envelope_aad() -> Seq<u8> {
    utf8::encode_utf8(META_AAD@)
}

/// The envelope of a data key under a master key, for a salt and a nonce.
pub open spec fn sealed_data_key(
    data_key: Seq<u8>,
    master_key: Seq<u8>,
    salt: Seq<u8>,
    nonce: Seq<u8>,
) -> StoreMetadataView {
    StoreMetadataView {
        version: STORE_VERSION,
        kdf: "hkdf-sha256"@,
        aead: "xchacha20poly1305"@,
        salt_b64: encoding::base64_text(salt),
        nonce_b64: encoding::base64_text(nonce),
        encrypted_data_key_b64: encoding::base64_text(
            primitives::xchacha20poly1305_seal(
                key_encryption_key(master_key, salt),
                nonce,
                data_key,
                envelope_aad(),
            ),
        ),
    }
}

/// The data key that the opened envelope holds, if the envelope did open.
pub open spec fn unwrapped_data_key(plaintext: Option<Seq<u8>>) -> Result<Seq<u8>, ErrorView> {
    match plaintext {
        None => Err(
            ErrorView::InvalidMasterKey("master key does not unlock the wallet store"@),
        ),
        Some(plaintext) => if plaintext.len() != 32 {
            Err(ErrorView::Crypto("decrypted data key has an invalid length"@))
        } else {
            Ok(plaintext)
        },
    }
}

/// The data key that a master key takes out of an envelope.
pub open spec fn opened_data_key(metadata: StoreMetadataView, master_key: Seq<u8>) -> Result<
    Seq<u8>,
    ErrorView,
> {
    if metadata.version != STORE_VERSION || metadata.kdf != "hkdf-sha256"@ || metadata.aead
        != "xchacha20poly1305"@ {
        Err(ErrorView::Crypto("unsupported wallet store format"@))
    } else {
        match sealing::decoded("salt"@, metadata.salt_b64) {
            Err(error) => Err(error),
            Ok(salt) => match sealing::decoded_nonce(metadata.nonce_b64) {
                Err(error) => Err(error),
                Ok(nonce) => match sealing::decoded(
                    "encrypted data key"@,
                    metadata.encrypted_data_key_b64,
                ) {
                    Err(error) => Err(error),
                    Ok(ciphertext) => unwrapped_data_key(
                        sealing::opened(
                            key_encryption_key(master_key, salt),
                            nonce,
                            ciphertext,
                            envelope_aad(),
                        ),
                    ),
                },
            },
        }
    }
}

/// The envelope that holds a ciphertext, with its salt and nonce.
pub fn envelope(salt: &[u8; 32], nonce: &[u8; 24], ciphertext: &[u8]) -> (r: StoreMetadata)
    requires
        4 * ((ciphertext@.len() + 2) / 3) <= usize::MAX,
    ensures
        r@ == (StoreMetadataView {
            version: STORE_VERSION,
            kdf: "hkdf-sha256"@,
            aead: "xchacha20poly1305"@,
            salt_b64: encoding::base64_text(salt@),
            nonce_b64: encoding::base64_text(nonce@),
            encrypted_data_key_b64: encoding::base64_text(ciphertext@),
        }),
{
    StoreMetadata {
        version: STORE_VERSION,
        kdf: "hkdf-sha256".to_owned(),
        aead: "xchacha20poly1305".to_owned(),
        salt_b64: encoding::base64_encode(salt.as_slice()),
        nonce_b64: encoding::base64_encode(nonce.as_slice()),
        encrypted_data_key_b64: encoding::base64_encode(ciphertext),
    }
}

/// Puts a data key into an envelope under a master key, with a given salt and nonce. The same
/// master key takes it out again.
pub fn seal_data_key(
    data_key: &SecretKey,
    master_key: &SecretKey,
    salt: &[u8; 32],
    nonce: &[u8; 24],
) -> (r: Result<StoreMetadata, Error>)
    ensures
        match r {
            Ok(metadata) => {
                &&& metadata@ == sealed_data_key(data_key@, master_key@, salt@, nonce@)
                &&& opened_data_key(metadata@, master_key@) == Ok::<Seq<u8>, ErrorView>(data_key@)
            },
            Err(_) => false,
        },
{
    let kek = match derive_kek(master_key, salt.as_slice()) {
        Ok(kek) => kek,
        Err(error) => return Err(error),
    };
    let ciphertext = match encrypt(&kek, nonce, data_key.as_array().as_slice(), META_AAD.as_bytes()) {
        Ok(ciphertext) => ciphertext,
        Err(error) => return Err(error),
    };
    proof {
        encoding::lemma_base64_round_trip(salt@);
        encoding::lemma_base64_round_trip(nonce@);
        encoding::lemma_base64_round_trip(ciphertext@);
    }
    Ok(envelope(salt, nonce, ciphertext.as_slice()))
}

/// Whether an envelope holds a data key under a master key, for some salt and nonce, and opens
/// with that master key.
pub open spec fn is_envelope(
    metadata: StoreMetadataView,
    data_key: Seq<u8>,
    master_key: Seq<u8>,
) -> bool {
    &&& exists|salt: Seq<u8>, nonce: Seq<u8>|
        salt.len() == 32 && nonce.len() == 24 && metadata == #[trigger] sealed_data_key(
            data_key,
            master_key,
            salt,
            nonce,
        )
    &&& opened_data_key(metadata, master_key) == Ok::<Seq<u8>, ErrorView>(data_key)
}

/// Whether the cipher opens an envelope under a master key.
pub open spec fn unlocks(metadata: StoreMetadataView, master_key: Seq<u8>) -> bool {
    match (
        encoding::base64_bytes(metadata.salt_b64),
        encoding::base64_bytes(metadata.nonce_b64),
        encoding::base64_bytes(metadata.encrypted_data_key_b64),
    ) {
        (Some(salt), Some(nonce), Some(ciphertext)) => sealing::opened(
            key_encryption_key(master_key, salt),
            nonce,
            ciphertext,
            envelope_aad(),
        ) is Some,
        _ => false,
    }
}

/// What is told of a master key under which the cipher does not open the envelope.
pub open spec fn does_not_unlock() -> ErrorView {
    ErrorView::InvalidMasterKey("master key does not unlock the wallet store"@)
}

/// An envelope that was made under one master key tells of another, under which the cipher does
/// not open it, that it does not unlock the store.
pub proof fn lemma_other_master_key_is_refused(
    metadata: StoreMetadataView,
    data_key: Seq<u8>,
    master_key: Seq<u8>,
    other: Seq<u8>,
)
    requires
        is_envelope(metadata, data_key, master_key),
        !unlocks(metadata, other),
    ensures
        opened_data_key(metadata, other) == Err::<Seq<u8>, ErrorView>(does_not_unlock()),
        other != master_key,
{
    let (salt, nonce) = choose|salt: Seq<u8>, nonce: Seq<u8>|
        salt.len() == 32 && nonce.len() == 24 && metadata == #[trigger] sealed_data_key(
            data_key,
            master_key,
            salt,
            nonce,
        );
    let ciphertext = primitives::xchacha20poly1305_seal(
        key_encryption_key(master_key, salt),
        nonce,
        data_key,
        envelope_aad(),
    );
    encoding::lemma_base64_round_trip(salt);
    encoding::lemma_base64_round_trip(nonce);
    encoding::lemma_base64_round_trip(ciphertext);
}

/// Whatever is wrong with a master-key file is told as an invalid master key.
pub proof fn lemma_bad_master_key_file_is_refused(source: Result<Seq<char>, ErrorView>)
    requires
        master_key_bytes(source) is Err,
    ensures
        master_key_bytes(source) matches Err(error) && error is InvalidMasterKey,
{
}

/// Puts a data key into an envelope under a master key, with a random salt and nonce.
pub(crate) fn encrypt_data_key(data_key: &SecretKey, master_key: &SecretKey) -> (r: Result<
    StoreMetadata,
    Error,
>)
    ensures
        match r {
            Ok(metadata) => is_envelope(metadata@, data_key@, master_key@),
            Err(_) => false,
        },
{
    seal_data_key(data_key, master_key, &random_salt(), &random_nonce())
}

/// Takes over the data key from the opened envelope, if it did open.
pub fn unwrap_data_key(plaintext: Option<SecretBytes>) -> (r: Result<SecretKey, Error>)
    ensures
        error::result_view(r) == unwrapped_data_key(text::option_view(plaintext)),
{
    match plaintext {
        None => Err(
            Error::InvalidMasterKey("master key does not unlock the wallet store".to_owned()),
        ),
        Some(plaintext) => {
            if plaintext.as_slice().len() != 32 {
                Err(crypto_error("decrypted data key has an invalid length"))
            } else {
                Ok(SecretKey::from_slice(plaintext.as_slice()))
            }
        },
    }
}

/// Takes the data key out of an envelope.
pub fn decrypt_data_key(metadata: &StoreMetadata, master_key: &SecretKey) -> (r: Result<
    SecretKey,
    Error,
>)
    ensures
        error::result_view(r) == opened_data_key(metadata@, master_key@),
{
    if metadata.version != STORE_VERSION || !same_text(metadata.kdf.as_str(), "hkdf-sha256")
        || !same_text(metadata.aead.as_str(), "xchacha20poly1305") {
        return Err(crypto_error("unsupported wallet store format"));
    }
    let salt = match decode_base64("salt", metadata.salt_b64.as_str()) {
        Ok(salt) => salt,
        Err(error) => return Err(error),
    };
    let kek = match derive_kek(master_key, salt.as_slice()) {
        Ok(kek) => kek,
        Err(error) => return Err(error),
    };
    let nonce = match decode_nonce(metadata.nonce_b64.as_str()) {
        Ok(nonce) => nonce,
        Err(error) => return Err(error),
    };
    let ciphertext = match decode_base64(
        "encrypted data key",
        metadata.encrypted_data_key_b64.as_str(),
    ) {
        Ok(ciphertext) => ciphertext,
        Err(error) => return Err(error),
    };
    match decrypt(&kek, &nonce, ciphertext.as_slice(), META_AAD.as_bytes()) {
        Err(_) => unwrap_data_key(None),
        Ok(plaintext) => unwrap_data_key(Some(plaintext)),
    }
}

/// The master key that a file holds, or why the file holds none.
pub open spec fn master_key_bytes(source: Result<Seq<char>, ErrorView>) -> Result<
    Seq<u8>,
    ErrorView,
> {
    match source {
        Err(error) => Err(ErrorView::InvalidMasterKey(error::error_text(error))),
        Ok(text) => match text::without_prefix(text::trimmed(text), MASTER_KEY_PREFIX@) {
            None => Err(ErrorView::InvalidMasterKey("expected wallet-master-key-v1:<base64>"@)),
            Some(encoded) => match encoding::base64_bytes(encoded) {
                None => Err(ErrorView::InvalidMasterKey("master key is not valid base64"@)),
                Some(bytes) => if bytes.len() != 32 {
                    Err(ErrorView::InvalidMasterKey("master key must decode to 32 bytes"@))
                } else {
                    Ok(bytes)
                },
            },
        },
    }
}

/// Takes the master key from what reading its file gave.
pub fn read_master_key(source: Result<&str, Error>) -> (r: Result<SecretKey, Error>)
    ensures
        error::result_view(r) == master_key_bytes(error::result_view(source)),
{
    let source = match source {
        Ok(source) => source,
        Err(error) => return Err(Error::InvalidMasterKey(error.message())),
    };
    let encoded = match strip_prefix(trim(source), MASTER_KEY_PREFIX) {
        Some(encoded) => encoded,
        None => return Err(
            Error::InvalidMasterKey("expected wallet-master-key-v1:<base64>".to_owned()),
        ),
    };
    let decoded = match encoding::decode_text(encoded) {
        Some(decoded) => SecretBytes::new(decoded),
        None => return Err(Error::InvalidMasterKey("master key is not valid base64".to_owned())),
    };
    if decoded.as_slice().len() != 32 {
        return Err(Error::InvalidMasterKey("master key must decode to 32 bytes".to_owned()));
    }
    Ok(SecretKey::from_slice(decoded.as_slice()))
}

/// The contents of the file of a master key.
pub open spec fn master_key_text(key: Seq<u8>) -> Seq<char> {
    MASTER_KEY_PREFIX@ + encoding::base64_text(key) + "\n"@
}

/// A master key is read back from the contents of its file.
pub proof fn lemma_master_key_round_trip(key: Seq<u8>)
    requires
        key.len() == 32,
    ensures
        master_key_bytes(Ok(master_key_text(key))) == Ok::<Seq<u8>, ErrorView>(key),
{
    reveal_strlit("wallet-master-key-v1:");
    reveal_strlit("\n");
    let encoded = encoding::base64_text(key);
    let kept = MASTER_KEY_PREFIX@ + encoded;
    let text = master_key_text(key);
    assert(text[0] == 'w');
    assert(text::trimmed_start(text) == text);
    assert(text.drop_last() =~= kept);
    assert(text.last() == '\n');
    assert(kept.last() == encoded[43]);
    assert(text::trimmed_end(kept) == kept);
    assert(text::trimmed_end(text) == kept);
    text::lemma_without_prefix_concat(MASTER_KEY_PREFIX@, encoded);
    encoding::lemma_base64_round_trip(key);
}

/// The contents of the file of a given master key.
pub fn master_key_file(key: &SecretKey) -> (r: String)
    ensures
        r@ == master_key_text(key@),
{
    join3(
        MASTER_KEY_PREFIX,
        encoding::base64_encode(key.as_array().as_slice()).as_str(),
        "\n",
    )
}

/// The contents of a new master-key file, for a random key. They are read back as a master key.
pub fn generate_master_key_file() -> (r: String)
    ensures
        exists|key: Seq<u8>| key.len() == 32 && r@ == #[trigger] master_key_text(key),
        master_key_bytes(Ok(r@)) is Ok,
{
    let bytes = SecretBytes::new(primitives::random_bytes(32));
    let key = SecretKey::from_slice(bytes.as_slice());
    proof {
        lemma_master_key_round_trip(key@);
    }
    master_key_file(&key)
}

} // verus!
