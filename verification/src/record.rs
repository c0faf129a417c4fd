//! The records of the stored keys.

use vstd::prelude::*;
use vstd::string::*;
use vstd::utf8;

use crate::crypto;
use crate::encoding;
use crate::envelope::STORE_VERSION;
use crate::error;
use crate::error::{crypto_error, Error, ErrorView};
use crate::primitives;
use crate::protocol;
use crate::sealing;
use crate::secret::SecretBytes;
use crate::text;
use crate::text::{join2, join3, same_text};

verus! {

/// The one algorithm of keys.
pub const KEY_ALGORITHM: &'static str = "secp256k1";

/// The public side of a stored key.
#[derive(Debug, PartialEq, Eq)]
pub struct KeyInfo {
    pub id: String,
    pub algorithm: String,
    pub address: String,
    pub public_key: String,
    pub created_at: i64,
}

/// The meaning of a [`KeyInfo`].
pub struct KeyInfoView {
    pub id: Seq<char>,
    pub algorithm: Seq<char>,
    pub address: Seq<char>,
    pub public_key: Seq<char>,
    pub created_at: i64,
}

impl View for KeyInfo {
    type V = KeyInfoView;

    open spec fn view(&self) -> KeyInfoView {
        KeyInfoView {
            id: self.id@,
            algorithm: self.algorithm@,
            address: self.address@,
            public_key: self.public_key@,
            created_at: self.created_at,
        }
    }
}

impl Clone for KeyInfo {
    fn clone(&self) -> (r: KeyInfo)
        ensures
            r@ == self@,
    {
        KeyInfo {
            id: self.id.clone(),
            algorithm: self.algorithm.clone(),
            address: self.address.clone(),
            public_key: self.public_key.clone(),
            created_at: self.created_at,
        }
    }
}

/// The line that is printed for a key: ID, algorithm and address, with tabs between them.
pub open spec fn key_line(key: KeyInfoView) -> Seq<char> {
    key.id + "\t"@ + key.algorithm + "\t"@ + key.address
}

impl KeyInfo {
    /// The line that is printed for the key.
    pub fn line(&self) -> (r: String)
        ensures
            r@ == key_line(self@),
    {
        let mut r = join3(self.id.as_str(), "\t", self.algorithm.as_str());
        r.append("\t");
        r.append(self.address.as_str());
        r
    }
}

/// A stored key: its public side, and the private key encrypted under the data key.
#[derive(Debug)]
pub struct KeyRecord {
    pub version: u8,
    pub id: String,
    pub algorithm: String,
    pub address: String,
    pub public_key: String,
    pub created_at: i64,
    pub nonce_b64: String,
    pub ciphertext_b64: String,
}

/// The meaning of a [`KeyRecord`].
pub struct KeyRecordView {
    pub version: u8,
    pub id: Seq<char>,
    pub algorithm: Seq<char>,
    pub address: Seq<char>,
    pub public_key: Seq<char>,
    pub created_at: i64,
    pub nonce_b64: Seq<char>,
    pub ciphertext_b64: Seq<char>,
}

impl View for KeyRecord {
    type V = KeyRecordView;

    open spec fn view(&self) -> KeyRecordView {
        KeyRecordView {
            version: self.version,
            id: self.id@,
            algorithm: self.algorithm@,
            address: self.address@,
            public_key: self.public_key@,
            created_at: self.created_at,
            nonce_b64: self.nonce_b64@,
            ciphertext_b64: self.ciphertext_b64@,
        }
    }
}

impl Clone for KeyRecord {
    fn clone(&self) -> (r: KeyRecord)
        ensures
            r@ == self@,
    {
        KeyRecord {
            version: self.version,
            id: self.id.clone(),
            algorithm: self.algorithm.clone(),
            address: self.address.clone(),
            public_key: self.public_key.clone(),
            created_at: self.created_at,
            nonce_b64: self.nonce_b64.clone(),
            ciphertext_b64: self.ciphertext_b64.clone(),
        }
    }
}

/// The public side of a record.
pub open spec fn record_info(record: KeyRecordView) -> KeyInfoView {
    KeyInfoView {
        id: record.id,
        algorithm: record.algorithm,
        address: record.address,
        public_key: record.public_key,
        created_at: record.created_at,
    }
}

impl KeyRecord {
    /// The public side of the record.
    pub fn info(&self) -> (r: KeyInfo)
        ensures
            r@ == record_info(self@),
    {
        KeyInfo {
            id: self.id.clone(),
            algorithm: self.algorithm.clone(),
            address: self.address.clone(),
            public_key: self.public_key.clone(),
            created_at: self.created_at,
        }
    }
}

/// The bytes that the encryption of a private key is bound to: all of its public side but the
/// time of its creation.
pub open spec fn key_aad(info: KeyInfoView) -> Seq<u8> {
    utf8::encode_utf8(
        "agent-wallet/key/v1\0"@ + info.id + "\0"@ + info.algorithm + "\0"@ + info.address + "\0"@
            + info.public_key,
    )
}

/// The text whose bytes the encryption of a private key is bound to.
pub(crate) fn record_aad(info: &KeyInfo) -> (r: String)
    ensures
        utf8::encode_utf8(r@) == key_aad(info@),
{
    let mut r = join3("agent-wallet/key/v1\0", info.id.as_str(), "\0");
    r.append(info.algorithm.as_str());
    r.append("\0");
    r.append(info.address.as_str());
    r.append("\0");
    r.append(info.public_key.as_str());
    r
}

/// The public side of a private key.
pub open spec fn key_info(id: Seq<char>, private_key: Seq<u8>, created_at: i64) -> KeyInfoView {
    KeyInfoView {
        id,
        algorithm: KEY_ALGORITHM@,
        address: crypto::account_address(private_key),
        public_key: crypto::account_public_key(private_key),
        created_at,
    }
}

/// The record of a private key under a data key, for a nonce.
pub open spec fn sealed_key(
    data_key: Seq<u8>,
    id: Seq<char>,
    private_key: Seq<u8>,
    created_at: i64,
    nonce: Seq<u8>,
) -> KeyRecordView {
    let info = key_info(id, private_key, created_at);
    KeyRecordView {
        version: STORE_VERSION,
        id: info.id,
        algorithm: info.algorithm,
        address: info.address,
        public_key: info.public_key,
        created_at: info.created_at,
        nonce_b64: encoding::base64_text(nonce),
        ciphertext_b64: encoding::base64_text(
            primitives::xchacha20poly1305_seal(data_key, nonce, private_key, key_aad(info)),
        ),
    }
}

/// Whether a record can be used, and under the expected ID where one is expected.
pub open spec fn record_valid(record: KeyRecordView, expected_id: Option<Seq<char>>) -> bool {
    &&& record.version == STORE_VERSION
    &&& record.algorithm == KEY_ALGORITHM@
    &&& expected_id matches Some(expected) ==> record.id == expected
    &&& protocol::is_identifier(record.id)
}

/// What is told of a record.
pub open spec fn record_check(record: KeyRecordView, expected_id: Option<Seq<char>>) -> Result<
    (),
    ErrorView,
> {
    if record_valid(record, expected_id) {
        Ok(())
    } else {
        Err(ErrorView::Crypto("wallet record metadata is invalid"@))
    }
}

/// The private key that an opened record holds, if the record did open. It has to be the one that
/// the record's public side belongs to.
pub open spec fn unwrapped_key(record: KeyRecordView, plaintext: Option<Seq<u8>>) -> Result<
    Seq<u8>,
    ErrorView,
> {
    match plaintext {
        None => Err(ErrorView::Crypto("authentication or decryption failed"@)),
        Some(private_key) => match crypto::private_key_check(private_key) {
            Err(error) => Err(error),
            Ok(()) => if crypto::account_address(private_key) != record.address
                || crypto::account_public_key(private_key) != record.public_key {
                Err(ErrorView::Crypto("wallet record identity does not match its private key"@))
            } else {
                Ok(private_key)
            },
        },
    }
}

/// The private key that a data key takes out of a record.
pub open spec fn opened_key(data_key: Seq<u8>, record: KeyRecordView) -> Result<
    Seq<u8>,
    ErrorView,
> {
    match sealing::decoded_nonce(record.nonce_b64) {
        Err(error) => Err(error),
        Ok(nonce) => match sealing::decoded("ciphertext"@, record.ciphertext_b64) {
            Err(error) => Err(error),
            Ok(ciphertext) => unwrapped_key(
                record,
                sealing::opened(data_key, nonce, ciphertext, key_aad(record_info(record))),
            ),
        },
    }
}

/// What a lookup of a record on disk comes to: the record, that there is none, or a failure to
/// read it.
pub open spec fn stored_view(stored: Result<Option<KeyRecord>, Error>) -> Result<
    Option<KeyRecordView>,
    ErrorView,
> {
    match stored {
        Err(error) => Err(error@),
        Ok(record) => Ok(text::option_view(record)),
    }
}

/// The record that a lookup for an ID found, if it can be used.
pub open spec fn found_record(
    id: Seq<char>,
    stored: Result<Option<KeyRecordView>, ErrorView>,
) -> Result<KeyRecordView, ErrorView> {
    match stored {
        Err(error) => Err(error),
        Ok(None) => Err(ErrorView::KeyNotFound(id)),
        Ok(Some(record)) => match record_check(record, Some(id)) {
            Err(error) => Err(error),
            Ok(()) => Ok(record),
        },
    }
}

/// Checks that a record can be used.
pub(crate) fn validate_record(record: &KeyRecord, expected_id: Option<&str>) -> (r: Result<(), Error>)
    ensures
        error::result_view(r) == record_check(record@, text::option_view(expected_id)),
{
    let expected = match expected_id {
        Some(expected) => same_text(record.id.as_str(), expected),
        None => true,
    };
    if record.version != STORE_VERSION || !same_text(record.algorithm.as_str(), KEY_ALGORITHM)
        || !expected || !protocol::check_identifier(record.id.as_str()) {
        return Err(crypto_error("wallet record metadata is invalid"));
    }
    Ok(())
}

/// Takes over a record that was looked up under an ID.
pub(crate) fn read_record(id: &str, stored: Result<Option<KeyRecord>, Error>) -> (r: Result<KeyRecord, Error>)
    ensures
        error::result_view(r) == found_record(id@, stored_view(stored)),
{
    match stored {
        Err(error) => Err(error),
        Ok(None) => Err(Error::KeyNotFound(id.to_owned())),
        Ok(Some(record)) => match validate_record(&record, Some(id)) {
            Err(error) => Err(error),
            Ok(()) => Ok(record),
        },
    }
}

/// The name of the file that holds the record of a key.
pub open spec fn record_file_name(id: Seq<char>) -> Seq<char> {
    encoding::hex_text(primitives::sha256_digest(utf8::encode_utf8(id))) + ".json"@
}

/// The name of a record's file, from the digest of the key's ID. It is the name of a record file.
pub fn digest_file_name(digest: &[u8; 32]) -> (r: String)
    ensures
        r@ == encoding::hex_text(digest@) + ".json"@,
        names_record(r@, true),
{
    let r = join2(encoding::hex_encode(digest.as_slice()).as_str(), ".json");
    proof {
        reveal_strlit(".json");
        assert(r@.skip(r@.len() - 5) =~= ".json"@);
    }
    r
}

/// The name of the file that holds the record of a key. It is the name of a record file.
pub fn key_file_name(id: &str) -> (r: String)
    ensures
        r@ == record_file_name(id@),
        names_record(r@, true),
{
    digest_file_name(&primitives::sha256(id.as_bytes()))
}

/// Whether something found in the directory of the key records is one: a regular file whose name
/// ends in `.json` behind at least one character.
pub open spec fn names_record(name: Seq<char>, regular_file: bool) -> bool {
    regular_file && name.len() > 5 && name.skip(name.len() - 5) == ".json"@
}

/// Whether something found in the directory of the key records is one.
pub fn is_record_file(name: &str, regular_file: bool) -> (r: bool)
    ensures
        r == names_record(name@, regular_file),
{
    let length: usize = name.unicode_len();
    if !regular_file || length <= 5 {
        return false;
    }
    let ending = name.substring_char(length - 5, length);
    assert(ending@ =~= name@.skip(name@.len() - 5));
    same_text(ending, ".json")
}

/// Takes over the private key from an opened record, if it did open.
pub fn unwrap_key(record: &KeyRecord, plaintext: Option<SecretBytes>) -> (r: Result<
    SecretBytes,
    Error,
>)
    ensures
        error::result_view(r) == unwrapped_key(record@, text::option_view(plaintext)),
{
    let private_key = match plaintext {
        Some(private_key) => private_key,
        None => return Err(crypto_error("authentication or decryption failed")),
    };
    if let Err(error) = crypto::validate_private_key(private_key.as_slice()) {
        return Err(error);
    }
    let address = match crypto::address(private_key.as_slice()) {
        Ok(address) => address,
        Err(error) => return Err(error),
    };
    let public_key = match crypto::public_key(private_key.as_slice()) {
        Ok(public_key) => public_key,
        Err(error) => return Err(error),
    };
    if !same_text(address.as_str(), record.address.as_str()) || !same_text(
        public_key.as_str(),
        record.public_key.as_str(),
    ) {
        return Err(crypto_error("wallet record identity does not match its private key"));
    }
    Ok(private_key)
}

} // verus!
