//! The encrypted key store: what each operation makes of what was found on disk, and what it wants
//! written.

use vstd::prelude::*;
use vstd::string::*;

use crate::crypto;
use crate::encoding;
use crate::envelope;
use crate::envelope::{decrypt_data_key, encrypt_data_key, read_master_key, seal_data_key};
use crate::envelope::{StoreMetadataView, STORE_VERSION};
use crate::error;
use crate::error::{Error, ErrorView};
use crate::listing;
use crate::primitives;
use crate::protocol;
use crate::protocol::validate_identifier;
use crate::record;
use crate::record::{key_file_name, read_record, record_aad, unwrap_key};
use crate::record::{KeyInfoView, KeyRecordView, KEY_ALGORITHM};
use crate::sealing::{decode_base64, decode_nonce, decrypt, encrypt, random_nonce, random_salt};
use crate::secret::{SecretBytes, SecretKey};
use crate::text;
use crate::text::{strip_prefix, trim};

pub use crate::envelope::{generate_master_key_file, StoreMetadata};
pub use crate::record::{KeyInfo, KeyRecord};

verus! {

/// The name of the file that holds the data-key envelope.
pub const META_FILE: &'static str = "store.json";

/// The name of the directory that holds the key records.
pub const KEYS_DIR: &'static str = "keys";

/// The name of the file that is locked while the store is open.
pub const LOCK_FILE: &'static str = ".lock";

/// The most bytes of a file of the store.
pub const MAX_STORE_FILE_BYTES: usize = 65_536;

/// The most bytes of a master-key file.
pub const MAX_MASTER_KEY_FILE_BYTES: usize = 256;

/// The most bytes of a private-key file.
pub const MAX_PRIVATE_KEY_FILE_BYTES: usize = 256;

/// An open store: the data key that its records are encrypted under.
pub struct EncryptedFileStore {
    data_key: SecretKey,
}

/// What opening a store comes to: its data key, and the envelope to write where there was none.
pub open spec fn opening_view(
    r: Result<(EncryptedFileStore, Option<StoreMetadata>), Error>,
) -> Result<(Seq<u8>, Option<StoreMetadataView>), ErrorView> {
    match r {
        Err(error) => Err(error@),
        Ok((store, metadata)) => Ok((store.data_key(), text::option_view(metadata))),
    }
}

/// What a lookup of the envelope on disk comes to: the envelope, that there is none, or a failure
/// to read it.
pub open spec fn stored_metadata_view(stored: Result<Option<StoreMetadata>, Error>) -> Result<
    Option<StoreMetadataView>,
    ErrorView,
> {
    match stored {
        Err(error) => Err(error@),
        Ok(metadata) => Ok(text::option_view(metadata)),
    }
}

/// Whether opening a store with a master key may come to a result. An envelope that is there is
/// opened; where there is none, the store gets some data key, in an envelope under the master key.
pub open spec fn store_opens(
    master_key: Result<Seq<u8>, ErrorView>,
    stored: Result<Option<StoreMetadataView>, ErrorView>,
    r: Result<(Seq<u8>, Option<StoreMetadataView>), ErrorView>,
) -> bool {
    match master_key {
        Err(error) => r == Err::<(Seq<u8>, Option<StoreMetadataView>), ErrorView>(error),
        Ok(master_key) => match stored {
            Err(error) => r == Err::<(Seq<u8>, Option<StoreMetadataView>), ErrorView>(error),
            Ok(Some(metadata)) => r == match envelope::opened_data_key(metadata, master_key) {
                Err(error) => Err::<(Seq<u8>, Option<StoreMetadataView>), ErrorView>(error),
                Ok(data_key) => Ok((data_key, None)),
            },
            Ok(None) => match r {
                Ok((data_key, Some(metadata))) => data_key.len() == 32 && envelope::is_envelope(
                    metadata,
                    data_key,
                    master_key,
                ),
                _ => false,
            },
        },
    }
}

/// What adding a key comes to, apart from the record: the reason why it is refused, if it is.
pub open spec fn insertion_check(id: Seq<char>, private_key: Seq<u8>, present: bool) -> Result<
    (),
    ErrorView,
> {
    if !protocol::is_identifier(id) {
        Err(ErrorView::InvalidRequest("wallet_id"@ + " is invalid"@))
    } else if crypto::private_key_check(private_key) is Err {
        crypto::private_key_check(private_key)
    } else if present {
        Err(ErrorView::KeyExists(id))
    } else {
        Ok(())
    }
}

/// What importing a key comes to, apart from the record: the key is looked at before its ID.
pub open spec fn import_check(id: Seq<char>, private_key: Seq<u8>, present: bool) -> Result<
    (),
    ErrorView,
> {
    match crypto::private_key_check(private_key) {
        Err(error) => Err(error),
        Ok(()) => insertion_check(id, private_key, present),
    }
}

/// Whether a record holds a private key under a data key, for some nonce, and gives it back.
pub open spec fn is_key_record(
    record: KeyRecordView,
    data_key: Seq<u8>,
    id: Seq<char>,
    private_key: Seq<u8>,
    created_at: i64,
) -> bool {
    &&& exists|nonce: Seq<u8>|
        nonce.len() == 24 && record == #[trigger] record::sealed_key(
            data_key,
            id,
            private_key,
            created_at,
            nonce,
        )
    &&& record::opened_key(data_key, record) == Ok::<Seq<u8>, ErrorView>(private_key)
}

/// Whether adding a key that passed a check comes to a result: the key's public side, and the
/// record to write.
pub open spec fn key_inserted(
    check: Result<(), ErrorView>,
    data_key: Seq<u8>,
    id: Seq<char>,
    private_key: Seq<u8>,
    created_at: i64,
    r: Result<(KeyInfoView, KeyRecordView), ErrorView>,
) -> bool {
    match check {
        Err(error) => r == Err::<(KeyInfoView, KeyRecordView), ErrorView>(error),
        Ok(()) => match r {
            Ok((info, record)) => {
                &&& info == record::key_info(id, private_key, created_at)
                &&& is_key_record(record, data_key, id, private_key, created_at)
            },
            Err(_) => false,
        },
    }
}

/// The private key that the contents of a key file give: hex, with or without `0x` before it.
pub open spec fn private_key_text(text: Seq<char>) -> Option<Seq<u8>> {
    let trimmed = text::trimmed(text);
    match text::without_prefix(trimmed, "0x"@) {
        Some(encoded) => encoding::hex_bytes(encoded),
        None => encoding::hex_bytes(trimmed),
    }
}

/// What looking up the public side of a key comes to.
pub open spec fn key_lookup(
    id: Seq<char>,
    stored: Result<Option<KeyRecordView>, ErrorView>,
) -> Result<KeyRecordView, ErrorView> {
    if !protocol::is_identifier(id) {
        Err(ErrorView::InvalidRequest("wallet_id"@ + " is invalid"@))
    } else {
        record::found_record(id, stored)
    }
}

/// What deleting a key comes to: the name of the file to remove, or the reason why none is.
pub open spec fn deletion(id: Seq<char>, present: bool) -> Result<Seq<char>, ErrorView> {
    if !protocol::is_identifier(id) {
        Err(ErrorView::InvalidRequest("wallet_id"@ + " is invalid"@))
    } else if !present {
        Err(ErrorView::KeyNotFound(id))
    } else {
        Ok(record::record_file_name(id))
    }
}

/// What signing with a stored key comes to: the key's public side and the signature.
pub open spec fn stored_signature(
    data_key: Seq<u8>,
    id: Seq<char>,
    stored: Result<Option<KeyRecordView>, ErrorView>,
    digest: Seq<u8>,
) -> Result<(KeyInfoView, Seq<u8>), ErrorView> {
    match key_lookup(id, stored) {
        Err(error) => Err(error),
        Ok(record) => match record::opened_key(data_key, record) {
            Err(error) => Err(error),
            Ok(private_key) => match crypto::digest_signature(private_key, digest) {
                Err(error) => Err(error),
                Ok(signature) => Ok((record::record_info(record), signature)),
            },
        },
    }
}

/// What replacing the master key comes to, apart from the envelope: the replacement, or the reason
/// why it is refused.
pub open spec fn rotation_check(
    data_key: Seq<u8>,
    current: Result<Seq<u8>, ErrorView>,
    stored: Result<StoreMetadataView, ErrorView>,
    replacement: Result<Seq<u8>, ErrorView>,
) -> Result<Seq<u8>, ErrorView> {
    match current {
        Err(error) => Err(error),
        Ok(current) => match stored {
            Err(error) => Err(error),
            Ok(metadata) => match envelope::opened_data_key(metadata, current) {
                Err(error) => Err(error),
                Ok(stored_data_key) => if stored_data_key != data_key {
                    Err(ErrorView::InvalidMasterKey("current key does not unlock this store"@))
                } else {
                    replacement
                },
            },
        },
    }
}

impl EncryptedFileStore {
    /// The key that the store's records are encrypted under.
    pub closed spec fn data_key(&self) -> Seq<u8> {
        self.data_key@
    }

    /// The store of a data key, which has no envelope yet, and the envelope to write, for a given
    /// salt and nonce.
    pub fn initialize(
        master_key: &SecretKey,
        data_key: SecretKey,
        salt: &[u8; 32],
        nonce: &[u8; 24],
    ) -> (r: Result<(EncryptedFileStore, StoreMetadata), Error>)
        ensures
            match r {
                Ok((store, metadata)) => {
                    &&& store.data_key() == data_key@
                    &&& metadata@ == envelope::sealed_data_key(data_key@, master_key@, salt@, nonce@)
                    &&& envelope::opened_data_key(metadata@, master_key@) == Ok::<Seq<u8>, ErrorView>(
                        data_key@,
                    )
                },
                Err(_) => false,
            },
    {
        match seal_data_key(&data_key, master_key, salt, nonce) {
            Ok(metadata) => Ok((EncryptedFileStore { data_key }, metadata)),
            Err(error) => Err(error),
        }
    }

    /// Opens a store with what reading its master-key file and its envelope gave. Where there is
    /// no envelope, the store gets a random data key, and the envelope to write is returned.
    pub fn open(master_key: Result<&str, Error>, stored: Result<Option<StoreMetadata>, Error>) -> (r:
        Result<(EncryptedFileStore, Option<StoreMetadata>), Error>)
        ensures
            store_opens(
                envelope::master_key_bytes(error::result_view(master_key)),
                stored_metadata_view(stored),
                opening_view(r),
            ),
    {
        let master_key = match read_master_key(master_key) {
            Ok(master_key) => master_key,
            Err(error) => return Err(error),
        };
        match stored {
            Err(error) => Err(error),
            Ok(Some(metadata)) => match decrypt_data_key(&metadata, &master_key) {
                Err(error) => Err(error),
                Ok(data_key) => Ok((EncryptedFileStore { data_key }, None)),
            },
            Ok(None) => {
                let generated = SecretBytes::new(primitives::random_bytes(32));
                let data_key = SecretKey::from_slice(generated.as_slice());
                match EncryptedFileStore::initialize(
                    &master_key,
                    data_key,
                    &random_salt(),
                    &random_nonce(),
                ) {
                    Ok((store, metadata)) => Ok((store, Some(metadata))),
                    Err(error) => Err(error),
                }
            },
        }
    }

    /// Encrypts a private key into the record of an ID, for a given nonce, unless the ID, the key
    /// or an existing record forbids it.
    pub fn seal_key(
        &self,
        id: &str,
        private_key: &[u8],
        present: bool,
        created_at: i64,
        nonce: &[u8; 24],
    ) -> (r: Result<(KeyInfo, KeyRecord), Error>)
        ensures
            key_inserted(
                insertion_check(id@, private_key@, present),
                self.data_key(),
                id@,
                private_key@,
                created_at,
                error::result_view(r),
            ),
            r matches Ok((_, record)) ==> record@ == record::sealed_key(
                self.data_key(),
                id@,
                private_key@,
                created_at,
                nonce@,
            ),
    {
        if let Err(error) = validate_identifier("wallet_id", id) {
            return Err(error);
        }
        if let Err(error) = crypto::validate_private_key(private_key) {
            return Err(error);
        }
        if present {
            return Err(Error::KeyExists(id.to_owned()));
        }
        let address = match crypto::address(private_key) {
            Ok(address) => address,
            Err(error) => return Err(error),
        };
        let public_key = match crypto::public_key(private_key) {
            Ok(public_key) => public_key,
            Err(error) => return Err(error),
        };
        let info = KeyInfo {
            id: id.to_owned(),
            algorithm: KEY_ALGORITHM.to_owned(),
            address,
            public_key,
            created_at,
        };
        let aad = record_aad(&info);
        let ciphertext = match encrypt(
            &self.data_key,
            nonce,
            private_key,
            aad.as_str().as_bytes(),
        ) {
            Ok(ciphertext) => ciphertext,
            Err(error) => return Err(error),
        };
        let record = KeyRecord {
            version: STORE_VERSION,
            id: info.id.clone(),
            algorithm: info.algorithm.clone(),
            address: info.address.clone(),
            public_key: info.public_key.clone(),
            created_at: info.created_at,
            nonce_b64: encoding::base64_encode(nonce.as_slice()),
            ciphertext_b64: encoding::base64_encode(ciphertext.as_slice()),
        };
        proof {
            encoding::lemma_base64_round_trip(nonce@);
            encoding::lemma_base64_round_trip(ciphertext@);
            assert(record@ == record::sealed_key(
                self.data_key(),
                id@,
                private_key@,
                created_at,
                nonce@,
            ));
            assert(record::record_info(record@) == info@);
        }
        Ok((info, record))
    }

    fn insert(&self, id: &str, private_key: &[u8], present: bool, created_at: i64) -> (r: Result<
        (KeyInfo, KeyRecord),
        Error,
    >)
        ensures
            key_inserted(
                insertion_check(id@, private_key@, present),
                self.data_key(),
                id@,
                private_key@,
                created_at,
                error::result_view(r),
            ),
    {
        self.seal_key(id, private_key, present, created_at, &random_nonce())
    }

    /// Generates a new secp256k1 key, unless there is a record under the ID: its public side, and
    /// the record to write.
    pub fn generate(&self, id: &str, present: bool, created_at: i64) -> (r: Result<
        (KeyInfo, KeyRecord),
        Error,
    >)
        ensures
            exists|private_key: Seq<u8>| #[trigger]
                primitives::is_private_key(private_key) && key_inserted(
                    insertion_check(id@, private_key, present),
                    self.data_key(),
                    id@,
                    private_key,
                    created_at,
                    error::result_view(r),
                ),
    {
        let private_key = crypto::generate_private_key();
        self.insert(id, private_key.as_slice(), present, created_at)
    }

    /// Imports raw secp256k1 private-key bytes, unless there is a record under the ID: the public
    /// side of the key, and the record to write.
    pub fn import(&self, id: &str, private_key: &[u8], present: bool, created_at: i64) -> (r: Result<
        (KeyInfo, KeyRecord),
        Error,
    >)
        ensures
            key_inserted(
                import_check(id@, private_key@, present),
                self.data_key(),
                id@,
                private_key@,
                created_at,
                error::result_view(r),
            ),
    {
        if let Err(error) = crypto::validate_private_key(private_key) {
            return Err(error);
        }
        self.insert(id, private_key, present, created_at)
    }

    /// Imports a hex private key from what reading its file gave.
    pub fn import_file(
        &self,
        id: &str,
        source: Result<&str, Error>,
        present: bool,
        created_at: i64,
    ) -> (r: Result<(KeyInfo, KeyRecord), Error>)
        ensures
            match error::result_view(source) {
                Err(error) => error::result_view(r) == Err::<
                    (KeyInfoView, KeyRecordView),
                    ErrorView,
                >(error),
                Ok(text) => match private_key_text(text) {
                    None => error::result_view(r) == Err::<(KeyInfoView, KeyRecordView), ErrorView>(
                        ErrorView::InvalidKey("private key file must contain hex"@),
                    ),
                    Some(private_key) => key_inserted(
                        import_check(id@, private_key, present),
                        self.data_key(),
                        id@,
                        private_key,
                        created_at,
                        error::result_view(r),
                    ),
                },
            },
    {
        let source = match source {
            Ok(source) => source,
            Err(error) => return Err(error),
        };
        let trimmed = trim(source);
        let encoded = match strip_prefix(trimmed, "0x") {
            Some(encoded) => encoded,
            None => trimmed,
        };
        match encoding::hex_decode(encoded) {
            None => Err(Error::InvalidKey("private key file must contain hex".to_owned())),
            Some(bytes) => {
                let private_key = SecretBytes::new(bytes);
                self.import(id, private_key.as_slice(), present, created_at)
            },
        }
    }

    /// The public side of one key, from what looking up its record gave.
    pub fn get(&self, id: &str, stored: Result<Option<KeyRecord>, Error>) -> (r: Result<
        KeyInfo,
        Error,
    >)
        ensures
            error::result_view(r) == match key_lookup(id@, record::stored_view(stored)) {
                Err(error) => Err(error),
                Ok(record) => Ok(record::record_info(record)),
            },
    {
        if let Err(error) = validate_identifier("wallet_id", id) {
            return Err(error);
        }
        match read_record(id, stored) {
            Err(error) => Err(error),
            Ok(record) => Ok(record.info()),
        }
    }

    /// The public sides of all keys, by their IDs, from what reading the record files gave. Each
    /// file is given by its name.
    pub fn list(&self, entries: &Vec<Result<(String, KeyRecord), Error>>) -> (r: Result<
        Vec<KeyInfo>,
        Error,
    >)
        ensures
            match listing::entry_infos(listing::entries_view(entries@), entries@.len() as int) {
                Err(error) => r matches Err(told) && told@ == error,
                Ok(infos) => r matches Ok(keys) && listing::is_sorting(
                    infos,
                    listing::keys_view(keys@),
                ),
            },
    {
        match listing::collect_keys(entries) {
            Err(error) => Err(error),
            Ok(keys) => Ok(listing::sort_by_id(&keys)),
        }
    }

    /// The name of the record file to delete for a key.
    pub fn delete(&self, id: &str, present: bool) -> (r: Result<String, Error>)
        ensures
            error::result_view(r) == deletion(id@, present),
    {
        if let Err(error) = validate_identifier("wallet_id", id) {
            return Err(error);
        }
        if !present {
            return Err(Error::KeyNotFound(id.to_owned()));
        }
        Ok(key_file_name(id))
    }

    fn decrypt_record(&self, record: &KeyRecord) -> (r: Result<SecretBytes, Error>)
        ensures
            error::result_view(r) == record::opened_key(self.data_key(), record@),
    {
        let nonce = match decode_nonce(record.nonce_b64.as_str()) {
            Ok(nonce) => nonce,
            Err(error) => return Err(error),
        };
        let ciphertext = match decode_base64("ciphertext", record.ciphertext_b64.as_str()) {
            Ok(ciphertext) => ciphertext,
            Err(error) => return Err(error),
        };
        let aad = record_aad(&record.info());
        match decrypt(&self.data_key, &nonce, ciphertext.as_slice(), aad.as_str().as_bytes()) {
            Ok(plaintext) => unwrap_key(record, Some(plaintext)),
            Err(_) => unwrap_key(record, None),
        }
    }

    /// Decrypts one key from what looking up its record gave, signs a digest, and returns the
    /// key's public side with the signature, which leads back to the key's address.
    pub fn sign_digest(
        &self,
        id: &str,
        stored: Result<Option<KeyRecord>, Error>,
        digest: &[u8],
    ) -> (r: Result<(KeyInfo, [u8; 65]), Error>)
        ensures
            error::result_view(r) == stored_signature(
                self.data_key(),
                id@,
                record::stored_view(stored),
                digest@,
            ),
            r matches Ok((key, signature)) ==> crypto::recovered_address(digest@, signature@)
                == Some(key@.address),
    {
        if let Err(error) = validate_identifier("wallet_id", id) {
            return Err(error);
        }
        let record = match read_record(id, stored) {
            Ok(record) => record,
            Err(error) => return Err(error),
        };
        let mut private_key = match self.decrypt_record(&record) {
            Ok(private_key) => private_key,
            Err(error) => return Err(error),
        };
        let signature = crypto::sign_digest(private_key.as_slice(), digest);
        private_key.wipe();
        match signature {
            Ok(signature) => Ok((record.info(), signature)),
            Err(error) => Err(error),
        }
    }

    /// Puts the data key into a new envelope under a replacement master key, from what reading
    /// both master-key files and the envelope gave: the envelope to write. The data key, and so
    /// every record, stays as it is.
    pub fn rotate_master_key(
        &self,
        current: Result<&str, Error>,
        stored: Result<StoreMetadata, Error>,
        replacement: Result<&str, Error>,
    ) -> (r: Result<StoreMetadata, Error>)
        ensures
            match rotation_check(
                self.data_key(),
                envelope::master_key_bytes(error::result_view(current)),
                error::result_view(stored),
                envelope::master_key_bytes(error::result_view(replacement)),
            ) {
                Err(error) => r matches Err(told) && told@ == error,
                Ok(replacement) => r matches Ok(metadata) && envelope::is_envelope(
                    metadata@,
                    self.data_key(),
                    replacement,
                ),
            },
    {
        let current = match read_master_key(current) {
            Ok(current) => current,
            Err(error) => return Err(error),
        };
        let metadata = match stored {
            Ok(metadata) => metadata,
            Err(error) => return Err(error),
        };
        let stored_data_key = match decrypt_data_key(&metadata, &current) {
            Ok(stored_data_key) => stored_data_key,
            Err(error) => return Err(error),
        };
        if !text::same_bytes(
            stored_data_key.as_array().as_slice(),
            self.data_key.as_array().as_slice(),
        ) {
            return Err(
                Error::InvalidMasterKey("current key does not unlock this store".to_owned()),
            );
        }
        let replacement = match read_master_key(replacement) {
            Ok(replacement) => replacement,
            Err(error) => return Err(error),
        };
        encrypt_data_key(&self.data_key, &replacement)
    }
}

/// A store opens again with its master key: where opening an empty store gave a data key and an
/// envelope, opening it with that envelope gives the same data key, and nothing to write.
pub proof fn lemma_store_reopens(
    master_key: Seq<u8>,
    data_key: Seq<u8>,
    metadata: StoreMetadataView,
    again: Result<(Seq<u8>, Option<StoreMetadataView>), ErrorView>,
)
    requires
        store_opens(Ok(master_key), Ok(None), Ok((data_key, Some(metadata)))),
        store_opens(Ok(master_key), Ok(Some(metadata)), again),
    ensures
        again == Ok::<(Seq<u8>, Option<StoreMetadataView>), ErrorView>((data_key, None)),
{
}

/// Replacing the master key changes the envelope and nothing else: a store opens with the
/// replacement to the data key that it had before, so every record opens as it did.
pub proof fn lemma_rotation_keeps_data_key(
    data_key: Seq<u8>,
    current: Result<Seq<u8>, ErrorView>,
    stored: Result<StoreMetadataView, ErrorView>,
    replacement: Seq<u8>,
    rotated: StoreMetadataView,
    again: Result<(Seq<u8>, Option<StoreMetadataView>), ErrorView>,
)
    requires
        rotation_check(data_key, current, stored, Ok(replacement)) == Ok::<Seq<u8>, ErrorView>(
            replacement,
        ),
        envelope::is_envelope(rotated, data_key, replacement),
        store_opens(Ok(replacement), Ok(Some(rotated)), again),
    ensures
        again == Ok::<(Seq<u8>, Option<StoreMetadataView>), ErrorView>((data_key, None)),
        stored matches Ok(before) && current matches Ok(key) && store_opens(
            Ok(key),
            Ok(Some(before)),
            again,
        ),
{
}

/// A store does not open with another master key: where the cipher does not open the envelope under
/// it, opening is refused with an invalid master key and gives nothing to write, and the store
/// opens with its own master key as before.
pub proof fn lemma_other_master_key_does_not_open(
    data_key: Seq<u8>,
    master_key: Seq<u8>,
    metadata: StoreMetadataView,
    other: Seq<u8>,
    refused: Result<(Seq<u8>, Option<StoreMetadataView>), ErrorView>,
    again: Result<(Seq<u8>, Option<StoreMetadataView>), ErrorView>,
)
    requires
        envelope::is_envelope(metadata, data_key, master_key),
        !envelope::unlocks(metadata, other),
        store_opens(Ok(other), Ok(Some(metadata)), refused),
        store_opens(Ok(master_key), Ok(Some(metadata)), again),
    ensures
        refused == Err::<(Seq<u8>, Option<StoreMetadataView>), ErrorView>(
            envelope::does_not_unlock(),
        ),
        again == Ok::<(Seq<u8>, Option<StoreMetadataView>), ErrorView>((data_key, None)),
{
    envelope::lemma_other_master_key_is_refused(metadata, data_key, master_key, other);
}

/// After the master key was replaced the store does not open with the one before, where the cipher
/// does not open the new envelope under it, and opens with the replacement to the data key that it
/// had.
pub proof fn lemma_replaced_master_key_does_not_open(
    data_key: Seq<u8>,
    current: Seq<u8>,
    stored: StoreMetadataView,
    replacement: Seq<u8>,
    rotated: StoreMetadataView,
    refused: Result<(Seq<u8>, Option<StoreMetadataView>), ErrorView>,
    again: Result<(Seq<u8>, Option<StoreMetadataView>), ErrorView>,
)
    requires
        rotation_check(data_key, Ok(current), Ok(stored), Ok(replacement)) == Ok::<
            Seq<u8>,
            ErrorView,
        >(replacement),
        envelope::is_envelope(rotated, data_key, replacement),
        !envelope::unlocks(rotated, current),
        store_opens(Ok(current), Ok(Some(rotated)), refused),
        store_opens(Ok(replacement), Ok(Some(rotated)), again),
    ensures
        refused == Err::<(Seq<u8>, Option<StoreMetadataView>), ErrorView>(
            envelope::does_not_unlock(),
        ),
        again == Ok::<(Seq<u8>, Option<StoreMetadataView>), ErrorView>((data_key, None)),
{
    envelope::lemma_other_master_key_is_refused(rotated, data_key, replacement, current);
}

/// Replacing the master key takes the current one and a usable replacement: where the file of the
/// current key is bad, where the cipher does not open the envelope under the current key, or where
/// it does and the file of the replacement is bad, the replacement is refused with an invalid
/// master key, so that there is nothing to write and the store opens as before.
pub proof fn lemma_rotation_needs_both_master_keys(
    data_key: Seq<u8>,
    master_key: Seq<u8>,
    metadata: StoreMetadataView,
    current: Result<Seq<char>, ErrorView>,
    replacement: Result<Seq<char>, ErrorView>,
    again: Result<(Seq<u8>, Option<StoreMetadataView>), ErrorView>,
)
    requires
        envelope::is_envelope(metadata, data_key, master_key),
        match envelope::master_key_bytes(current) {
            Err(_) => true,
            Ok(key) => !envelope::unlocks(metadata, key) || (envelope::opened_data_key(
                metadata,
                key,
            ) is Ok && envelope::master_key_bytes(replacement) is Err),
        },
        store_opens(Ok(master_key), Ok(Some(metadata)), again),
    ensures
        rotation_check(
            data_key,
            envelope::master_key_bytes(current),
            Ok(metadata),
            envelope::master_key_bytes(replacement),
        ) matches Err(error) && error is InvalidMasterKey,
        again == Ok::<(Seq<u8>, Option<StoreMetadataView>), ErrorView>((data_key, None)),
{
    match envelope::master_key_bytes(current) {
        Err(_) => {
            envelope::lemma_bad_master_key_file_is_refused(current);
        },
        Ok(key) => {
            if !envelope::unlocks(metadata, key) {
                envelope::lemma_other_master_key_is_refused(metadata, data_key, master_key, key);
            } else {
                envelope::lemma_bad_master_key_file_is_refused(replacement);
            }
        },
    }
}

/// What was added is found: looking up a key that was added gives its public side, the list has
/// it, and signing with it signs with the private key that was added.
pub proof fn lemma_inserted_key_is_found(
    data_key: Seq<u8>,
    id: Seq<char>,
    private_key: Seq<u8>,
    created_at: i64,
    info: KeyInfoView,
    record: KeyRecordView,
    digest: Seq<u8>,
)
    requires
        insertion_check(id, private_key, false) is Ok,
        key_inserted(
            insertion_check(id, private_key, false),
            data_key,
            id,
            private_key,
            created_at,
            Ok((info, record)),
        ),
    ensures
        key_lookup(id, Ok(Some(record))) == Ok::<KeyRecordView, ErrorView>(record),
        record::record_info(record) == info,
        listing::entry_info(Ok((record::record_file_name(id), record))) == Ok::<
            KeyInfoView,
            ErrorView,
        >(info),
        stored_signature(data_key, id, Ok(Some(record)), digest) == match crypto::digest_signature(
            private_key,
            digest,
        ) {
            Ok(signature) => Ok((info, signature)),
            Err(error) => Err(error),
        },
{
}

/// A record is tied to its ID: under any other ID it is refused.
pub proof fn lemma_record_is_tied_to_id(
    data_key: Seq<u8>,
    id: Seq<char>,
    record: KeyRecordView,
    digest: Seq<u8>,
)
    requires
        record.id != id,
    ensures
        key_lookup(id, Ok(Some(record))) is Err,
        stored_signature(data_key, id, Ok(Some(record)), digest) is Err,
{
}

} // verus!
