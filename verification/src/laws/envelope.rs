//! Laws on the master key and on the envelope of the data key.

use vstd::prelude::*;
use vstd::string::*;
use vstd::utf8;

use crate::encoding;
use crate::envelope;
use crate::envelope::{
    decrypt_data_key, generate_master_key_file, master_key_file, read_master_key, seal_data_key,
    unwrap_data_key, StoreMetadata,
};
use crate::error;
use crate::error::{Error, ErrorView};
use crate::laws::crypto as crypto_laws;
use crate::laws::store as store_laws;
use crate::laws::text as text_laws;
use crate::primitives;
use crate::record::{unwrap_key, KeyRecord};
use crate::secret::{SecretBytes, SecretKey};
use crate::store;
use crate::store::EncryptedFileStore;
use crate::text;

verus! {

/// Whether contents are those of a master key's file: white space, `wallet-master-key-v1:`, the key
/// in Base64, and white space.
pub open spec fn holds_master_key(contents: Seq<char>, key: Seq<u8>) -> bool {
    key.len() == 32 && exists|before: Seq<char>, behind: Seq<char>|
        text_laws::all_white(before) && text_laws::all_white(behind) && contents
            == #[trigger] (before + ("wallet-master-key-v1:"@ + encoding::base64_text(key))
            + behind)
}

/// The key that encrypts the data key: derived from the master key with the salt of the envelope.
pub open spec fn wrapping_key(master_key: Seq<u8>, salt: Seq<u8>) -> Seq<u8> {
    primitives::hkdf_sha256_key(salt, master_key, utf8::encode_utf8("agent-wallet/kek/v1"@))
}

/// Whether an envelope holds a data key under a master key: its format, a salt, a nonce, and the data
/// key encrypted with them.
pub open spec fn wraps(
    kept: StoreMetadata,
    data_key: Seq<u8>,
    master_key: Seq<u8>,
    salt: Seq<u8>,
    nonce: Seq<u8>,
) -> bool {
    &&& kept.version == 1
    &&& kept.kdf@ == "hkdf-sha256"@
    &&& kept.aead@ == "xchacha20poly1305"@
    &&& salt.len() == 32
    &&& nonce.len() == 24
    &&& kept.salt_b64@ == encoding::base64_text(salt)
    &&& kept.nonce_b64@ == encoding::base64_text(nonce)
    &&& kept.encrypted_data_key_b64@ == encoding::base64_text(
        primitives::xchacha20poly1305_seal(
            wrapping_key(master_key, salt),
            nonce,
            data_key,
            utf8::encode_utf8("agent-wallet/store-metadata/v1"@),
        ),
    )
}

/// Whether a data key comes out of an envelope with a master key: the format is known, and the cipher
/// opens the envelope to it.
pub open spec fn unwraps(kept: StoreMetadata, master_key: Seq<u8>, data_key: Seq<u8>) -> bool {
    &&& kept.version == 1
    &&& kept.kdf@ == "hkdf-sha256"@
    &&& kept.aead@ == "xchacha20poly1305"@
    &&& data_key.len() == 32
    &&& exists|salt: Seq<u8>, nonce: Seq<u8>, ciphertext: Seq<u8>|
        {
            &&& nonce.len() == 24
            &&& #[trigger] encoding::base64_text(salt) == kept.salt_b64@
            &&& #[trigger] encoding::base64_text(nonce) == kept.nonce_b64@
            &&& #[trigger] encoding::base64_text(ciphertext) == kept.encrypted_data_key_b64@
            &&& ciphertext.len() <= 64 * 0xffff_fffe + 16
            &&& primitives::xchacha20poly1305_open(
                wrapping_key(master_key, salt),
                nonce,
                ciphertext,
                utf8::encode_utf8("agent-wallet/store-metadata/v1"@),
            ) == Some(data_key)
        }
}

/// Whether a failure is of the master key, with a message.
pub open spec fn blames_master_key(error: Error, told: Seq<char>) -> bool {
    error matches Error::InvalidMasterKey(message) && message@ == told
}

proof fn lemma_holds_master_key(contents: Seq<char>, key: Seq<u8>)
    ensures
        (envelope::master_key_bytes(Ok(contents)) == Ok::<Seq<u8>, ErrorView>(key))
            == holds_master_key(contents, key),
{
    reveal_strlit("wallet-master-key-v1:");
    let prefix = "wallet-master-key-v1:"@;
    if envelope::master_key_bytes(Ok(contents)) == Ok::<Seq<u8>, ErrorView>(key) {
        let (before, behind) = text_laws::lemma_trimmed_parts(contents);
        let core = text::trimmed(contents);
        let encoded = core.skip(prefix.len() as int);
        assert(core =~= prefix + encoded);
        encoding::lemma_base64_bytes(encoded);
        assert(encoding::base64_text(key) == encoded);
        assert(contents == before + (prefix + encoding::base64_text(key)) + behind);
    }
    if holds_master_key(contents, key) {
        let (before, behind) = choose|before: Seq<char>, behind: Seq<char>|
            text_laws::all_white(before) && text_laws::all_white(behind) && contents
                == #[trigger] (before + (prefix + encoding::base64_text(key)) + behind);
        let encoded = encoding::base64_text(key);
        let core = prefix + encoded;
        assert(core[0] == 'w');
        assert(encoded.len() == 44);
        assert(encoded[43] == '=');
        assert(core.last() == encoded[43]);
        text_laws::lemma_trimmed_core(before, core, behind);
        text::lemma_without_prefix_concat(prefix, encoded);
        encoding::lemma_base64_round_trip(key);
    }
}

/// A master key is read exactly from a file that holds it. A file that could not be read, or that
/// holds anything else, is told as a bad master key.
pub proof fn law_read_master_key(
    source: Result<&str, Error>,
    key: Seq<u8>,
    message: String,
    r: Result<SecretKey, Error>,
)
    requires
        call_ensures(read_master_key, (source,), r),
    ensures
        source matches Ok(contents) ==> (r is Ok && r->Ok_0@ == key) == holds_master_key(
            contents@,
            key,
        ),
        source matches Err(error) ==> r is Err && r->Err_0 is InvalidMasterKey,
        source matches Err(error) ==> (call_ensures(Error::message, (&error,), message)
            ==> blames_master_key(r->Err_0, message@)),
        r is Err ==> r->Err_0 is InvalidMasterKey,
{
    if let Ok(contents) = source {
        lemma_holds_master_key(contents@, key);
        if r is Ok {
            assert(error::result_view(r) == Ok::<Seq<u8>, ErrorView>(r->Ok_0@));
        }
    }
}

/// What is told of a master-key file's contents is what is missing first: the text before the key,
/// then its Base64, then its length.
pub proof fn law_master_key_refusals(
    contents: &str,
    before: Seq<char>,
    core: Seq<char>,
    behind: Seq<char>,
    data: Seq<u8>,
    r: Result<SecretKey, Error>,
)
    requires
        call_ensures(read_master_key, (Ok(contents),), r),
        contents@ == before + core + behind,
        text_laws::all_white(before),
        text_laws::all_white(behind),
        text_laws::bare(core),
    ensures
        !("wallet-master-key-v1:"@).is_prefix_of(core) ==> r is Err && blames_master_key(
            r->Err_0,
            "expected wallet-master-key-v1:<base64>"@,
        ),
        core == "wallet-master-key-v1:"@ + encoding::base64_text(data) && data.len() != 32 ==> r
            is Err && blames_master_key(r->Err_0, "master key must decode to 32 bytes"@),
        ("wallet-master-key-v1:"@).is_prefix_of(core) && (forall|any: Seq<u8>|
            core != "wallet-master-key-v1:"@ + #[trigger] encoding::base64_text(any)) ==> r is Err
            && blames_master_key(r->Err_0, "master key is not valid base64"@),
{
    let prefix = "wallet-master-key-v1:"@;
    text_laws::lemma_trimmed_core(before, core, behind);
    if prefix.is_prefix_of(core) {
        let encoded = core.skip(prefix.len() as int);
        assert(core =~= prefix + encoded);
        encoding::lemma_base64_bytes(encoded);
        if core == prefix + encoding::base64_text(data) {
            text::lemma_without_prefix_concat(prefix, encoding::base64_text(data));
            encoding::lemma_base64_round_trip(data);
        }
        if encoding::base64_bytes(encoded) is Some {
            let any = encoding::base64_bytes(encoded)->0;
            assert(encoding::base64_text(any) == encoded);
            assert(core == prefix + encoding::base64_text(any));
        }
    }
    if core == prefix + encoding::base64_text(data) {
        text::lemma_without_prefix_concat(prefix, encoding::base64_text(data));
    }
}

/// A master key's file holds it, and so does a new file hold some key.
pub proof fn law_master_key_files(key: &SecretKey, written: String, generated: String)
    requires
        key@.len() == 32,
        call_ensures(master_key_file, (key,), written),
        call_ensures(generate_master_key_file, (), generated),
    ensures
        written@ == "wallet-master-key-v1:"@ + encoding::base64_text(key@) + seq!['\n'],
        holds_master_key(written@, key@),
        exists|made: Seq<u8>| #[trigger] holds_master_key(generated@, made),
{
    reveal_strlit("\n");
    assert("\n"@ =~= seq!['\n']);
    lemma_file(written@, key@);
    let made = choose|made: Seq<u8>|
        made.len() == 32 && generated@ == #[trigger] envelope::master_key_text(made);
    lemma_file(generated@, made);
}

proof fn lemma_file(contents: Seq<char>, key: Seq<u8>)
    requires
        key.len() == 32,
        contents == "wallet-master-key-v1:"@ + encoding::base64_text(key) + "\n"@,
    ensures
        holds_master_key(contents, key),
{
    reveal_strlit("\n");
    let before = Seq::<char>::empty();
    assert(text_laws::all_white("\n"@));
    assert(contents =~= before + ("wallet-master-key-v1:"@ + encoding::base64_text(key)) + "\n"@);
}

proof fn lemma_unwraps(kept: StoreMetadata, master_key: Seq<u8>, data_key: Seq<u8>)
    ensures
        (envelope::opened_data_key(kept@, master_key) == Ok::<Seq<u8>, ErrorView>(data_key))
            == unwraps(kept, master_key, data_key),
{
    encoding::lemma_base64_bytes(kept.salt_b64@);
    encoding::lemma_base64_bytes(kept.nonce_b64@);
    encoding::lemma_base64_bytes(kept.encrypted_data_key_b64@);
    if envelope::opened_data_key(kept@, master_key) == Ok::<Seq<u8>, ErrorView>(data_key) {
        let salt = encoding::base64_bytes(kept.salt_b64@)->0;
        let nonce = encoding::base64_bytes(kept.nonce_b64@)->0;
        let ciphertext = encoding::base64_bytes(kept.encrypted_data_key_b64@)->0;
        assert(encoding::base64_text(salt) == kept.salt_b64@);
        assert(encoding::base64_text(nonce) == kept.nonce_b64@);
        assert(encoding::base64_text(ciphertext) == kept.encrypted_data_key_b64@);
    }
    if unwraps(kept, master_key, data_key) {
        let (salt, nonce, ciphertext) = choose|
            salt: Seq<u8>,
            nonce: Seq<u8>,
            ciphertext: Seq<u8>,
        |
            {
                &&& nonce.len() == 24
                &&& #[trigger] encoding::base64_text(salt) == kept.salt_b64@
                &&& #[trigger] encoding::base64_text(nonce) == kept.nonce_b64@
                &&& #[trigger] encoding::base64_text(ciphertext) == kept.encrypted_data_key_b64@
                &&& ciphertext.len() <= 64 * 0xffff_fffe + 16
                &&& primitives::xchacha20poly1305_open(
                    wrapping_key(master_key, salt),
                    nonce,
                    ciphertext,
                    utf8::encode_utf8("agent-wallet/store-metadata/v1"@),
                ) == Some(data_key)
            };
        assert(encoding::base64_bytes(kept.salt_b64@) == Some(salt));
        assert(encoding::base64_bytes(kept.nonce_b64@) == Some(nonce));
        assert(encoding::base64_bytes(kept.encrypted_data_key_b64@) == Some(ciphertext));
    }
}

proof fn lemma_wraps(
    kept: StoreMetadata,
    data_key: Seq<u8>,
    master_key: Seq<u8>,
    salt: Seq<u8>,
    nonce: Seq<u8>,
)
    requires
        salt.len() == 32,
        nonce.len() == 24,
        kept@ == envelope::sealed_data_key(data_key, master_key, salt, nonce),
    ensures
        wraps(kept, data_key, master_key, salt, nonce),
{
}

/// A data key goes into an envelope under a master key, with the salt and the nonce given, and comes
/// out with that master key.
pub proof fn law_seal_data_key(
    data_key: &SecretKey,
    master_key: &SecretKey,
    salt: &[u8; 32],
    nonce: &[u8; 24],
    r: Result<StoreMetadata, Error>,
)
    requires
        call_ensures(seal_data_key, (data_key, master_key, salt, nonce), r),
    ensures
        r is Ok,
        wraps(r->Ok_0, data_key@, master_key@, salt@, nonce@),
        unwraps(r->Ok_0, master_key@, data_key@),
{
    lemma_wraps(r->Ok_0, data_key@, master_key@, salt@, nonce@);
    lemma_unwraps(r->Ok_0, master_key@, data_key@);
}

/// A data key is taken exactly from an envelope that it comes out of with the master key. Of a known
/// format whose fields can be read, and that the cipher does not open, the master key is blamed.
pub proof fn law_decrypt_data_key(
    kept: &StoreMetadata,
    master_key: &SecretKey,
    data_key: Seq<u8>,
    salt: Seq<u8>,
    nonce: Seq<u8>,
    ciphertext: Seq<u8>,
    r: Result<SecretKey, Error>,
)
    requires
        call_ensures(decrypt_data_key, (kept, master_key), r),
    ensures
        (r is Ok && r->Ok_0@ == data_key) == unwraps(*kept, master_key@, data_key),
        !(kept.version == 1 && kept.kdf@ == "hkdf-sha256"@ && kept.aead@ == "xchacha20poly1305"@)
            ==> (r matches Err(Error::Crypto(message)) && message@
            == "unsupported wallet store format"@),
        kept.version == 1 && kept.kdf@ == "hkdf-sha256"@ && kept.aead@ == "xchacha20poly1305"@
            && kept.salt_b64@ == encoding::base64_text(salt) && kept.nonce_b64@
            == encoding::base64_text(nonce) && nonce.len() == 24 && kept.encrypted_data_key_b64@
            == encoding::base64_text(ciphertext) && ciphertext.len() <= 64 * 0xffff_fffe + 16
            && primitives::xchacha20poly1305_open(
            wrapping_key(master_key@, salt),
            nonce,
            ciphertext,
            utf8::encode_utf8("agent-wallet/store-metadata/v1"@),
        ) is None ==> r is Err && blames_master_key(
            r->Err_0,
            "master key does not unlock the wallet store"@,
        ),
{
    lemma_unwraps(*kept, master_key@, data_key);
    encoding::lemma_base64_round_trip(salt);
    encoding::lemma_base64_round_trip(nonce);
    encoding::lemma_base64_round_trip(ciphertext);
    if r is Ok {
        assert(error::result_view(r) == Ok::<Seq<u8>, ErrorView>(r->Ok_0@));
    }
}

/// What the cipher gave is taken over: a data key where it has 32 bytes, and a private key where it
/// is one and the record's.
pub proof fn law_unwrapping(
    plaintext: Option<SecretBytes>,
    data_key: Result<SecretKey, Error>,
    kept: &KeyRecord,
    key: Result<SecretBytes, Error>,
)
    requires
        call_ensures(unwrap_data_key, (plaintext,), data_key),
        call_ensures(unwrap_key, (kept, plaintext), key),
    ensures
        plaintext is None ==> {
            &&& data_key is Err && blames_master_key(
                data_key->Err_0,
                "master key does not unlock the wallet store"@,
            )
            &&& key is Err && key->Err_0@ == ErrorView::Crypto(
                "authentication or decryption failed"@,
            )
        },
        plaintext matches Some(bytes) ==> {
            &&& bytes@.len() == 32 ==> data_key is Ok && data_key->Ok_0@ == bytes@
            &&& bytes@.len() != 32 ==> data_key is Err && data_key->Err_0@ == ErrorView::Crypto(
                "decrypted data key has an invalid length"@,
            )
            &&& !crypto_laws::usable(bytes@) ==> key is Err && crypto_laws::tells_bad_key(
                key->Err_0,
                bytes@,
            )
            &&& crypto_laws::usable(bytes@) ==> if kept.address@ == crypto_laws::address_of(bytes@)
                && kept.public_key@ == crypto_laws::public_key_of(bytes@) {
                key is Ok && key->Ok_0@ == bytes@
            } else {
                key is Err && key->Err_0@ == ErrorView::Crypto(
                    "wallet record identity does not match its private key"@,
                )
            }
        },
{
    if let Some(bytes) = plaintext {
        assert(text::option_view(plaintext) == Some(bytes@));
        if data_key is Ok {
            assert(error::result_view(data_key) == Ok::<Seq<u8>, ErrorView>(data_key->Ok_0@));
        }
        if key is Ok {
            assert(error::result_view(key) == Ok::<Seq<u8>, ErrorView>(key->Ok_0@));
        }
    }
}

/// A new store has the data key given, and its envelope holds that key under the master key.
pub proof fn law_initialize(
    master_key: &SecretKey,
    data_key: SecretKey,
    salt: &[u8; 32],
    nonce: &[u8; 24],
    r: Result<(EncryptedFileStore, StoreMetadata), Error>,
)
    requires
        call_ensures(EncryptedFileStore::initialize, (master_key, data_key, salt, nonce), r),
    ensures
        r is Ok,
        r->Ok_0.0.data_key() == data_key@,
        wraps(r->Ok_0.1, data_key@, master_key@, salt@, nonce@),
        unwraps(r->Ok_0.1, master_key@, data_key@),
{
    lemma_wraps(r->Ok_0.1, data_key@, master_key@, salt@, nonce@);
    lemma_unwraps(r->Ok_0.1, master_key@, data_key@);
}

/// A store with an envelope opens exactly to the data key that comes out of it with the master key of
/// the file, and there is nothing to write. A store without one gets some data key of 32 bytes, and
/// the envelope to write holds it.
pub proof fn law_open(
    source: Result<&str, Error>,
    stored: Result<Option<StoreMetadata>, Error>,
    master_key: Seq<u8>,
    data_key: Seq<u8>,
    r: Result<(EncryptedFileStore, Option<StoreMetadata>), Error>,
)
    requires
        call_ensures(EncryptedFileStore::open, (source, stored), r),
    ensures
        source is Err || (forall|key: Seq<u8>| !#[trigger] holds_master_key(source->Ok_0@, key))
            ==> r is Err && r->Err_0 is InvalidMasterKey,
        source is Ok && holds_master_key(source->Ok_0@, master_key) ==> match stored {
            Err(error) => r is Err && r->Err_0@ == error@,
            Ok(Some(kept)) => {
                &&& (r is Ok && r->Ok_0.0.data_key() == data_key) == unwraps(
                    kept,
                    master_key,
                    data_key,
                )
                &&& r is Ok ==> r->Ok_0.1 is None
            },
            Ok(None) => {
                &&& r is Ok
                &&& r->Ok_0.0.data_key().len() == 32
                &&& r->Ok_0.1 is Some
                &&& unwraps(r->Ok_0.1->0, master_key, r->Ok_0.0.data_key())
                &&& exists|salt: Seq<u8>, nonce: Seq<u8>| #[trigger]
                    wraps(r->Ok_0.1->0, r->Ok_0.0.data_key(), master_key, salt, nonce)
            },
        },
{
    match source {
        Err(_) => {},
        Ok(contents) => {
            lemma_holds_master_key(contents@, master_key);
            if envelope::master_key_bytes(Ok(contents@)) is Ok {
                let key = envelope::master_key_bytes(Ok(contents@))->Ok_0;
                lemma_holds_master_key(contents@, key);
            }
            if holds_master_key(contents@, master_key) {
                match stored {
                    Err(_) => {},
                    Ok(Some(kept)) => {
                        assert(text::option_view(Some(kept)) == Some(kept@));
                        lemma_unwraps(kept, master_key, data_key);
                        if r is Ok {
                            let (opened, written) = r->Ok_0;
                            assert(store::opening_view(r) == Ok::<
                                (Seq<u8>, Option<envelope::StoreMetadataView>),
                                ErrorView,
                            >((opened.data_key(), text::option_view(written))));
                        }
                    },
                    Ok(None) => {
                        let (opened, written) = r->Ok_0;
                        assert(text::option_view(None::<StoreMetadata>) is None);
                        assert(r is Ok);
                        assert(written is Some);
                        let kept = written->0;
                        assert(text::option_view(written) == Some(kept@));
                        lemma_unwraps(kept, master_key, opened.data_key());
                        lemma_is_envelope(kept, opened.data_key(), master_key);
                    },
                }
            }
        },
    }
}

proof fn lemma_is_envelope(kept: StoreMetadata, data_key: Seq<u8>, master_key: Seq<u8>)
    requires
        envelope::is_envelope(kept@, data_key, master_key),
    ensures
        unwraps(kept, master_key, data_key),
        exists|salt: Seq<u8>, nonce: Seq<u8>| #[trigger]
            wraps(kept, data_key, master_key, salt, nonce),
{
    let (salt, nonce) = choose|salt: Seq<u8>, nonce: Seq<u8>|
        salt.len() == 32 && nonce.len() == 24 && kept@ == #[trigger] envelope::sealed_data_key(
            data_key,
            master_key,
            salt,
            nonce,
        );
    lemma_wraps(kept, data_key, master_key, salt, nonce);
    lemma_unwraps(kept, master_key, data_key);
}

/// The master key is replaced exactly where the current file holds a master key with which the
/// store's own data key comes out of the envelope, and the other file holds one too. The new
/// envelope holds the same data key under the replacement.
pub proof fn law_rotate_master_key(
    s: &EncryptedFileStore,
    current: &str,
    kept: StoreMetadata,
    replacement: &str,
    r: Result<StoreMetadata, Error>,
)
    requires
        call_ensures(EncryptedFileStore::rotate_master_key, (s, Ok(current), Ok(kept), Ok(
            replacement,
        )), r),
    ensures
        r is Ok == (exists|old_key: Seq<u8>, new_key: Seq<u8>| #[trigger]
            holds_master_key(current@, old_key) && #[trigger] holds_master_key(
                replacement@,
                new_key,
            ) && unwraps(kept, old_key, s.data_key())),
        r is Ok ==> exists|new_key: Seq<u8>| #[trigger]
            holds_master_key(replacement@, new_key) && unwraps(r->Ok_0, new_key, s.data_key())
                && exists|salt: Seq<u8>, nonce: Seq<u8>| #[trigger]
                wraps(r->Ok_0, s.data_key(), new_key, salt, nonce),
{
    let old_bytes = envelope::master_key_bytes(Ok(current@));
    let new_bytes = envelope::master_key_bytes(Ok(replacement@));
    if r is Ok {
        let old_key = old_bytes->Ok_0;
        let new_key = new_bytes->Ok_0;
        lemma_holds_master_key(current@, old_key);
        lemma_holds_master_key(replacement@, new_key);
        lemma_unwraps(kept, old_key, s.data_key());
        lemma_is_envelope(r->Ok_0, s.data_key(), new_key);
        assert(holds_master_key(current@, old_key));
        assert(holds_master_key(replacement@, new_key));
    }
    if exists|old_key: Seq<u8>, new_key: Seq<u8>| #[trigger]
        holds_master_key(current@, old_key) && #[trigger] holds_master_key(replacement@, new_key)
            && unwraps(kept, old_key, s.data_key()) {
        let (old_key, new_key) = choose|old_key: Seq<u8>, new_key: Seq<u8>| #[trigger]
            holds_master_key(current@, old_key) && #[trigger] holds_master_key(
                replacement@,
                new_key,
            ) && unwraps(kept, old_key, s.data_key());
        lemma_holds_master_key(current@, old_key);
        lemma_holds_master_key(replacement@, new_key);
        lemma_unwraps(kept, old_key, s.data_key());
    }
}

/// A master key with which another data key comes out of the envelope does not rotate the store.
/// Whatever could not be read is told, the current key first.
pub proof fn law_rotation_refusals(
    s: &EncryptedFileStore,
    current: Result<&str, Error>,
    stored: Result<StoreMetadata, Error>,
    replacement: Result<&str, Error>,
    old_key: Seq<u8>,
    other: Seq<u8>,
    r: Result<StoreMetadata, Error>,
)
    requires
        call_ensures(
            EncryptedFileStore::rotate_master_key,
            (s, current, stored, replacement),
            r,
        ),
    ensures
        current is Err || (forall|key: Seq<u8>| !#[trigger] holds_master_key(current->Ok_0@, key))
            ==> r is Err && r->Err_0 is InvalidMasterKey,
        current is Ok && holds_master_key(current->Ok_0@, old_key) ==> {
            &&& stored matches Err(error) ==> r is Err && r->Err_0@ == error@
            &&& stored matches Ok(kept) ==> (unwraps(kept, old_key, other) && other != s.data_key()
                ==> r is Err && blames_master_key(
                r->Err_0,
                "current key does not unlock this store"@,
            ))
            &&& stored matches Ok(kept) ==> (unwraps(kept, old_key, s.data_key()) && (replacement
                is Err || (forall|key: Seq<u8>|
                !#[trigger] holds_master_key(replacement->Ok_0@, key))) ==> r is Err && r->Err_0
                is InvalidMasterKey)
        },
{
    if let Ok(contents) = current {
        lemma_holds_master_key(contents@, old_key);
        if envelope::master_key_bytes(Ok(contents@)) is Ok {
            lemma_holds_master_key(contents@, envelope::master_key_bytes(Ok(contents@))->Ok_0);
        }
        if let Ok(kept) = stored {
            lemma_unwraps(kept, old_key, other);
            lemma_unwraps(kept, old_key, s.data_key());
            if let Ok(next) = replacement {
                if envelope::master_key_bytes(Ok(next@)) is Ok {
                    lemma_holds_master_key(next@, envelope::master_key_bytes(Ok(next@))->Ok_0);
                }
            }
        }
    }
}

/// A store opens again: with the envelope that opening it first gave, the same master key gives the
/// same data key, and there is nothing to write.
pub proof fn law_store_reopens(
    source: &str,
    first: Result<(EncryptedFileStore, Option<StoreMetadata>), Error>,
    again: Result<(EncryptedFileStore, Option<StoreMetadata>), Error>,
)
    requires
        call_ensures(EncryptedFileStore::open, (Ok(source), Ok(None)), first),
        first is Ok,
        call_ensures(EncryptedFileStore::open, (Ok(source), Ok(first->Ok_0.1)), again),
    ensures
        again is Ok,
        again->Ok_0.0.data_key() == first->Ok_0.0.data_key(),
        again->Ok_0.1 is None,
{
    let key = envelope::master_key_bytes(Ok(source@))->Ok_0;
    assert(envelope::master_key_bytes(Ok(source@)) is Ok);
    lemma_holds_master_key(source@, key);
    let data_key = first->Ok_0.0.data_key();
    law_open(Ok(source), Ok(None), key, data_key, first);
    law_open(Ok(source), Ok(first->Ok_0.1), key, data_key, again);
}

/// A store opens with the replacement to the data key that it had.
pub proof fn law_rotated_store_opens(
    s: &EncryptedFileStore,
    current: &str,
    kept: StoreMetadata,
    replacement: &str,
    rotated: Result<StoreMetadata, Error>,
    again: Result<(EncryptedFileStore, Option<StoreMetadata>), Error>,
)
    requires
        call_ensures(EncryptedFileStore::rotate_master_key, (s, Ok(current), Ok(kept), Ok(
            replacement,
        )), rotated),
        rotated is Ok,
        call_ensures(EncryptedFileStore::open, (Ok(replacement), Ok(Some(rotated->Ok_0))), again),
    ensures
        again is Ok,
        again->Ok_0.0.data_key() == s.data_key(),
        again->Ok_0.1 is None,
{
    law_rotate_master_key(s, current, kept, replacement, rotated);
    let key = choose|new_key: Seq<u8>| #[trigger]
        holds_master_key(replacement@, new_key) && unwraps(rotated->Ok_0, new_key, s.data_key())
            && exists|salt: Seq<u8>, nonce: Seq<u8>| #[trigger]
            wraps(rotated->Ok_0, s.data_key(), new_key, salt, nonce);
    law_open(Ok(replacement), Ok(Some(rotated->Ok_0)), key, s.data_key(), again);
}

/// What the records' fields must be for a signature: of a record whose nonce or ciphertext cannot be
/// read, or whose ciphertext the cipher does not open, that is told.
pub proof fn law_unreadable_record(
    s: &EncryptedFileStore,
    id: &str,
    kept: KeyRecord,
    digest: &[u8],
    nonce: Seq<u8>,
    ciphertext: Seq<u8>,
    r: Result<(crate::record::KeyInfo, [u8; 65]), Error>,
)
    requires
        call_ensures(EncryptedFileStore::sign_digest, (s, id, Ok(Some(kept)), digest), r),
        store_laws::found(id@, Ok(Some(kept)), kept),
    ensures
        (forall|any: Seq<u8>| #[trigger] encoding::base64_text(any) != kept.nonce_b64@) ==> r is Err
            && r->Err_0@ == ErrorView::Crypto("nonce is not valid base64"@),
        encoding::base64_text(nonce) == kept.nonce_b64@ && nonce.len() != 24 ==> r is Err
            && r->Err_0@ == ErrorView::Crypto("nonce has an invalid length"@),
        encoding::base64_text(nonce) == kept.nonce_b64@ && nonce.len() == 24 ==> {
            &&& (forall|any: Seq<u8>| #[trigger]
                encoding::base64_text(any) != kept.ciphertext_b64@) ==> r is Err && r->Err_0@
                == ErrorView::Crypto("ciphertext is not valid base64"@)
            &&& encoding::base64_text(ciphertext) == kept.ciphertext_b64@ && ciphertext.len() <= 64
                * 0xffff_fffe + 16 && primitives::xchacha20poly1305_open(
                s.data_key(),
                nonce,
                ciphertext,
                store_laws::bound_to(kept.id@, kept.algorithm@, kept.address@, kept.public_key@),
            ) is None ==> r is Err && r->Err_0@ == ErrorView::Crypto(
                "authentication or decryption failed"@,
            )
        },
{
    store_laws::lemma_lookup(id@, Ok(Some(kept)));
    encoding::lemma_base64_bytes(kept.nonce_b64@);
    encoding::lemma_base64_bytes(kept.ciphertext_b64@);
    encoding::lemma_base64_round_trip(nonce);
    encoding::lemma_base64_round_trip(ciphertext);
    lemma_field_texts();
}

proof fn lemma_field_texts()
    ensures
        "nonce"@ + " is not valid base64"@ == "nonce is not valid base64"@,
        "ciphertext"@ + " is not valid base64"@ == "ciphertext is not valid base64"@,
{
    reveal_strlit("nonce");
    reveal_strlit("ciphertext");
    reveal_strlit(" is not valid base64");
    reveal_strlit("nonce is not valid base64");
    reveal_strlit("ciphertext is not valid base64");
    assert("nonce"@ + " is not valid base64"@ =~= "nonce is not valid base64"@);
    assert("ciphertext"@ + " is not valid base64"@ =~= "ciphertext is not valid base64"@);
}

/// An envelope has the known format and its salt, its nonce and its ciphertext in Base64, and a copy of
/// it has every field of it.
pub proof fn law_envelope(
    salt: &[u8; 32],
    nonce: &[u8; 24],
    ciphertext: &[u8],
    r: StoreMetadata,
    copy: StoreMetadata,
)
    requires
        4 * ((ciphertext@.len() + 2) / 3) <= usize::MAX,
        call_ensures(envelope::envelope, (salt, nonce, ciphertext), r),
        call_ensures(StoreMetadata::clone, (&r,), copy),
    ensures
        r.version == 1,
        r.kdf@ == "hkdf-sha256"@,
        r.aead@ == "xchacha20poly1305"@,
        r.salt_b64@ == encoding::base64_text(salt@),
        r.nonce_b64@ == encoding::base64_text(nonce@),
        r.encrypted_data_key_b64@ == encoding::base64_text(ciphertext@),
        copy.version == r.version,
        copy.kdf@ == r.kdf@,
        copy.aead@ == r.aead@,
        copy.salt_b64@ == r.salt_b64@,
        copy.nonce_b64@ == r.nonce_b64@,
        copy.encrypted_data_key_b64@ == r.encrypted_data_key_b64@,
{
    assert(copy@ == r@);
}

} // verus!
