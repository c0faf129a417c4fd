//! Laws on the key store: what is kept of a key, and what comes out of the store again.

use vstd::prelude::*;
use vstd::string::*;
use vstd::utf8;

use crate::encoding;
use crate::error;
use crate::error::{Error, ErrorView};
use crate::laws::crypto as crypto_laws;
use crate::laws::request;
use crate::laws::text as text_laws;
use crate::primitives;
use crate::record;
use crate::record::{digest_file_name, is_record_file, key_file_name, KeyInfo, KeyRecord};
use crate::store;
use crate::store::EncryptedFileStore;
use crate::text;

verus! {

/// The bytes that the encryption of a private key is bound to: its ID, its algorithm, its address
/// and its public key, each behind a zero.
pub open spec fn bound_to(
    id: Seq<char>,
    algorithm: Seq<char>,
    address: Seq<char>,
    public_key: Seq<char>,
) -> Seq<u8> {
    utf8::encode_utf8(
        "agent-wallet/key/v1\0"@ + id + "\0"@ + algorithm + "\0"@ + address + "\0"@ + public_key,
    )
}

/// Whether the public side of a key names an ID, a private key's identity and a time.
pub open spec fn names_key(info: KeyInfo, id: Seq<char>, key: Seq<u8>, created_at: i64) -> bool {
    &&& info.id@ == id
    &&& info.algorithm@ == "secp256k1"@
    &&& info.address@ == crypto_laws::address_of(key)
    &&& info.public_key@ == crypto_laws::public_key_of(key)
    &&& info.created_at == created_at
}

/// Whether the public side of a key is what its record says.
pub open spec fn same_key(info: KeyInfo, kept: KeyRecord) -> bool {
    &&& info.id@ == kept.id@
    &&& info.algorithm@ == kept.algorithm@
    &&& info.address@ == kept.address@
    &&& info.public_key@ == kept.public_key@
    &&& info.created_at == kept.created_at
}

/// Whether a record keeps a private key: its public side, a nonce, and the key encrypted under the
/// data key with that nonce and bound to the public side.
pub open spec fn keeps(
    kept: KeyRecord,
    data_key: Seq<u8>,
    nonce: Seq<u8>,
    id: Seq<char>,
    key: Seq<u8>,
    created_at: i64,
) -> bool {
    &&& kept.version == 1
    &&& kept.id@ == id
    &&& kept.algorithm@ == "secp256k1"@
    &&& kept.address@ == crypto_laws::address_of(key)
    &&& kept.public_key@ == crypto_laws::public_key_of(key)
    &&& kept.created_at == created_at
    &&& nonce.len() == 24
    &&& kept.nonce_b64@ == encoding::base64_text(nonce)
    &&& kept.ciphertext_b64@ == encoding::base64_text(
        primitives::xchacha20poly1305_seal(
            data_key,
            nonce,
            key,
            bound_to(
                id,
                "secp256k1"@,
                crypto_laws::address_of(key),
                crypto_laws::public_key_of(key),
            ),
        ),
    )
}

/// Whether a private key comes out of a record: the cipher opens the ciphertext with the record's
/// nonce to it, bound to the record's public side, and that is the key's.
pub open spec fn comes_out(kept: KeyRecord, data_key: Seq<u8>, key: Seq<u8>) -> bool {
    &&& crypto_laws::usable(key)
    &&& kept.address@ == crypto_laws::address_of(key)
    &&& kept.public_key@ == crypto_laws::public_key_of(key)
    &&& exists|nonce: Seq<u8>, ciphertext: Seq<u8>|
        {
            &&& nonce.len() == 24
            &&& #[trigger] encoding::base64_text(nonce) == kept.nonce_b64@
            &&& #[trigger] encoding::base64_text(ciphertext) == kept.ciphertext_b64@
            &&& ciphertext.len() <= 64 * 0xffff_fffe + 16
            &&& primitives::xchacha20poly1305_open(
                data_key,
                nonce,
                ciphertext,
                bound_to(kept.id@, kept.algorithm@, kept.address@, kept.public_key@),
            ) == Some(key)
        }
}

/// Whether a failure says that a wallet's ID is no identifier.
pub open spec fn tells_bad_id(error: Error) -> bool {
    error matches Error::InvalidRequest(message) && message@ == "wallet_id is invalid"@
}

/// Whether a key was taken in: its public side, and a record that keeps it and that it comes out of.
pub open spec fn taken_in(
    r: Result<(KeyInfo, KeyRecord), Error>,
    data_key: Seq<u8>,
    id: Seq<char>,
    key: Seq<u8>,
    created_at: i64,
) -> bool {
    r matches Ok((info, kept)) && {
        &&& names_key(info, id, key, created_at)
        &&& exists|nonce: Seq<u8>| #[trigger] keeps(kept, data_key, nonce, id, key, created_at)
        &&& comes_out(kept, data_key, key)
    }
}

proof fn lemma_bad_id()
    ensures
        "wallet_id"@ + " is invalid"@ == "wallet_id is invalid"@,
{
    reveal_strlit("wallet_id");
    reveal_strlit(" is invalid");
    reveal_strlit("wallet_id is invalid");
    assert("wallet_id"@ + " is invalid"@ =~= "wallet_id is invalid"@);
}

pub(crate) proof fn lemma_comes_out(kept: KeyRecord, data_key: Seq<u8>, key: Seq<u8>)
    ensures
        (record::opened_key(data_key, kept@) == Ok::<Seq<u8>, ErrorView>(key)) == comes_out(
            kept,
            data_key,
            key,
        ),
{
    encoding::lemma_base64_bytes(kept.nonce_b64@);
    encoding::lemma_base64_bytes(kept.ciphertext_b64@);
    if record::opened_key(data_key, kept@) == Ok::<Seq<u8>, ErrorView>(key) {
        let nonce = encoding::base64_bytes(kept.nonce_b64@)->0;
        let ciphertext = encoding::base64_bytes(kept.ciphertext_b64@)->0;
        assert(encoding::base64_text(nonce) == kept.nonce_b64@);
        assert(encoding::base64_text(ciphertext) == kept.ciphertext_b64@);
    }
    if comes_out(kept, data_key, key) {
        let (nonce, ciphertext) = choose|nonce: Seq<u8>, ciphertext: Seq<u8>|
            {
                &&& nonce.len() == 24
                &&& #[trigger] encoding::base64_text(nonce) == kept.nonce_b64@
                &&& #[trigger] encoding::base64_text(ciphertext) == kept.ciphertext_b64@
                &&& ciphertext.len() <= 64 * 0xffff_fffe + 16
                &&& primitives::xchacha20poly1305_open(
                    data_key,
                    nonce,
                    ciphertext,
                    bound_to(kept.id@, kept.algorithm@, kept.address@, kept.public_key@),
                ) == Some(key)
            };
        assert(encoding::base64_bytes(kept.nonce_b64@) == Some(nonce));
        assert(encoding::base64_bytes(kept.ciphertext_b64@) == Some(ciphertext));
    }
}

proof fn lemma_keeps(
    kept: KeyRecord,
    data_key: Seq<u8>,
    nonce: Seq<u8>,
    id: Seq<char>,
    key: Seq<u8>,
    created_at: i64,
)
    requires
        nonce.len() == 24,
        kept@ == record::sealed_key(data_key, id, key, created_at, nonce),
    ensures
        keeps(kept, data_key, nonce, id, key, created_at),
{
}

proof fn lemma_taken_in(
    r: Result<(KeyInfo, KeyRecord), Error>,
    data_key: Seq<u8>,
    id: Seq<char>,
    key: Seq<u8>,
    created_at: i64,
)
    requires
        store::key_inserted(Ok(()), data_key, id, key, created_at, error::result_view(r)),
    ensures
        taken_in(r, data_key, id, key, created_at),
{
    assert(r is Ok);
    let (info, kept) = r->Ok_0;
    assert(error::result_view(r) == Ok::<
        (record::KeyInfoView, record::KeyRecordView),
        ErrorView,
    >((info@, kept@)));
    let nonce = choose|nonce: Seq<u8>|
        nonce.len() == 24 && kept@ == #[trigger] record::sealed_key(
            data_key,
            id,
            key,
            created_at,
            nonce,
        );
    lemma_keeps(kept, data_key, nonce, id, key, created_at);
    lemma_comes_out(kept, data_key, key);
}

/// A key is put under an ID exactly where the ID is an identifier, the bytes are a private key and
/// no record is there. The record keeps that very key, under the nonce given, and it comes out
/// again.
pub proof fn law_seal_key(
    s: &EncryptedFileStore,
    id: &str,
    key: &[u8],
    present: bool,
    created_at: i64,
    nonce: &[u8; 24],
    r: Result<(KeyInfo, KeyRecord), Error>,
)
    requires
        call_ensures(EncryptedFileStore::seal_key, (s, id, key, present, created_at, nonce), r),
    ensures
        r is Ok == (request::identifier(id@) && crypto_laws::usable(key@) && !present),
        r is Ok ==> taken_in(r, s.data_key(), id@, key@, created_at),
        r matches Ok((_, kept)) ==> keeps(kept, s.data_key(), nonce@, id@, key@, created_at),
        !request::identifier(id@) ==> r is Err && tells_bad_id(r->Err_0),
        request::identifier(id@) && !crypto_laws::usable(key@) ==> r is Err
            && crypto_laws::tells_bad_key(r->Err_0, key@),
        request::identifier(id@) && crypto_laws::usable(key@) && present ==> (r matches Err(
            Error::KeyExists(told),
        ) && told@ == id@),
{
    lemma_bad_id();
    request::lemma_identifier(id@);
    if store::insertion_check(id@, key@, present) is Ok {
        lemma_taken_in(r, s.data_key(), id@, key@, created_at);
        let (info, kept) = r->Ok_0;
        lemma_keeps(kept, s.data_key(), nonce@, id@, key@, created_at);
    }
}

/// What importing raw bytes comes to: the very key that they are, unless they are no private key,
/// the ID is no identifier or a record is there, each told in this order.
pub open spec fn imports(
    r: Result<(KeyInfo, KeyRecord), Error>,
    data_key: Seq<u8>,
    id: Seq<char>,
    key: Seq<u8>,
    present: bool,
    created_at: i64,
) -> bool {
    if !crypto_laws::usable(key) {
        r is Err && crypto_laws::tells_bad_key(r->Err_0, key)
    } else if !request::identifier(id) {
        r is Err && tells_bad_id(r->Err_0)
    } else if present {
        r matches Err(Error::KeyExists(told)) && told@ == id
    } else {
        taken_in(r, data_key, id, key, created_at)
    }
}

proof fn lemma_imports(
    r: Result<(KeyInfo, KeyRecord), Error>,
    data_key: Seq<u8>,
    id: Seq<char>,
    key: Seq<u8>,
    present: bool,
    created_at: i64,
)
    requires
        store::key_inserted(
            store::import_check(id, key, present),
            data_key,
            id,
            key,
            created_at,
            error::result_view(r),
        ),
    ensures
        imports(r, data_key, id, key, present, created_at),
{
    lemma_bad_id();
    request::lemma_identifier(id);
    if store::import_check(id, key, present) is Ok {
        lemma_taken_in(r, data_key, id, key, created_at);
    }
}

/// Importing raw bytes takes in the key that they are.
pub proof fn law_import(
    s: &EncryptedFileStore,
    id: &str,
    key: &[u8],
    present: bool,
    created_at: i64,
    r: Result<(KeyInfo, KeyRecord), Error>,
)
    requires
        call_ensures(EncryptedFileStore::import, (s, id, key, present, created_at), r),
    ensures
        imports(r, s.data_key(), id@, key@, present, created_at),
{
    lemma_imports(r, s.data_key(), id@, key@, present, created_at);
}

/// Generating takes in some private key, unless the ID is no identifier or a record is there.
pub proof fn law_generate(
    s: &EncryptedFileStore,
    id: &str,
    present: bool,
    created_at: i64,
    r: Result<(KeyInfo, KeyRecord), Error>,
)
    requires
        call_ensures(EncryptedFileStore::generate, (s, id, present, created_at), r),
    ensures
        !request::identifier(id@) ==> r is Err && tells_bad_id(r->Err_0),
        request::identifier(id@) && present ==> (r matches Err(Error::KeyExists(told)) && told@
            == id@),
        request::identifier(id@) && !present ==> exists|key: Seq<u8>|
            crypto_laws::usable(key) && #[trigger] taken_in(
                r,
                s.data_key(),
                id@,
                key,
                created_at,
            ),
{
    lemma_bad_id();
    request::lemma_identifier(id@);
    let key = choose|key: Seq<u8>| #[trigger]
        primitives::is_private_key(key) && store::key_inserted(
            store::insertion_check(id@, key, present),
            s.data_key(),
            id@,
            key,
            created_at,
            error::result_view(r),
        );
    if store::insertion_check(id@, key, present) is Ok {
        lemma_taken_in(r, s.data_key(), id@, key, created_at);
    }
}

proof fn lemma_hex_is_bare(digits: Seq<char>, key: Seq<u8>)
    requires
        encoding::hex_bytes(digits) == Some(key),
    ensures
        text_laws::bare(digits),
        text_laws::bare("0x"@ + digits),
        text::without_prefix(digits, "0x"@) is None,
{
    reveal_strlit("0x");
    let whole = "0x"@ + digits;
    assert(whole[0] == '0');
    assert(whole[1] == 'x');
    if digits.len() > 0 {
        assert(encoding::is_hex_digit(digits[0]));
        assert(encoding::is_hex_digit(digits.last()));
        assert(whole.last() == digits.last());
    } else {
        assert(whole.last() == 'x');
    }
    if "0x"@.is_prefix_of(digits) {
        assert(digits[1] == "0x"@[1]);
        assert(encoding::is_hex_digit(digits[1]));
    }
}

/// A file with a key's hexadecimal text, white space around it and `0x` before it or not, imports
/// that very key.
pub proof fn law_import_file(
    s: &EncryptedFileStore,
    id: &str,
    source: &str,
    present: bool,
    created_at: i64,
    before: Seq<char>,
    digits: Seq<char>,
    behind: Seq<char>,
    key: Seq<u8>,
    r: Result<(KeyInfo, KeyRecord), Error>,
)
    requires
        call_ensures(EncryptedFileStore::import_file, (s, id, Ok(source), present, created_at), r),
        text_laws::all_white(before),
        text_laws::all_white(behind),
        encoding::hex_bytes(digits) == Some(key),
        source@ == before + digits + behind || source@ == before + ("0x"@ + digits) + behind,
    ensures
        imports(r, s.data_key(), id@, key, present, created_at),
{
    lemma_hex_is_bare(digits, key);
    text_laws::lemma_trimmed_core(before, digits, behind);
    text_laws::lemma_trimmed_core(before, "0x"@ + digits, behind);
    text::lemma_without_prefix_concat("0x"@, digits);
    assert(store::private_key_text(source@) == Some(key));
    lemma_imports(r, s.data_key(), id@, key, present, created_at);
}

/// A key's own hexadecimal text, with or without `0x` before it and a line end behind it, imports the
/// key.
pub proof fn law_import_file_round_trip(
    s: &EncryptedFileStore,
    id: &str,
    source: &str,
    created_at: i64,
    key: Seq<u8>,
    r: Result<(KeyInfo, KeyRecord), Error>,
)
    requires
        call_ensures(EncryptedFileStore::import_file, (s, id, Ok(source), false, created_at), r),
        request::identifier(id@),
        crypto_laws::usable(key),
        source@ == encoding::hex_text(key) || source@ == encoding::hex_text(key) + seq!['\n']
            || source@ == "0x"@ + encoding::hex_text(key) || source@ == "0x"@ + encoding::hex_text(
            key,
        ) + seq!['\n'],
    ensures
        taken_in(r, s.data_key(), id@, key, created_at),
{
    let digits = encoding::hex_text(key);
    let none = Seq::<char>::empty();
    let end = seq!['\n'];
    encoding::lemma_hex_round_trip(key);
    if source@ == digits {
        assert(source@ =~= none + digits + none);
        law_import_file(s, id, source, false, created_at, none, digits, none, key, r);
    } else if source@ == digits + end {
        assert(source@ =~= none + digits + end);
        law_import_file(s, id, source, false, created_at, none, digits, end, key, r);
    } else if source@ == "0x"@ + digits {
        assert(source@ =~= none + ("0x"@ + digits) + none);
        law_import_file(s, id, source, false, created_at, none, digits, none, key, r);
    } else {
        assert(source@ =~= none + ("0x"@ + digits) + end);
        law_import_file(s, id, source, false, created_at, none, digits, end, key, r);
    }
}

/// A file that could not be read is told as it is, and one that holds anything but white space, `0x`
/// or not, and hexadecimal digits in pairs is refused.
pub proof fn law_import_file_refusals(
    s: &EncryptedFileStore,
    id: &str,
    source: Result<&str, Error>,
    present: bool,
    created_at: i64,
    r: Result<(KeyInfo, KeyRecord), Error>,
)
    requires
        call_ensures(EncryptedFileStore::import_file, (s, id, source, present, created_at), r),
    ensures
        source matches Err(error) ==> r is Err && r->Err_0@ == error@,
        source matches Ok(contents) ==> {
            ||| r matches Err(Error::InvalidKey(message)) && message@
                == "private key file must contain hex"@
            ||| exists|before: Seq<char>, digits: Seq<char>, behind: Seq<char>|
                {
                    &&& text_laws::all_white(before)
                    &&& text_laws::all_white(behind)
                    &&& encoding::hex_bytes(digits) is Some
                    &&& contents@ == #[trigger] (before + digits + behind) || contents@ == before
                        + ("0x"@ + digits) + behind
                }
        },
{
    if let Ok(contents) = source {
        let (before, behind) = text_laws::lemma_trimmed_parts(contents@);
        let core = text::trimmed(contents@);
        match text::without_prefix(core, "0x"@) {
            Some(digits) => {
                if encoding::hex_bytes(digits) is Some {
                    assert(core =~= "0x"@ + digits);
                    let shown = before + digits + behind;
                    assert(contents@ == before + ("0x"@ + digits) + behind);
                }
            },
            None => {
                if encoding::hex_bytes(core) is Some {
                    assert(contents@ == before + core + behind);
                }
            },
        }
    }
}

/// Whether a record can be used under its ID: its version and its algorithm are known and its ID is
/// an identifier.
pub open spec fn well_kept(kept: KeyRecord) -> bool {
    &&& kept.version == 1
    &&& kept.algorithm@ == "secp256k1"@
    &&& request::identifier(kept.id@)
}

/// Whether a failure is what is told where looking for a wallet's record gives none that can be
/// used.
pub open spec fn tells_lookup(
    error: Error,
    id: Seq<char>,
    stored: Result<Option<KeyRecord>, Error>,
) -> bool {
    if !request::identifier(id) {
        tells_bad_id(error)
    } else {
        match stored {
            Err(reason) => error@ == reason@,
            Ok(None) => error matches Error::KeyNotFound(told) && told@ == id,
            Ok(Some(kept)) => error matches Error::Crypto(message) && message@
                == "wallet record metadata is invalid"@,
        }
    }
}

/// Whether looking for a wallet's record gives one that can be used: the ID is an identifier, and
/// the record is the ID's.
pub open spec fn found(
    id: Seq<char>,
    stored: Result<Option<KeyRecord>, Error>,
    kept: KeyRecord,
) -> bool {
    &&& request::identifier(id)
    &&& stored == Ok::<Option<KeyRecord>, Error>(Some(kept))
    &&& kept.id@ == id
    &&& well_kept(kept)
}

/// Whether looking for a wallet's record gives none that can be used.
pub open spec fn not_found(id: Seq<char>, stored: Result<Option<KeyRecord>, Error>) -> bool {
    !(stored is Ok && stored->Ok_0 is Some && found(id, stored, stored->Ok_0->0))
}

pub(crate) proof fn lemma_lookup(id: Seq<char>, stored: Result<Option<KeyRecord>, Error>)
    ensures
        not_found(id, stored) == (store::key_lookup(id, record::stored_view(stored)) is Err),
        store::key_lookup(id, record::stored_view(stored)) matches Err(told) ==> forall|error: Error|
            #[trigger] error@ == told ==> tells_lookup(error, id, stored),
        !not_found(id, stored) ==> store::key_lookup(id, record::stored_view(stored)) == Ok::<
            record::KeyRecordView,
            ErrorView,
        >(stored->Ok_0->0@),
{
    lemma_bad_id();
    request::lemma_identifier(id);
    if let Ok(Some(kept)) = stored {
        request::lemma_identifier(kept.id@);
        assert(text::option_view(Some(kept)) == Some(kept@));
    }
}

/// The public side of a key is found exactly where its record can be used, and is what the record
/// says. Anything else is told.
pub proof fn law_get(
    s: &EncryptedFileStore,
    id: &str,
    stored: Result<Option<KeyRecord>, Error>,
    r: Result<KeyInfo, Error>,
)
    requires
        call_ensures(EncryptedFileStore::get, (s, id, stored), r),
    ensures
        (r is Err) == not_found(id@, stored),
        r matches Err(error) ==> tells_lookup(error, id@, stored),
        r matches Ok(info) ==> same_key(info, stored->Ok_0->0),
{
    lemma_lookup(id@, stored);
    if let Ok(info) = r {
        assert(info@ == record::record_info(stored->Ok_0->0@));
    }
}

/// A stored key signs exactly where its record can be used, its private key comes out of the record
/// under the store's data key, and that key signs the digest. The signature is that key's, and leads
/// back to the address of the record.
pub proof fn law_sign_with_stored_key(
    s: &EncryptedFileStore,
    id: &str,
    stored: Result<Option<KeyRecord>, Error>,
    digest: &[u8],
    key: Seq<u8>,
    r: Result<(KeyInfo, [u8; 65]), Error>,
)
    requires
        call_ensures(EncryptedFileStore::sign_digest, (s, id, stored, digest), r),
    ensures
        not_found(id@, stored) ==> r is Err && tells_lookup(r->Err_0, id@, stored),
        !not_found(id@, stored) && comes_out(stored->Ok_0->0, s.data_key(), key) ==> {
            &&& r is Ok == (digest@.len() == 32 && primitives::secp256k1_signature(
                key,
                digest@,
            ) is Some)
            &&& r is Ok ==> same_key(r->Ok_0.0, stored->Ok_0->0) && crypto_laws::signs(
                key,
                digest@,
                r->Ok_0.1@,
            )
            &&& digest@.len() != 32 ==> (r matches Err(Error::InvalidRequest(message)) && message@
                == "EIP-712 digest must be 32 bytes"@)
        },
        r is Ok ==> exists|used: Seq<u8>| #[trigger]
            comes_out(stored->Ok_0->0, s.data_key(), used),
{
    lemma_lookup(id@, stored);
    if !not_found(id@, stored) {
        let kept = stored->Ok_0->0;
        lemma_comes_out(kept, s.data_key(), key);
        if let Ok((info, signature)) = r {
            assert(error::result_view(r) == Ok::<(record::KeyInfoView, Seq<u8>), ErrorView>(
                (info@, signature@),
            ));
            let used = record::opened_key(s.data_key(), kept@)->Ok_0;
            lemma_comes_out(kept, s.data_key(), used);
            crypto_laws::lemma_signs(used, digest@, signature@);
        }
    }
}

/// A key that was imported signs: its record, looked up under its ID, gives the signature of the very
/// key that was imported.
pub proof fn law_imported_key_signs(
    s: &EncryptedFileStore,
    id: &str,
    key: &[u8],
    created_at: i64,
    imported: Result<(KeyInfo, KeyRecord), Error>,
    digest: &[u8],
    r: Result<(KeyInfo, [u8; 65]), Error>,
)
    requires
        call_ensures(EncryptedFileStore::import, (s, id, key, false, created_at), imported),
        imported is Ok,
        call_ensures(
            EncryptedFileStore::sign_digest,
            (s, id, Ok(Some(imported->Ok_0.1)), digest),
            r,
        ),
        digest@.len() == 32,
        primitives::secp256k1_signature(key@, digest@) is Some,
    ensures
        r is Ok,
        crypto_laws::signs(key@, digest@, r->Ok_0.1@),
        names_key(r->Ok_0.0, id@, key@, created_at),
{
    law_import(s, id, key, false, created_at, imported);
    let kept = imported->Ok_0.1;
    law_sign_with_stored_key(s, id, Ok(Some(kept)), digest, key@, r);
}

/// A record is deleted exactly where the ID is an identifier and a record is there. The file is the
/// one that the ID names.
pub proof fn law_delete(
    s: &EncryptedFileStore,
    id: &str,
    present: bool,
    name: String,
    r: Result<String, Error>,
)
    requires
        call_ensures(EncryptedFileStore::delete, (s, id, present), r),
        call_ensures(key_file_name, (id,), name),
    ensures
        name@ == encoding::hex_text(primitives::sha256_digest(utf8::encode_utf8(id@))) + ".json"@,
        r is Ok == (request::identifier(id@) && present),
        r matches Ok(told) ==> told@ == name@,
        !request::identifier(id@) ==> r is Err && tells_bad_id(r->Err_0),
        request::identifier(id@) && !present ==> (r matches Err(Error::KeyNotFound(told)) && told@
            == id@),
{
    lemma_bad_id();
    request::lemma_identifier(id@);
}

/// A record file is a regular file whose name is some text and `.json`.
pub proof fn law_is_record_file(name: &str, regular_file: bool, r: bool)
    requires
        call_ensures(is_record_file, (name, regular_file), r),
    ensures
        r == (regular_file && exists|stem: Seq<char>|
            stem.len() > 0 && name@ == #[trigger] (stem + ".json"@)),
{
    reveal_strlit(".json");
    if r {
        let stem = name@.take(name@.len() - 5);
        assert(name@ =~= stem + ".json"@);
    }
    if exists|stem: Seq<char>| stem.len() > 0 && name@ == #[trigger] (stem + ".json"@) {
        let stem = choose|stem: Seq<char>| stem.len() > 0 && name@ == #[trigger] (stem + ".json"@);
        assert(name@.skip(name@.len() - 5) =~= ".json"@);
    }
}

/// A key is shown by its ID, its algorithm and its address, with tabs between them, and a record's
/// public side is every field of it but the secret.
pub proof fn law_shown_key(info: &KeyInfo, line: String, kept: &KeyRecord, side: KeyInfo)
    requires
        call_ensures(KeyInfo::line, (info,), line),
        call_ensures(KeyRecord::info, (kept,), side),
    ensures
        line@ == info.id@ + seq!['\t'] + info.algorithm@ + seq!['\t'] + info.address@,
        same_key(side, *kept),
{
    reveal_strlit("\t");
    assert("\t"@ =~= seq!['\t']);
    assert(side@ == record::record_info(kept@));
}

/// The name of a record's file is the digest of the key's ID in hexadecimal, and `.json`.
pub proof fn law_digest_file_name(digest: &[u8; 32], r: String)
    requires
        call_ensures(digest_file_name, (digest,), r),
    ensures
        r@ == encoding::hex_text(digest@) + ".json"@,
{
}

/// A copy of a key's public side or of a record has every field of it.
pub proof fn law_key_copies(
    info: &KeyInfo,
    info_copy: KeyInfo,
    kept: &KeyRecord,
    kept_copy: KeyRecord,
)
    requires
        call_ensures(KeyInfo::clone, (info,), info_copy),
        call_ensures(KeyRecord::clone, (kept,), kept_copy),
    ensures
        info_copy.id@ == info.id@,
        info_copy.algorithm@ == info.algorithm@,
        info_copy.address@ == info.address@,
        info_copy.public_key@ == info.public_key@,
        info_copy.created_at == info.created_at,
        kept_copy.version == kept.version,
        kept_copy.id@ == kept.id@,
        kept_copy.algorithm@ == kept.algorithm@,
        kept_copy.address@ == kept.address@,
        kept_copy.public_key@ == kept.public_key@,
        kept_copy.created_at == kept.created_at,
        kept_copy.nonce_b64@ == kept.nonce_b64@,
        kept_copy.ciphertext_b64@ == kept.ciphertext_b64@,
{
    assert(info_copy@ == info@);
    assert(kept_copy@ == kept@);
}

} // verus!
