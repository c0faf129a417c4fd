use agent_wallet::crypto;
use agent_wallet::envelope::{
    decrypt_data_key, envelope, master_key_file, read_master_key, seal_data_key, unwrap_data_key,
};
use agent_wallet::listing::sort_by_id;
use agent_wallet::record::{digest_file_name, is_record_file, key_file_name, unwrap_key};
use agent_wallet::secret::{check_private_file, FileFacts, FileKind, SecretBytes, SecretKey};
use agent_wallet::store::{generate_master_key_file, KeyInfo, KeyRecord, StoreMetadata};
use agent_wallet::{EncryptedFileStore, Error};
use base64::{engine::general_purpose::STANDARD as BASE64, Engine};
use chacha20poly1305::aead::{Aead, KeyInit, Payload};
use chacha20poly1305::{XChaCha20Poly1305, XNonce};
use hkdf::Hkdf;
use sha2::{Digest, Sha256};

const NOW: i64 = 1_700_000_000;

fn store() -> (String, StoreMetadata, EncryptedFileStore) {
    let master = generate_master_key_file();
    let (store, metadata) = EncryptedFileStore::open(Ok(&master), Ok(None)).unwrap();
    (master, metadata.unwrap(), store)
}

fn fixed_store() -> EncryptedFileStore {
    let master_key = SecretKey::new([1; 32]);
    let (store, _) =
        EncryptedFileStore::initialize(&master_key, SecretKey::new([2; 32]), &[3; 32], &[4; 24]).unwrap();
    store
}

fn entry(record: &KeyRecord) -> Result<(String, KeyRecord), Error> {
    Ok((key_file_name(&record.id), record.clone()))
}

#[test]
fn encrypts_and_signs_eoa_key() {
    let (_, _, store) = store();
    let key = vec![7_u8; 32];
    let (info, record) = store.import("payer", &key, false, NOW).unwrap();
    assert!(info.address.starts_with("0x"));

    for field in [&record.ciphertext_b64, &record.nonce_b64, &record.address, &record.public_key] {
        assert!(!field.contains(&hex::encode(key.as_slice())));
        assert!(!field.contains(&BASE64.encode(key.as_slice())));
    }

    let digest = Sha256::digest(b"payment");
    let (signed_by, signature) = store.sign_digest("payer", Ok(Some(record.clone())), &digest).unwrap();
    assert_eq!(signed_by, info);
    assert_eq!(signature.len(), 65);
    assert_eq!(store.list(&vec![entry(&record)]).unwrap(), vec![info]);
}

#[test]
fn wrong_master_key_fails_fast() {
    let (_, metadata, store) = store();
    store.generate("payer", false, NOW).unwrap();
    let wrong = generate_master_key_file();
    assert!(matches!(
        EncryptedFileStore::open(Ok(&wrong), Ok(Some(metadata))),
        Err(Error::InvalidMasterKey(_))
    ));
}

#[test]
fn rotates_only_master_key_envelope() {
    let (current, metadata, store) = store();
    let (info, record) = store.generate("payer", false, NOW).unwrap();
    let replacement = generate_master_key_file();
    let rotated = store
        .rotate_master_key(Ok(&current), Ok(metadata), Ok(&replacement))
        .unwrap();
    drop(store);

    assert!(matches!(
        EncryptedFileStore::open(Ok(&current), Ok(Some(rotated.clone()))),
        Err(Error::InvalidMasterKey(_))
    ));
    let (reopened, written) = EncryptedFileStore::open(Ok(&replacement), Ok(Some(rotated))).unwrap();
    assert!(written.is_none());
    assert_eq!(reopened.get("payer", Ok(Some(record.clone()))).unwrap(), info);
    let (signed_by, signature) = reopened.sign_digest("payer", Ok(Some(record)), &[9; 32]).unwrap();
    assert_eq!(
        crypto::recover_address(&[9; 32], &signature).as_deref(),
        Some(signed_by.address.as_str())
    );
}

#[test]
fn import_file_requires_private_permissions() {
    let (_, _, store) = store();
    let source = hex::encode([7_u8; 32]);
    let facts = |mode| FileFacts {
        kind: FileKind::Regular,
        mode,
        length: 64,
    };
    let check = |mode| check_private_file("payer.hex", "private key file", 256, &Ok(facts(mode)));
    let refused = check(0o100_644).map(|()| source.as_str());
    assert!(store.import_file("payer", refused, false, NOW).is_err());
    let accepted = check(0o100_600).map(|()| source.as_str());
    assert!(store.import_file("payer", accepted, false, NOW).is_ok());
}

#[test]
fn store_opens_again() {
    let (master, metadata, store) = store();
    let (info, record) = store.import("payer", &[7; 32], false, NOW).unwrap();
    let (again, written) = EncryptedFileStore::open(Ok(&master), Ok(Some(metadata))).unwrap();
    assert!(written.is_none());
    assert_eq!(again.get("payer", Ok(Some(record.clone()))).unwrap(), info);
    let first = store.sign_digest("payer", Ok(Some(record.clone())), &[1; 32]).unwrap();
    let second = again.sign_digest("payer", Ok(Some(record)), &[1; 32]).unwrap();
    assert_eq!(first.1, second.1);
    assert_eq!(first.1, crypto::sign_digest(&[7; 32], &[1; 32]).unwrap());
}

#[test]
fn refused_master_keys_change_nothing() {
    let (master, metadata, store) = store();
    let (info, record) = store.generate("payer", false, NOW).unwrap();
    let other = generate_master_key_file();
    let refused = "master key does not unlock the wallet store";
    assert!(matches!(
        store.rotate_master_key(Ok(&other), Ok(metadata.clone()), Ok(&other)),
        Err(Error::InvalidMasterKey(message)) if message == refused
    ));
    assert!(matches!(
        store.rotate_master_key(Ok(&master), Ok(metadata.clone()), Err(Error::Config("m".to_owned()))),
        Err(Error::InvalidMasterKey(message)) if message == "configuration error: m"
    ));
    drop(store);
    assert!(matches!(
        EncryptedFileStore::open(Ok(&other), Ok(Some(metadata.clone()))),
        Err(Error::InvalidMasterKey(message)) if message == refused
    ));
    let (again, written) = EncryptedFileStore::open(Ok(&master), Ok(Some(metadata))).unwrap();
    assert!(written.is_none());
    assert_eq!(again.get("payer", Ok(Some(record))).unwrap(), info);
}

#[test]
fn opening_passes_failures_on_in_order() {
    let master = generate_master_key_file();
    let lost = || Error::Json("expected value".to_owned());
    assert!(matches!(
        EncryptedFileStore::open(Err(Error::Config("m".to_owned())), Err(lost())),
        Err(Error::InvalidMasterKey(message)) if message == "configuration error: m"
    ));
    assert!(matches!(
        EncryptedFileStore::open(Ok(&master), Err(lost())),
        Err(Error::Json(_))
    ));
}

#[test]
fn master_keys_are_read_strictly() {
    let key = SecretKey::new([9; 32]);
    let file = master_key_file(&key);
    assert_eq!(
        file,
        "wallet-master-key-v1:CQkJCQkJCQkJCQkJCQkJCQkJCQkJCQkJCQkJCQkJCQk=\n"
    );
    assert_eq!(read_master_key(Ok(&file)).unwrap().as_array(), &[9; 32]);
    assert_eq!(read_master_key(Ok(&format!("  {file}\r\n"))).unwrap().as_array(), &[9; 32]);
    for (text, message) in [
        ("CQkJ", "expected wallet-master-key-v1:<base64>"),
        ("wallet-master-key-v1:?", "master key is not valid base64"),
        ("wallet-master-key-v1:CQkJ", "master key must decode to 32 bytes"),
    ] {
        assert!(matches!(read_master_key(Ok(text)), Err(Error::InvalidMasterKey(told)) if told == message));
    }
}

#[test]
fn generated_master_keys_differ() {
    let first = generate_master_key_file();
    let second = generate_master_key_file();
    assert!(read_master_key(Ok(&first)).is_ok());
    assert_ne!(first, second);
}

#[test]
fn salts_and_nonces_are_fresh() {
    let (_, first, _) = store();
    let (_, second, store) = store();
    assert_ne!(first.salt_b64, second.salt_b64);
    assert_ne!(first.nonce_b64, second.nonce_b64);
    assert_ne!(BASE64.decode(&first.salt_b64).unwrap(), vec![0; 32]);
    assert_ne!(BASE64.decode(&first.nonce_b64).unwrap(), vec![0; 24]);
    let payer = store.import("payer", &[7; 32], false, NOW).unwrap().1;
    let again = store.import("payer", &[7; 32], false, NOW).unwrap().1;
    assert_ne!(payer.nonce_b64, again.nonce_b64);
    assert_ne!(payer.ciphertext_b64, again.ciphertext_b64);
}

#[test]
fn envelope_is_what_it_says() {
    let master_key = SecretKey::new([1; 32]);
    let metadata = seal_data_key(&SecretKey::new([2; 32]), &master_key, &[3; 32], &[4; 24]).unwrap();
    assert_eq!(metadata.version, 1);
    assert_eq!(metadata.kdf, "hkdf-sha256");
    assert_eq!(metadata.aead, "xchacha20poly1305");
    assert_eq!(metadata.salt_b64, BASE64.encode([3; 32]));
    assert_eq!(metadata.nonce_b64, BASE64.encode([4; 24]));

    let mut kek = [0_u8; 32];
    Hkdf::<Sha256>::new(Some(&[3; 32]), &[1; 32])
        .expand(b"agent-wallet/kek/v1", &mut kek)
        .unwrap();
    let sealed = XChaCha20Poly1305::new(&kek.into())
        .encrypt(
            XNonce::from_slice(&[4; 24]),
            Payload {
                msg: &[2; 32],
                aad: b"agent-wallet/store-metadata/v1",
            },
        )
        .unwrap();
    assert_eq!(metadata.encrypted_data_key_b64, BASE64.encode(&sealed));
    assert_eq!(
        envelope(&[3; 32], &[4; 24], &sealed).encrypted_data_key_b64,
        metadata.encrypted_data_key_b64
    );
    assert_eq!(decrypt_data_key(&metadata, &master_key).unwrap().as_array(), &[2; 32]);
}

#[test]
fn broken_envelopes_are_refused() {
    let master_key = SecretKey::new([1; 32]);
    let metadata = seal_data_key(&SecretKey::new([2; 32]), &master_key, &[3; 32], &[4; 24]).unwrap();
    let unsupported = "unsupported wallet store format";
    let mut cases: Vec<(StoreMetadata, &str)> = Vec::new();
    let mut broken = metadata.clone();
    broken.version = 2;
    cases.push((broken, unsupported));
    let mut broken = metadata.clone();
    broken.kdf = "scrypt".to_owned();
    cases.push((broken, unsupported));
    let mut broken = metadata.clone();
    broken.aead = "aes".to_owned();
    cases.push((broken, unsupported));
    let mut broken = metadata.clone();
    broken.salt_b64 = "?".to_owned();
    cases.push((broken, "salt is not valid base64"));
    let mut broken = metadata.clone();
    broken.nonce_b64 = "?".to_owned();
    cases.push((broken, "nonce is not valid base64"));
    let mut broken = metadata.clone();
    broken.nonce_b64 = BASE64.encode([4; 23]);
    cases.push((broken, "nonce has an invalid length"));
    let mut broken = metadata.clone();
    broken.encrypted_data_key_b64 = "?".to_owned();
    cases.push((broken, "encrypted data key is not valid base64"));
    for (broken, message) in &cases {
        assert!(matches!(decrypt_data_key(broken, &master_key), Err(Error::Crypto(told)) if told == *message));
    }
    let mut tampered = metadata;
    tampered.salt_b64 = BASE64.encode([5; 32]);
    assert!(
        matches!(decrypt_data_key(&tampered, &master_key), Err(Error::InvalidMasterKey(told)) if told == "master key does not unlock the wallet store")
    );
}

#[test]
fn opened_envelopes_are_measured() {
    assert_eq!(
        unwrap_data_key(Some(SecretBytes::new(vec![6; 32]))).unwrap().as_array(),
        &[6; 32]
    );
    assert!(
        matches!(unwrap_data_key(Some(SecretBytes::new(vec![6; 31]))), Err(Error::Crypto(told)) if told == "decrypted data key has an invalid length")
    );
    assert!(matches!(unwrap_data_key(None), Err(Error::InvalidMasterKey(_))));
}

#[test]
fn records_are_what_they_say() {
    let store = fixed_store();
    let (info, record) = store.seal_key("payer", &[7; 32], false, NOW, &[8; 24]).unwrap();
    assert_eq!(info.id, "payer");
    assert_eq!(info.algorithm, "secp256k1");
    assert_eq!(info.address, crypto::address(&[7; 32]).unwrap());
    assert_eq!(info.public_key, crypto::public_key(&[7; 32]).unwrap());
    assert_eq!(info.created_at, NOW);
    assert_eq!(record.version, 1);
    assert_eq!(record.info(), info);
    assert_eq!(record.nonce_b64, BASE64.encode([8; 24]));
    let aad = format!(
        "agent-wallet/key/v1\0payer\0secp256k1\0{}\0{}",
        info.address, info.public_key
    );
    let opened = XChaCha20Poly1305::new(&[2; 32].into())
        .decrypt(
            XNonce::from_slice(&[8; 24]),
            Payload {
                msg: &BASE64.decode(&record.ciphertext_b64).unwrap(),
                aad: aad.as_bytes(),
            },
        )
        .unwrap();
    assert_eq!(opened, vec![7; 32]);
    assert_eq!(info.line(), format!("payer\tsecp256k1\t{}", info.address));
}

#[test]
fn keys_are_added_once_and_checked_first() {
    let store = fixed_store();
    assert!(matches!(store.generate("payer", true, NOW), Err(Error::KeyExists(id)) if id == "payer"));
    assert!(
        matches!(store.generate("pay/er", true, NOW), Err(Error::InvalidRequest(message)) if message == "wallet_id is invalid")
    );
    assert!(matches!(store.import("pay/er", &[0; 32], true, NOW), Err(Error::InvalidKey(_))));
    assert!(matches!(
        store.import("pay/er", &[7; 32], true, NOW),
        Err(Error::InvalidRequest(_))
    ));
    assert!(matches!(store.import("payer", &[7; 32], true, NOW), Err(Error::KeyExists(_))));
    let first = store.generate("payer", false, NOW).unwrap().0;
    let second = store.generate("payer", false, NOW).unwrap().0;
    assert_ne!(first.address, second.address);
}

#[test]
fn key_files_hold_hex() {
    let store = fixed_store();
    let address = crypto::address(&[0xab; 32]).unwrap();
    for text in [
        "ab".repeat(32),
        format!("0x{}", "ab".repeat(32)),
        format!(" \t0x{}\n", "AB".repeat(32)),
    ] {
        let (info, _) = store.import_file("payer", Ok(&text), false, NOW).unwrap();
        assert_eq!(info.address, address);
    }
    for text in ["", "0x", "zz", "0x0xab", "abc", "0X00"] {
        let result = store.import_file("payer", Ok(text), false, NOW);
        if text.is_empty() || text == "0x" {
            assert!(
                matches!(result, Err(Error::InvalidKey(message)) if message == "secp256k1 private key must be 32 bytes")
            );
        } else {
            assert!(matches!(result, Err(Error::InvalidKey(message)) if message == "private key file must contain hex"));
        }
    }
    assert!(matches!(
        store.import_file("payer", Err(Error::Config("m".to_owned())), false, NOW),
        Err(Error::Config(_))
    ));
}

#[test]
fn lookups_check_the_record() {
    let store = fixed_store();
    let (info, record) = store.import("payer", &[7; 32], false, NOW).unwrap();
    assert_eq!(store.get("payer", Ok(Some(record.clone()))).unwrap(), info);
    assert!(matches!(store.get("payer", Ok(None)), Err(Error::KeyNotFound(id)) if id == "payer"));
    assert!(matches!(store.get("", Ok(Some(record.clone()))), Err(Error::InvalidRequest(_))));
    assert!(matches!(
        store.get("payer", Err(Error::Json("m".to_owned()))),
        Err(Error::Json(_))
    ));
    let mut broken = record.clone();
    broken.version = 2;
    let mut other = record.clone();
    other.algorithm = "ed25519".to_owned();
    let mut renamed = record.clone();
    renamed.id = "thief".to_owned();
    for broken in [broken, other, renamed] {
        assert!(
            matches!(store.get("payer", Ok(Some(broken))), Err(Error::Crypto(message)) if message == "wallet record metadata is invalid")
        );
    }
    assert!(store.get("thief", Ok(Some(record))).is_err());
}

#[test]
fn signing_checks_what_it_decrypts() {
    let store = fixed_store();
    let (_, record) = store.import("payer", &[7; 32], false, NOW).unwrap();
    let sign = |record| store.sign_digest("payer", Ok(Some(record)), &[1; 32]);
    let mut broken = record.clone();
    broken.nonce_b64 = "?".to_owned();
    assert!(matches!(sign(broken), Err(Error::Crypto(message)) if message == "nonce is not valid base64"));
    let mut broken = record.clone();
    broken.ciphertext_b64 = "?".to_owned();
    assert!(matches!(sign(broken), Err(Error::Crypto(message)) if message == "ciphertext is not valid base64"));
    let mut broken = record.clone();
    broken.address = "0x00".to_owned();
    assert!(matches!(sign(broken), Err(Error::Crypto(message)) if message == "authentication or decryption failed"));
    let mut moved = record.clone();
    moved.created_at += 1;
    assert!(sign(moved).is_ok());
    assert!(matches!(
        store.sign_digest("payer", Ok(Some(record)), &[1; 31]),
        Err(Error::InvalidRequest(_))
    ));
    assert!(matches!(
        store.sign_digest("payer", Ok(None), &[1; 32]),
        Err(Error::KeyNotFound(_))
    ));
}

#[test]
fn opened_records_must_match_their_identity() {
    let store = fixed_store();
    let (_, record) = store.import("payer", &[7; 32], false, NOW).unwrap();
    let unwrap = |key: Option<Vec<u8>>| unwrap_key(&record, key.map(SecretBytes::new));
    assert!(matches!(unwrap(Some(vec![7; 32])), Ok(key) if key.as_slice() == [7; 32]));
    assert!(
        matches!(unwrap(Some(vec![8; 32])), Err(Error::Crypto(message)) if message == "wallet record identity does not match its private key")
    );
    assert!(matches!(unwrap(Some(vec![0; 32])), Err(Error::InvalidKey(_))));
    assert!(
        matches!(unwrap(None), Err(Error::Crypto(message)) if message == "authentication or decryption failed")
    );
}

#[test]
fn record_files_are_named_by_digest() {
    let name = "8d65fcf7d4880cd5224b36c33e43617cc519fc6514f79759f65fb571649dffab.json";
    assert_eq!(key_file_name("payer"), name);
    assert_eq!(digest_file_name(&[0xff; 32]), format!("{}.json", "ff".repeat(32)));
    assert!(is_record_file(name, true));
    assert!(!is_record_file(name, false));
    assert!(is_record_file("a.json", true));
    assert!(is_record_file("..json", true));
    for other in [".json", "json", "a.JSON", "a.json.tmp", "", ".3f.tmp"] {
        assert!(!is_record_file(other, true), "{other}");
    }
    let store = fixed_store();
    assert_eq!(store.delete("payer", true).unwrap(), name);
    assert!(matches!(store.delete("payer", false), Err(Error::KeyNotFound(id)) if id == "payer"));
    assert!(matches!(store.delete("pay/er", false), Err(Error::InvalidRequest(_))));
}

#[test]
fn keys_are_listed_by_id() {
    let store = fixed_store();
    let mut entries = Vec::new();
    for id in ["b", "a.2", "c", "a", "a-1", "B"] {
        entries.push(entry(&store.generate(id, false, NOW).unwrap().1));
    }
    let listed = store.list(&entries).unwrap();
    let ids: Vec<&str> = listed.iter().map(|key| key.id.as_str()).collect();
    assert_eq!(ids, ["B", "a", "a-1", "a.2", "b", "c"]);
    assert!(store.list(&Vec::new()).unwrap().is_empty());
}

#[test]
fn deletion_takes_one_key() {
    let store = fixed_store();
    let mut entries = Vec::new();
    let mut records = Vec::new();
    for id in ["c", "a", "b"] {
        let record = store.generate(id, false, NOW).unwrap().1;
        entries.push(entry(&record));
        records.push(record);
    }
    let before = store.list(&entries).unwrap();
    let name = store.delete("b", true).unwrap();
    entries.retain(|found| !matches!(found, Ok((file, _)) if *file == name));
    entries.reverse();
    let after = store.list(&entries).unwrap();
    let expected: Vec<KeyInfo> = before.into_iter().filter(|key| key.id != "b").collect();
    assert_eq!(after, expected);
    assert!(matches!(store.get("b", Ok(None)), Err(Error::KeyNotFound(id)) if id == "b"));
    assert!(matches!(store.delete("b", false), Err(Error::KeyNotFound(id)) if id == "b"));
    for record in &records[..2] {
        assert!(store.sign_digest(&record.id, Ok(Some(record.clone())), &[1; 32]).is_ok());
    }
    assert!(store.import("b", &[7; 32], false, NOW).is_ok());
    assert!(store.generate("b", false, NOW).is_ok());
}

#[test]
fn listing_stops_at_the_first_fault() {
    let store = fixed_store();
    let record = store.generate("payer", false, NOW).unwrap().1;
    let mut broken = record.clone();
    broken.version = 0;
    let misplaced: Result<(String, KeyRecord), Error> = Ok(("other.json".to_owned(), record.clone()));
    assert!(
        matches!(store.list(&vec![entry(&record), misplaced, Err(Error::Io("m".to_owned()))]), Err(Error::Crypto(message)) if message == "wallet record filename does not match its key ID")
    );
    assert!(
        matches!(store.list(&vec![entry(&broken), entry(&record)]), Err(Error::Crypto(message)) if message == "wallet record metadata is invalid")
    );
    assert!(matches!(
        store.list(&vec![entry(&record), Err(Error::Io("m".to_owned())), entry(&broken)]),
        Err(Error::Io(_))
    ));
}

#[test]
fn sorting_keeps_keys_with_the_same_id_in_order() {
    let key = |id: &str, created_at| KeyInfo {
        id: id.to_owned(),
        algorithm: String::new(),
        address: String::new(),
        public_key: String::new(),
        created_at,
    };
    let sorted = sort_by_id(&vec![key("b", 1), key("a", 2), key("b", 3), key("a", 4)]);
    let order: Vec<i64> = sorted.iter().map(|key| key.created_at).collect();
    assert_eq!(order, [2, 4, 1, 3]);
}

#[test]
fn rotation_needs_the_current_key() {
    let (current, metadata, store) = store();
    let other = generate_master_key_file();
    assert!(matches!(
        store.rotate_master_key(Ok(&other), Ok(metadata.clone()), Ok(&current)),
        Err(Error::InvalidMasterKey(message)) if message == "master key does not unlock the wallet store"
    ));
    let (_, foreign) = EncryptedFileStore::open(Ok(&current), Ok(None)).unwrap();
    assert!(matches!(
        store.rotate_master_key(Ok(&current), Ok(foreign.unwrap()), Err(Error::Io(String::new()))),
        Err(Error::InvalidMasterKey(message)) if message == "current key does not unlock this store"
    ));
    assert!(matches!(
        store.rotate_master_key(Ok(&current), Err(Error::Json("m".to_owned())), Ok(&other)),
        Err(Error::Json(_))
    ));
    assert!(matches!(
        store.rotate_master_key(Ok(&current), Ok(metadata), Ok("none")),
        Err(Error::InvalidMasterKey(message)) if message == "expected wallet-master-key-v1:<base64>"
    ));
}
