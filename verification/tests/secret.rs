use agent_wallet::secret::{
    check_lock_file, check_private_file, ensure_private_dir, master_key_parent, read_private_file, read_private_text,
    store_locked, DirectoryStep, FileFacts, FileKind, Lookup, SecretBytes, SecretKey,
};
use agent_wallet::Error;

fn facts(kind: FileKind, mode: u32) -> FileFacts {
    FileFacts { kind, mode, length: 5 }
}

fn check(opened: Result<FileFacts, String>) -> Result<(), Error> {
    check_private_file("/secret", "test secret", 32, &opened)
}

#[test]
fn rejects_symlink_and_overly_permissive_secret() {
    assert!(check(Ok(facts(FileKind::Regular, 0o100_644))).is_err());
    assert!(check(Ok(facts(FileKind::Regular, 0o100_600))).is_ok());
    assert!(check(Err("Too many levels of symbolic links (os error 40)".to_owned())).is_err());
    assert!(check(Ok(facts(FileKind::Symlink, 0o120_600))).is_err());
}

#[test]
fn private_files_are_refused_with_a_reason() {
    for (opened, message) in [
        (Err("gone".to_owned()), "failed to read /secret: gone"),
        (
            Ok(facts(FileKind::Directory, 0o700)),
            "configuration error: test secret must be a regular file",
        ),
        (
            Ok(facts(FileKind::Regular, 0o620)),
            "configuration error: test secret must not be accessible by group or other users",
        ),
        (
            Ok(facts(FileKind::Regular, 0o601)),
            "configuration error: test secret must not be accessible by group or other users",
        ),
        (
            Ok(FileFacts {
                kind: FileKind::Regular,
                mode: 0o600,
                length: 33,
            }),
            "configuration error: test secret exceeds 32 bytes",
        ),
    ] {
        assert!(matches!(check(opened), Err(error) if error.message() == message));
    }
    assert!(check(Ok(FileFacts {
        kind: FileKind::Regular,
        mode: 0o700,
        length: 32,
    }))
    .is_ok());
}

#[test]
fn contents_are_measured_again() {
    let read = |contents| read_private_file("/secret", "test secret", 3, contents);
    assert!(matches!(read(Ok(SecretBytes::new(vec![1, 2, 3]))), Ok(bytes) if bytes.as_slice() == [1, 2, 3]));
    assert!(
        matches!(read(Ok(SecretBytes::new(vec![0; 4]))), Err(Error::Config(message)) if message == "test secret exceeds 3 bytes")
    );
    assert!(
        matches!(read(Err("broken".to_owned())), Err(Error::ReadFile { path, source }) if path == "/secret" && source == "broken")
    );
}

#[test]
fn private_text_is_utf8() {
    let text = SecretBytes::new("gehéim".as_bytes().to_vec());
    assert_eq!(read_private_text("test secret", &text).unwrap(), "gehéim");
    for broken in [vec![0xff], vec![0xc3], vec![0xed, 0xa0, 0x80], vec![b'a', 0xc0, 0x80]] {
        assert!(
            matches!(read_private_text("test secret", &SecretBytes::new(broken)), Err(Error::Config(message)) if message == "test secret must contain UTF-8 text")
        );
    }
}

#[test]
fn private_directories_are_real_and_closed() {
    let decide = |found| ensure_private_dir("/dir", "wallet store directory", &found);
    assert_eq!(
        decide(Lookup::Present(facts(FileKind::Directory, 0o040_700))).unwrap(),
        DirectoryStep::Keep
    );
    assert_eq!(decide(Lookup::Missing).unwrap(), DirectoryStep::Create);
    for kind in [FileKind::Regular, FileKind::Symlink, FileKind::Socket, FileKind::Other] {
        assert!(
            matches!(decide(Lookup::Present(facts(kind, 0o700))), Err(Error::Config(message)) if message == "wallet store directory must be a real directory")
        );
    }
    assert!(
        matches!(decide(Lookup::Present(facts(FileKind::Directory, 0o040_710))), Err(Error::Config(message)) if message == "wallet store directory must not be accessible by group or other users")
    );
    assert!(
        matches!(decide(Lookup::Failed("denied".to_owned())), Err(Error::ReadFile { path, source }) if path == "/dir" && source == "denied")
    );
}

#[test]
fn master_key_parent_may_be_shared() {
    assert_eq!(
        master_key_parent("/dir", &Lookup::Present(facts(FileKind::Directory, 0o040_755))).unwrap(),
        DirectoryStep::Keep
    );
    assert_eq!(
        master_key_parent("/dir", &Lookup::Missing).unwrap(),
        DirectoryStep::Create
    );
    assert!(
        matches!(master_key_parent("/dir", &Lookup::Present(facts(FileKind::Symlink, 0o777))), Err(Error::Config(message)) if message == "master key parent must be a real directory")
    );
    assert!(matches!(
        master_key_parent("/dir", &Lookup::Failed("denied".to_owned())),
        Err(Error::ReadFile { .. })
    ));
}

#[test]
fn prevents_concurrent_store_processes() {
    assert!(matches!(
        store_locked("/tmp/store", "Resource temporarily unavailable (os error 11)"),
        Error::Config(message) if message.contains("already open")
            && message == "wallet store is already open by another process (/tmp/store): Resource temporarily unavailable (os error 11)"
    ));
    assert!(check_lock_file(&facts(FileKind::Regular, 0o644)).is_ok());
    assert!(
        matches!(check_lock_file(&facts(FileKind::Other, 0o600)), Err(Error::Config(message)) if message == "wallet store lock must be a regular file")
    );
}

#[test]
fn wiped_secrets_are_gone() {
    let mut bytes = SecretBytes::new(vec![1, 2, 3]);
    bytes.wipe();
    assert!(bytes.as_slice().is_empty());
    let mut key = SecretKey::from_slice(&[7; 32]);
    assert_eq!(key.as_array(), &[7; 32]);
    key.wipe();
    assert_eq!(key.as_array(), &[0; 32]);
    assert_eq!(SecretKey::new([5; 32]).as_array(), &[5; 32]);
}
