//! Laws on secrets: what is held in memory, and which files and directories are private enough.

use vstd::prelude::*;
use vstd::string::*;
use vstd::utf8;

use crate::error::Error;
use crate::secret;
use crate::secret::{
    check_lock_file, check_private_file, ensure_private_dir, master_key_parent, read_private_file,
    read_private_text, store_locked, DirectoryStep, FileFacts, Lookup, SecretBytes, SecretKey,
};
use crate::text::decimal;

verus! {

/// Whether a file's permission bits are for its owner alone: the six lowest are off.
pub open spec fn owner_only(mode: u32) -> bool {
    mode % 64 == 0
}

/// Whether a result refuses a setting with a message.
pub open spec fn refuses<T>(r: Result<T, Error>, told: Seq<char>) -> bool {
    r matches Err(Error::Config(message)) && message@ == told
}

/// Whether a result tells that a file could not be read, and why.
pub open spec fn unread<T>(r: Result<T, Error>, path: Seq<char>, reason: Seq<char>) -> bool {
    r matches Err(Error::ReadFile { path: told, source }) && told@ == path && source@ == reason
}

proof fn lemma_owner_only(mode: u32)
    ensures
        secret::reachable_by_others(mode) == !owner_only(mode),
{
    assert((mode & 0o077 == 0) == (mode % 64 == 0)) by (bit_vector);
}

/// A private directory is kept where it is a real directory for its owner alone, and created where
/// there is none. Anything else is refused.
pub proof fn law_ensure_private_dir(
    path: &str,
    description: &str,
    found: &Lookup,
    r: Result<DirectoryStep, Error>,
)
    requires
        call_ensures(ensure_private_dir, (path, description, found), r),
    ensures
        found is Missing ==> r == Ok::<DirectoryStep, Error>(DirectoryStep::Create),
        found matches Lookup::Failed(reason) ==> unread(r, path@, reason@),
        found matches Lookup::Present(facts) ==> {
            &&& !(facts.kind is Directory) ==> refuses(
                r,
                description@ + " must be a real directory"@,
            )
            &&& facts.kind is Directory && !owner_only(facts.mode) ==> refuses(
                r,
                description@ + " must not be accessible by group or other users"@,
            )
            &&& facts.kind is Directory && owner_only(facts.mode) ==> r == Ok::<
                DirectoryStep,
                Error,
            >(DirectoryStep::Keep)
        },
{
    if let Lookup::Present(facts) = found {
        lemma_owner_only(facts.mode);
    }
}

/// The directory of a new master-key file is kept where it is a real directory, whoever can reach it,
/// and created where there is none.
pub proof fn law_master_key_parent(path: &str, found: &Lookup, r: Result<DirectoryStep, Error>)
    requires
        call_ensures(master_key_parent, (path, found), r),
    ensures
        found is Missing ==> r == Ok::<DirectoryStep, Error>(DirectoryStep::Create),
        found matches Lookup::Failed(reason) ==> unread(r, path@, reason@),
        found matches Lookup::Present(facts) ==> {
            &&& facts.kind is Directory ==> r == Ok::<DirectoryStep, Error>(DirectoryStep::Keep)
            &&& !(facts.kind is Directory) ==> refuses(
                r,
                "master key parent must be a real directory"@,
            )
        },
{
}

/// A private file is read exactly where it is a regular file for its owner alone and no longer than
/// the limit. What is told names the first of these that fails, and the limit in digits.
pub proof fn law_check_private_file(
    path: &str,
    description: &str,
    max_bytes: usize,
    opened: &Result<FileFacts, String>,
    digits: String,
    r: Result<(), Error>,
)
    requires
        call_ensures(check_private_file, (path, description, max_bytes, opened), r),
        call_ensures(decimal, (max_bytes as u64,), digits),
    ensures
        opened matches Err(reason) ==> unread(r, path@, reason@),
        opened matches Ok(facts) ==> {
            &&& r is Ok == (facts.kind is Regular && owner_only(facts.mode) && facts.length
                <= max_bytes)
            &&& !(facts.kind is Regular) ==> refuses(r, description@ + " must be a regular file"@)
            &&& facts.kind is Regular && !owner_only(facts.mode) ==> refuses(
                r,
                description@ + " must not be accessible by group or other users"@,
            )
            &&& facts.kind is Regular && owner_only(facts.mode) && facts.length > max_bytes
                ==> refuses(r, description@ + " exceeds "@ + digits@ + " bytes"@)
        },
{
    if let Ok(facts) = opened {
        lemma_owner_only(facts.mode);
    }
}

/// A private file's contents are taken over as they are where they are no longer than the limit.
pub proof fn law_read_private_file(
    path: &str,
    description: &str,
    max_bytes: usize,
    contents: Result<SecretBytes, String>,
    digits: String,
    r: Result<SecretBytes, Error>,
)
    requires
        call_ensures(read_private_file, (path, description, max_bytes, contents), r),
        call_ensures(decimal, (max_bytes as u64,), digits),
    ensures
        contents matches Err(reason) ==> unread(r, path@, reason@),
        contents matches Ok(bytes) ==> {
            &&& r is Ok == (bytes@.len() <= max_bytes)
            &&& r is Ok ==> r->Ok_0@ == bytes@
            &&& r is Err ==> refuses(r, description@ + " exceeds "@ + digits@ + " bytes"@)
        },
{
}

/// A private file's text is taken over exactly where its bytes are some text's, and is that text.
pub proof fn law_read_private_text(
    description: &str,
    contents: &SecretBytes,
    r: Result<&str, Error>,
)
    requires
        call_ensures(read_private_text, (description, contents), r),
    ensures
        r matches Ok(decoded) ==> utf8::encode_utf8(decoded@) == contents@,
        r is Ok == utf8::valid_utf8(contents@),
        r is Err ==> refuses(r, description@ + " must contain UTF-8 text"@),
{
    if utf8::valid_utf8(contents@) {
        utf8::decode_utf8_encode_utf8(contents@);
    }
}

/// The lock is a regular file, and where another process holds it that is told with the store and the
/// reason.
pub proof fn law_locks(
    facts: &FileFacts,
    r: Result<(), Error>,
    root: &str,
    source: &str,
    told: Error,
)
    requires
        call_ensures(check_lock_file, (facts,), r),
        call_ensures(store_locked, (root, source), told),
    ensures
        r is Ok == facts.kind is Regular,
        r is Err ==> refuses(r, "wallet store lock must be a regular file"@),
        told matches Error::Config(message) && message@
            == "wallet store is already open by another process ("@ + root@ + "): "@ + source@,
{
}

/// A secret holds the bytes that it was given.
pub proof fn law_secrets(
    bytes: Vec<u8>,
    held: SecretBytes,
    read: &[u8],
    array: [u8; 32],
    key: SecretKey,
    source: &[u8],
    copied: SecretKey,
    shown: &[u8; 32],
)
    requires
        call_ensures(SecretBytes::new, (bytes,), held),
        call_ensures(SecretBytes::as_slice, (&held,), read),
        call_ensures(SecretKey::new, (array,), key),
        call_ensures(SecretKey::as_array, (&key,), shown),
        source@.len() == 32,
        call_ensures(SecretKey::from_slice, (source,), copied),
    ensures
        held@ == bytes@,
        read@ == bytes@,
        key@ == array@,
        shown@ == array@,
        copied@ == source@,
{
}

/// A wiped secret holds nothing, and a wiped key nothing but zeros.
pub proof fn law_wipe(bytes: &mut SecretBytes, key: &mut SecretKey)
    requires
        call_ensures(SecretBytes::wipe, (bytes,), ()),
        call_ensures(SecretKey::wipe, (key,), ()),
    ensures
        final(bytes)@.len() == 0,
        forall|i: int| 0 <= i < final(key)@.len() ==> #[trigger] final(key)@[i] == 0,
{
}

} // verus!
