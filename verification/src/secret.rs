//! Secrets: in memory, where they are wiped, and on disk, where only their owner may reach them.

use vstd::prelude::*;
use vstd::string::*;
use vstd::utf8;

use crate::encoding;
use crate::error;
use crate::error::{config_error, Error, ErrorView};
use crate::primitives;
use crate::text;
use crate::text::{decimal, join2, join3};

verus! {

/// Secret bytes, wiped when dropped.
pub struct SecretBytes {
    bytes: Vec<u8>,
}

impl View for SecretBytes {
    type V = Seq<u8>;

    closed spec fn view(&self) -> Seq<u8> {
        self.bytes@
    }
}

impl Drop for SecretBytes {
    fn drop(&mut self)
        ensures
            final(self)@.len() == 0,
        opens_invariants none
        no_unwind
    {
        self.wipe();
    }
}

impl SecretBytes {
    /// Overwrites the bytes, and forgets them.
    pub fn wipe(&mut self)
        ensures
            final(self)@.len() == 0,
        opens_invariants none
        no_unwind
    {
        primitives::wipe(&mut self.bytes);
    }

    /// Takes charge of bytes.
    pub fn new(bytes: Vec<u8>) -> (r: SecretBytes)
        ensures
            r@ == bytes@,
    {
        SecretBytes { bytes }
    }

    /// The bytes.
    pub fn as_slice(&self) -> (r: &[u8])
        ensures
            r@ == self@,
    {
        self.bytes.as_slice()
    }
}

/// A secret key of 32 bytes, wiped when dropped.
pub struct SecretKey {
    bytes: [u8; 32],
}

impl View for SecretKey {
    type V = Seq<u8>;

    closed spec fn view(&self) -> Seq<u8> {
        self.bytes@
    }
}

impl Drop for SecretKey {
    fn drop(&mut self)
        ensures
            final(self)@ == Seq::new(32, |i: int| 0u8),
        opens_invariants none
        no_unwind
    {
        self.wipe();
    }
}

impl SecretKey {
    /// Overwrites the key with zeros.
    pub fn wipe(&mut self)
        ensures
            final(self)@ == Seq::new(32, |i: int| 0u8),
        opens_invariants none
        no_unwind
    {
        primitives::wipe_key(&mut self.bytes);
    }

    /// Takes charge of a key.
    pub fn new(bytes: [u8; 32]) -> (r: SecretKey)
        ensures
            r@ == bytes@,
            r@.len() == 32,
    {
        SecretKey { bytes }
    }

    /// A copy of 32 bytes.
    pub fn from_slice(source: &[u8]) -> (r: SecretKey)
        requires
            source@.len() == 32,
        ensures
            r@ == source@,
            r@.len() == 32,
    {
        let mut r = SecretKey { bytes: [0u8; 32] };
        encoding::copy_bytes(&mut r.bytes, source);
        r
    }

    /// The bytes of the key.
    pub fn as_array(&self) -> (r: &[u8; 32])
        ensures
            r@ == self@,
            self@.len() == 32,
    {
        &self.bytes
    }
}

/// What kind of thing a path leads to. Links are not followed.
#[derive(Clone, Copy, Debug, PartialEq, Eq, Structural)]
pub enum FileKind {
    Directory,
    Regular,
    Symlink,
    Socket,
    Other,
}

/// What the file system tells of a file.
#[derive(Clone, Copy, Debug)]
pub struct FileFacts {
    pub kind: FileKind,
    /// The permission bits.
    pub mode: u32,
    /// The length in bytes.
    pub length: u64,
}

/// What looking at a path came to.
#[derive(Debug)]
pub enum Lookup {
    Present(FileFacts),
    Missing,
    /// The file system could not tell, for a reason.
    Failed(String),
}

/// The meaning of a [`Lookup`].
pub enum LookupView {
    Present(FileFacts),
    Missing,
    Failed(Seq<char>),
}

impl View for Lookup {
    type V = LookupView;

    open spec fn view(&self) -> LookupView {
        match self {
            Lookup::Present(facts) => LookupView::Present(*facts),
            Lookup::Missing => LookupView::Missing,
            Lookup::Failed(source) => LookupView::Failed(source@),
        }
    }
}

/// What is to be done about a directory.
#[derive(Clone, Copy, Debug, PartialEq, Eq, Structural)]
pub enum DirectoryStep {
    /// It is there and can be used.
    Keep,
    /// It is to be created, for its owner alone.
    Create,
}

impl View for DirectoryStep {
    type V = DirectoryStep;

    open spec fn view(&self) -> DirectoryStep {
        *self
    }
}

/// Whether permission bits let group or other users in.
pub open spec fn reachable_by_others(mode: u32) -> bool {
    mode & 0o077 != 0
}

/// What is to be done about a directory that has to be private, or why it cannot be used.
pub open spec fn private_dir_step(
    path: Seq<char>,
    description: Seq<char>,
    found: LookupView,
) -> Result<DirectoryStep, ErrorView> {
    match found {
        LookupView::Present(facts) => if facts.kind != FileKind::Directory {
            Err(ErrorView::Config(description + " must be a real directory"@))
        } else if reachable_by_others(facts.mode) {
            Err(
                ErrorView::Config(
                    description + " must not be accessible by group or other users"@,
                ),
            )
        } else {
            Ok(DirectoryStep::Keep)
        },
        LookupView::Missing => Ok(DirectoryStep::Create),
        LookupView::Failed(source) => Err(ErrorView::ReadFile { path, source }),
    }
}

/// Decides about a directory that has to be private: what is there must be a real directory that
/// group and other users cannot reach.
pub fn ensure_private_dir(path: &str, description: &str, found: &Lookup) -> (r: Result<
    DirectoryStep,
    Error,
>)
    ensures
        error::result_view(r) == private_dir_step(path@, description@, found@),
{
    match found {
        Lookup::Present(facts) => {
            if facts.kind != FileKind::Directory {
                return Err(Error::Config(join2(description, " must be a real directory")));
            }
            if facts.mode & 0o077 != 0 {
                return Err(
                    Error::Config(
                        join2(description, " must not be accessible by group or other users"),
                    ),
                );
            }
            Ok(DirectoryStep::Keep)
        },
        Lookup::Missing => Ok(DirectoryStep::Create),
        Lookup::Failed(source) => Err(
            Error::ReadFile { path: path.to_owned(), source: source.clone() },
        ),
    }
}

/// What is to be done about the directory of a new master-key file, or why it cannot be used.
pub open spec fn master_key_parent_step(path: Seq<char>, found: LookupView) -> Result<
    DirectoryStep,
    ErrorView,
> {
    match found {
        LookupView::Present(facts) => if facts.kind != FileKind::Directory {
            Err(ErrorView::Config("master key parent must be a real directory"@))
        } else {
            Ok(DirectoryStep::Keep)
        },
        LookupView::Missing => Ok(DirectoryStep::Create),
        LookupView::Failed(source) => Err(ErrorView::ReadFile { path, source }),
    }
}

/// Decides about the directory of a new master-key file: one that is there may be reachable by
/// others, one that is not is created as a private directory.
pub fn master_key_parent(path: &str, found: &Lookup) -> (r: Result<DirectoryStep, Error>)
    ensures
        error::result_view(r) == master_key_parent_step(path@, found@),
{
    match found {
        Lookup::Present(facts) => {
            if facts.kind != FileKind::Directory {
                Err(config_error("master key parent must be a real directory"))
            } else {
                Ok(DirectoryStep::Keep)
            }
        },
        Lookup::Missing => Ok(DirectoryStep::Create),
        Lookup::Failed(source) => Err(
            Error::ReadFile { path: path.to_owned(), source: source.clone() },
        ),
    }
}

/// What is told of a file that is too long.
pub open spec fn too_long(description: Seq<char>, max_bytes: usize) -> ErrorView {
    ErrorView::Config(description + " exceeds "@ + text::decimal_text(max_bytes as nat) + " bytes"@)
}

fn too_long_error(description: &str, max_bytes: usize) -> (r: Error)
    ensures
        r@ == too_long(description@, max_bytes),
{
    let mut message = join3(description, " exceeds ", decimal(max_bytes as u64).as_str());
    message.append(" bytes");
    Error::Config(message)
}

/// What is told of a file that has to be private, by its facts or by why it could not be opened.
pub open spec fn private_file_check(
    path: Seq<char>,
    description: Seq<char>,
    max_bytes: usize,
    opened: Result<FileFacts, Seq<char>>,
) -> Result<(), ErrorView> {
    match opened {
        Err(source) => Err(ErrorView::ReadFile { path, source }),
        Ok(facts) => if facts.kind != FileKind::Regular {
            Err(ErrorView::Config(description + " must be a regular file"@))
        } else if reachable_by_others(facts.mode) {
            Err(
                ErrorView::Config(
                    description + " must not be accessible by group or other users"@,
                ),
            )
        } else if facts.length > max_bytes {
            Err(too_long(description, max_bytes))
        } else {
            Ok(())
        },
    }
}

/// The meaning of an attempt to open a file.
pub open spec fn opened_view(opened: Result<FileFacts, String>) -> Result<FileFacts, Seq<char>> {
    match opened {
        Ok(facts) => Ok(facts),
        Err(source) => Err(source@),
    }
}

/// Checks a file that has to be private before it is read: a regular file that group and other
/// users cannot reach, and not too long.
pub fn check_private_file(
    path: &str,
    description: &str,
    max_bytes: usize,
    opened: &Result<FileFacts, String>,
) -> (r: Result<(), Error>)
    ensures
        error::result_view(r) == private_file_check(
            path@,
            description@,
            max_bytes,
            opened_view(*opened),
        ),
{
    match opened {
        Err(source) => Err(Error::ReadFile { path: path.to_owned(), source: source.clone() }),
        Ok(facts) => {
            if facts.kind != FileKind::Regular {
                return Err(Error::Config(join2(description, " must be a regular file")));
            }
            if facts.mode & 0o077 != 0 {
                return Err(
                    Error::Config(
                        join2(description, " must not be accessible by group or other users"),
                    ),
                );
            }
            if facts.length > max_bytes as u64 {
                return Err(too_long_error(description, max_bytes));
            }
            Ok(())
        },
    }
}

/// What the contents of a private file are, or why they cannot be used.
pub open spec fn private_contents(
    path: Seq<char>,
    description: Seq<char>,
    max_bytes: usize,
    contents: Result<Seq<u8>, Seq<char>>,
) -> Result<Seq<u8>, ErrorView> {
    match contents {
        Err(source) => Err(ErrorView::ReadFile { path, source }),
        Ok(bytes) => if bytes.len() > max_bytes {
            Err(too_long(description, max_bytes))
        } else {
            Ok(bytes)
        },
    }
}

/// The meaning of an attempt to read a file.
pub open spec fn contents_view(contents: Result<SecretBytes, String>) -> Result<
    Seq<u8>,
    Seq<char>,
> {
    match contents {
        Ok(bytes) => Ok(bytes@),
        Err(source) => Err(source@),
    }
}

/// Takes over the contents of a private file, unless reading them failed or the file has grown too
/// long since it was checked.
pub fn read_private_file(
    path: &str,
    description: &str,
    max_bytes: usize,
    contents: Result<SecretBytes, String>,
) -> (r: Result<SecretBytes, Error>)
    ensures
        error::result_view(r) == private_contents(
            path@,
            description@,
            max_bytes,
            contents_view(contents),
        ),
{
    match contents {
        Err(source) => Err(Error::ReadFile { path: path.to_owned(), source }),
        Ok(bytes) => {
            if bytes.as_slice().len() > max_bytes {
                Err(too_long_error(description, max_bytes))
            } else {
                Ok(bytes)
            }
        },
    }
}

/// `std::str::from_utf8`: accepts exactly the bytes that are valid UTF-8, and gives the text that
/// they encode. What it tells of a refusal is dropped.
#[verifier::external_body]
pub(crate) fn text_from_utf8(bytes: &[u8]) -> (r: Option<&str>)
    ensures
        match r {
            Some(decoded) => utf8::valid_utf8(bytes@) && decoded@ == utf8::decode_utf8(bytes@),
            None => !utf8::valid_utf8(bytes@),
        },
{
    std::str::from_utf8(bytes).ok()
}

/// The text of a private file, or why it has none.
pub open spec fn private_text(description: Seq<char>, contents: Seq<u8>) -> Result<
    Seq<char>,
    ErrorView,
> {
    if utf8::valid_utf8(contents) {
        Ok(utf8::decode_utf8(contents))
    } else {
        Err(ErrorView::Config(description + " must contain UTF-8 text"@))
    }
}

/// The text of a private file.
pub fn read_private_text<'a>(description: &str, contents: &'a SecretBytes) -> (r: Result<
    &'a str,
    Error,
>)
    ensures
        error::result_view(r) == private_text(description@, contents@),
{
    match text_from_utf8(contents.as_slice()) {
        Some(decoded) => Ok(decoded),
        None => Err(Error::Config(join2(description, " must contain UTF-8 text"))),
    }
}

/// What is told of the file that is locked while a store is open.
pub open spec fn lock_file_check(facts: FileFacts) -> Result<(), ErrorView> {
    if facts.kind != FileKind::Regular {
        Err(ErrorView::Config("wallet store lock must be a regular file"@))
    } else {
        Ok(())
    }
}

/// Checks the file that is locked while a store is open.
pub fn check_lock_file(facts: &FileFacts) -> (r: Result<(), Error>)
    ensures
        error::result_view(r) == lock_file_check(*facts),
{
    if facts.kind != FileKind::Regular {
        Err(config_error("wallet store lock must be a regular file"))
    } else {
        Ok(())
    }
}

/// What is told where a store is locked already.
pub fn store_locked(root: &str, source: &str) -> (r: Error)
    ensures
        r@ == ErrorView::Config(
            "wallet store is already open by another process ("@ + root@ + "): "@ + source@,
        ),
{
    let mut message = join3("wallet store is already open by another process (", root, "): ");
    message.append(source);
    Error::Config(message)
}

} // verus!
