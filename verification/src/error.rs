//! What can go wrong, and how it is told.

use vstd::prelude::*;
use vstd::string::*;

use crate::text::{join2, join3};

verus! {

/// Every failure of the wallet.
#[derive(Debug)]
pub enum Error {
    /// The configuration, or what was found on disk in its place, is not acceptable.
    Config(String),
    /// A master key cannot be read or does not fit.
    InvalidMasterKey(String),
    /// A wallet key with this ID exists already.
    KeyExists(String),
    /// No wallet key has this ID.
    KeyNotFound(String),
    /// A private key is not acceptable.
    InvalidKey(String),
    /// A signing request breaks the protocol or the client policies.
    InvalidRequest(String),
    /// A signing request has expired.
    RequestExpired,
    /// A request ID was used for other signing data before.
    RequestConflict,
    /// A signing scheme is not supported.
    UnsupportedScheme(String),
    /// A cryptographic operation failed.
    Crypto(String),
    /// A file could not be read.
    ReadFile { path: String, source: String },
    /// A file could not be written.
    WriteFile { path: String, source: String },
    /// Any other input or output failed.
    Io(String),
    /// JSON could not be read or written.
    Json(String),
    /// The MQTT transport failed.
    Mqtt(String),
}

/// The meaning of an [`Error`].
pub enum ErrorView {
    Config(Seq<char>),
    InvalidMasterKey(Seq<char>),
    KeyExists(Seq<char>),
    KeyNotFound(Seq<char>),
    InvalidKey(Seq<char>),
    InvalidRequest(Seq<char>),
    RequestExpired,
    RequestConflict,
    UnsupportedScheme(Seq<char>),
    Crypto(Seq<char>),
    ReadFile { path: Seq<char>, source: Seq<char> },
    WriteFile { path: Seq<char>, source: Seq<char> },
    Io(Seq<char>),
    Json(Seq<char>),
    Mqtt(Seq<char>),
}

impl View for Error {
    type V = ErrorView;

    open spec fn view(&self) -> ErrorView {
        match self {
            Error::Config(m) => ErrorView::Config(m@),
            Error::InvalidMasterKey(m) => ErrorView::InvalidMasterKey(m@),
            Error::KeyExists(m) => ErrorView::KeyExists(m@),
            Error::KeyNotFound(m) => ErrorView::KeyNotFound(m@),
            Error::InvalidKey(m) => ErrorView::InvalidKey(m@),
            Error::InvalidRequest(m) => ErrorView::InvalidRequest(m@),
            Error::RequestExpired => ErrorView::RequestExpired,
            Error::RequestConflict => ErrorView::RequestConflict,
            Error::UnsupportedScheme(m) => ErrorView::UnsupportedScheme(m@),
            Error::Crypto(m) => ErrorView::Crypto(m@),
            Error::ReadFile { path, source } => ErrorView::ReadFile {
                path: path@,
                source: source@,
            },
            Error::WriteFile { path, source } => ErrorView::WriteFile {
                path: path@,
                source: source@,
            },
            Error::Io(m) => ErrorView::Io(m@),
            Error::Json(m) => ErrorView::Json(m@),
            Error::Mqtt(m) => ErrorView::Mqtt(m@),
        }
    }
}

impl Clone for Error {
    fn clone(&self) -> (r: Error)
        ensures
            r@ == self@,
    {
        match self {
            Error::Config(m) => Error::Config(m.clone()),
            Error::InvalidMasterKey(m) => Error::InvalidMasterKey(m.clone()),
            Error::KeyExists(m) => Error::KeyExists(m.clone()),
            Error::KeyNotFound(m) => Error::KeyNotFound(m.clone()),
            Error::InvalidKey(m) => Error::InvalidKey(m.clone()),
            Error::InvalidRequest(m) => Error::InvalidRequest(m.clone()),
            Error::RequestExpired => Error::RequestExpired,
            Error::RequestConflict => Error::RequestConflict,
            Error::UnsupportedScheme(m) => Error::UnsupportedScheme(m.clone()),
            Error::Crypto(m) => Error::Crypto(m.clone()),
            Error::ReadFile { path, source } => Error::ReadFile {
                path: path.clone(),
                source: source.clone(),
            },
            Error::WriteFile { path, source } => Error::WriteFile {
                path: path.clone(),
                source: source.clone(),
            },
            Error::Io(m) => Error::Io(m.clone()),
            Error::Json(m) => Error::Json(m.clone()),
            Error::Mqtt(m) => Error::Mqtt(m.clone()),
        }
    }
}

/// What is told of a failure.
pub open spec fn error_text(error: ErrorView) -> Seq<char> {
    match error {
        ErrorView::Config(m) => "configuration error: "@ + m,
        ErrorView::InvalidMasterKey(m) => "invalid master key: "@ + m,
        ErrorView::KeyExists(m) => "wallet key already exists: "@ + m,
        ErrorView::KeyNotFound(m) => "wallet key not found: "@ + m,
        ErrorView::InvalidKey(m) => "invalid wallet key: "@ + m,
        ErrorView::InvalidRequest(m) => "invalid signing request: "@ + m,
        ErrorView::RequestExpired => "signing request expired"@,
        ErrorView::RequestConflict => "request ID was reused for different signing data"@,
        ErrorView::UnsupportedScheme(m) => "unsupported signing scheme: "@ + m,
        ErrorView::Crypto(m) => "cryptographic operation failed: "@ + m,
        ErrorView::ReadFile { path, source } => "failed to read "@ + path + ": "@ + source,
        ErrorView::WriteFile { path, source } => "failed to write "@ + path + ": "@ + source,
        ErrorView::Io(m) => m,
        ErrorView::Json(m) => m,
        ErrorView::Mqtt(m) => "MQTT error: "@ + m,
    }
}

impl Error {
    /// What is told of this failure.
    pub fn message(&self) -> (r: String)
        ensures
            r@ == error_text(self@),
    {
        match self {
            Error::Config(m) => join2("configuration error: ", m.as_str()),
            Error::InvalidMasterKey(m) => join2("invalid master key: ", m.as_str()),
            Error::KeyExists(m) => join2("wallet key already exists: ", m.as_str()),
            Error::KeyNotFound(m) => join2("wallet key not found: ", m.as_str()),
            Error::InvalidKey(m) => join2("invalid wallet key: ", m.as_str()),
            Error::InvalidRequest(m) => join2("invalid signing request: ", m.as_str()),
            Error::RequestExpired => "signing request expired".to_owned(),
            Error::RequestConflict => "request ID was reused for different signing data".to_owned(),
            Error::UnsupportedScheme(m) => join2("unsupported signing scheme: ", m.as_str()),
            Error::Crypto(m) => join2("cryptographic operation failed: ", m.as_str()),
            Error::ReadFile { path, source } => {
                let mut r = join3("failed to read ", path.as_str(), ": ");
                r.append(source.as_str());
                r
            },
            Error::WriteFile { path, source } => {
                let mut r = join3("failed to write ", path.as_str(), ": ");
                r.append(source.as_str());
                r
            },
            Error::Io(m) => m.clone(),
            Error::Json(m) => m.clone(),
            Error::Mqtt(m) => join2("MQTT error: ", m.as_str()),
        }
    }
}

/// The meaning of a result whose value has a view.
pub open spec fn result_view<T: View>(r: Result<T, Error>) -> Result<T::V, ErrorView> {
    match r {
        Ok(value) => Ok(value@),
        Err(error) => Err(error@),
    }
}

/// The failure `Config` with a fixed text.
pub fn config_error(message: &str) -> (r: Error)
    ensures
        r@ == ErrorView::Config(message@),
{
    Error::Config(message.to_owned())
}

/// The failure `InvalidRequest` with a fixed text.
pub fn invalid_request(message: &str) -> (r: Error)
    ensures
        r@ == ErrorView::InvalidRequest(message@),
{
    Error::InvalidRequest(message.to_owned())
}

/// The failure `Crypto` with a fixed text.
pub fn crypto_error(message: &str) -> (r: Error)
    ensures
        r@ == ErrorView::Crypto(message@),
{
    Error::Crypto(message.to_owned())
}

} // verus!
