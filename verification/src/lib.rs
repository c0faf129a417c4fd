//! A process-isolated signing service for Ethereum accounts.

pub mod cache;
pub mod config;
pub mod crypto;
pub mod directory;
pub mod encoding;
pub mod envelope;
pub mod error;
pub mod laws;
pub mod listing;
pub mod metadata;
pub mod primitives;
pub mod protocol;
pub mod record;
pub mod sealing;
pub mod secret;
pub mod service;
pub mod store;
pub mod text;
pub mod time;
pub mod transport;

pub use config::Config;
pub use error::Error;
pub use service::WalletService;
pub use store::EncryptedFileStore;
