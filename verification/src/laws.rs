//! What the operations are for: laws on what they take and what they give, stated on the fields and
//! texts themselves.
//!
//! A law speaks of every result that an operation may give on its arguments, and of nothing inside
//! the operation. It holds for all arguments that its premises admit.

pub mod config;
pub mod crypto;
pub mod envelope;
pub mod listing;
pub mod request;
pub mod response;
pub mod secret;
pub mod service;
pub mod store;
pub mod text;
pub mod transport;
