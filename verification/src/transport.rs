//! How requests arrive and responses leave.

pub mod local;
pub mod mqtt;
