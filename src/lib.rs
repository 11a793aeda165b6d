//! Persistence layer of a wallet: a pluggable key-value store with optional
//! at-rest encryption, a schema-version gate and an account-index registry.
pub mod error;
pub mod adapter;
pub mod memory;
pub mod crypto;
pub mod storage;
pub mod records;
pub mod secret;
pub mod manager;
