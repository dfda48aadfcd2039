//! A deterministic password generator with an authenticated encrypted store.
//!
//! Passwords are derived from a memory-only master salt and a per-service
//! feature identifier; the catalog of identifiers can be persisted as plain
//! JSON or TOML text, or as an AES-256-GCM encrypted blob.

pub mod crypto;
pub mod codec;
pub mod models;
pub mod storage;
pub mod time;
