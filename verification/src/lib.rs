//! Credential persistence and session lifecycle for a Bring! shopping-list
//! command-line client.
//!
//! The crate has two layers: a durable key-value store backed by a single
//! tab-delimited text file (`kv`, `database`), and a session manager that
//! decides on every invocation whether stored credentials are usable,
//! expired, or absent (`users`). String formatting helpers for the remote
//! list API live in `bring`.

pub mod bring;
pub mod codec;
pub mod database;
pub mod dec;
pub mod kv;
pub mod users;
