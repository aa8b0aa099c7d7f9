//! A local, single-user encrypted credential vault.
//!
//! The library derives a symmetric key from a master password, seals the
//! credential set with authenticated encryption, keeps exactly one durable
//! record, and guards reads and mutations behind a lock/unlock lifecycle.

pub mod codec;
pub mod crypto;
pub mod errors;
pub mod manager;
pub mod models;
pub mod repository;
pub mod storage;
