//! A local credential vault: a line-oriented record format for entries,
//! two crypto backends (a transparent framing for tests, and age
//! encryption), and the storage and orchestration rules around them.

pub mod age_backend;
pub mod cli;
pub mod crypto;
pub mod entry_id;
pub mod kvstore;
pub mod storage;
pub mod text;
pub mod transparent;
