//! A time tracker whose state lives in a remote key-value store: the
//! credential lifecycle, the store's double-encoded values and status rules,
//! and the project and time-entry operations built on them, each stated in its
//! contract and proved.

pub mod auth;
pub mod entries;
pub mod error;
pub mod export;
pub mod kv;
pub mod logger;
pub mod projects;
pub mod tasks;
