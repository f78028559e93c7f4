//! A persistent key-value store with flat keys, counters, named maps and
//! named lists, all kept in one ordered byte-keyed tree, with optional
//! time-to-live on keys and collections.
//!
//! Every operation is stated over the tree's contents as a mathematical map
//! from byte strings to byte strings (see [`model`]); the engine itself is
//! reached through the few trusted declarations of [`engine`].

pub mod bytes;
pub mod keys;
pub mod arith;
pub mod ttl;
pub mod meta;
pub mod glob;
pub mod engine;
pub mod error;
pub mod model;
pub mod store;
pub mod db;
pub mod collection;
pub mod lists;
pub mod maps;
pub mod catalog;
pub mod scan;
pub mod reaper;
pub mod config;
pub mod registry;
pub mod laws;

pub use bytes::SplitSubslice;
pub use config::{init_db, temporary_db, Config};
pub use db::StorageDB;
pub use error::StorageError;
pub use lists::StorageList;
pub use maps::StorageMap;
pub use ttl::TimestampMillis;
