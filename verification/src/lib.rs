//! The chain and state core of a Filecoin node: content identifiers and
//! their compact form, the store of immutable blobs and its streaming
//! archive, the chain store's head and the decisions of synchronization,
//! the garbage-collection request of the database, and the tool's
//! configuration rules.

pub mod archive;
pub mod chain;
pub mod chain_sync;
pub mod db;
pub mod rpc;
pub mod tool;
pub mod utils;
