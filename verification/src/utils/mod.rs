//! Shared utilities.

pub mod cid;
