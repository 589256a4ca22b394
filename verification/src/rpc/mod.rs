//! Remote procedure calls on the node.

pub mod db_api;
pub mod gc_coordinator;
