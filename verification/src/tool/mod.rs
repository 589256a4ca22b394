//! The node's companion tool.

pub mod subcommands;
