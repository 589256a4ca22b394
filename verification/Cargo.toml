[package]
name = "forest_filecoin"
version = "0.1.0"
edition = "2021"
publish = false

[dependencies]
anyhow = "=1.0.104"
cid = { version = "=0.11.3", default-features = false, features = ["std"] }
multihash = { version = "=0.19.5", default-features = false, features = ["std"] }
multihash-codetable = { version = "=0.2.2", features = ["blake2b"] }
fvm_ipld_encoding = "=0.5.4"
fvm_ipld_blockstore = "=0.3.2"
serde = { version = "=1.0.229", features = ["derive"] }
clap = { version = "=4.6.7", features = ["derive"] }
flume = "=0.11.1"
jsonrpc-v2 = { version = "=0.11.0", default-features = false, features = ["easy-errors", "bytes-v05"] }
