[package]
name = "txlog"
version = "0.1.0"
edition = "2021"
publish = false

[dependencies]
anyhow = "1"
bincode = "1"
bytes = "1"
crc32fast = "1"
crossbeam-skiplist = "0.1"
kanal = "0.1"
monoio = "0.2"
serde = { version = "1", features = ["derive"] }
serde_bytes = "0.11"
thiserror = "1"
tiny-keccak = { version = "2", features = ["sha3"] }
