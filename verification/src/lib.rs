//! Durability layer of a transaction-processing engine: record framing and
//! checksums, write-ahead-log segment naming and replay, batching windows,
//! checkpoints, and a fixed-capacity bump arena.

pub mod arena;
pub mod checkpoint;
pub mod codec;
pub mod naming;
pub mod streaming;
pub mod transaction;
pub mod wal;
pub mod window;
