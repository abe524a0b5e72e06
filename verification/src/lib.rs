//! Core of a hybrid in-memory / on-disk cache engine.
//!
//! The in-memory tier is a sharded, policy-driven cache with reference-counted
//! handles and single-flight fetch coalescing. The disk tier is a log-structured,
//! region-based store: a batching flusher packs entry frames into aligned region
//! buffers, a compact index maps hashes to on-disk locations, and a scanner
//! rebuilds that index on recovery.

pub mod batch;
pub mod bits;
pub mod cache;
pub mod codec;
pub mod container;
pub mod context;
pub mod device;
pub mod eviction;
pub mod frame;
pub mod handle;
pub mod hashing;
pub mod indexer;
pub mod none;
pub mod region;
pub mod scanner;
pub mod setman;
pub mod shard;
pub mod store;
