//! A store that stores nothing.
//!
//! Used when the disk tier is disabled: every write is refused, every lookup
//! misses, and all maintenance is a no-op.

use vstd::prelude::*;

use crate::frame::Compression;

verus! {

/// A writer that never admits its entry.
#[derive(Debug)]
pub struct NoneStoreWriter {
    /// The key the writer was opened for.
    pub key: u64,
}

impl NoneStoreWriter {
    /// Open a writer for a key.
    pub fn new(key: u64) -> (r: NoneStoreWriter)
        ensures
            r.key == key,
    {
        NoneStoreWriter { key }
    }

    /// The key the writer was opened for.
    pub fn writer_key(&self) -> (r: u64)
        ensures
            r == self.key,
    {
        self.key
    }

    /// Whether the entry is admitted: never.
    pub fn judge(&mut self) -> (r: bool)
        ensures
            r == false,
    {
        false
    }

    /// Force admission: still a no-op here.
    pub fn force(&mut self) {
    }

    /// Finish the write: nothing is stored.
    pub fn finish(self, value: Vec<u8>) -> (r: Option<(u64, Vec<u8>)>)
        ensures
            r is None,
    {
        let _ = value;
        None
    }

    /// The compression the writer would use.
    pub fn compression(&self) -> (r: Compression)
        ensures
            r == Compression::Plain,
    {
        Compression::Plain
    }

    /// Setting a compression has no effect.
    pub fn set_compression(&mut self, compression: Compression) {
        let _ = compression;
    }
}

/// The disabled disk store.
#[derive(Debug, Clone, Copy)]
pub struct NoneStore {}

impl NoneStore {
    /// Open the store.
    pub fn new() -> (r: NoneStore) {
        NoneStore {}
    }

    /// The store is always ready.
    pub fn is_ready(&self) -> (r: bool)
        ensures
            r,
    {
        true
    }

    /// Open a writer; it will refuse the entry.
    pub fn writer(&self, key: u64) -> (r: NoneStoreWriter)
        ensures
            r.key == key,
    {
        NoneStoreWriter::new(key)
    }

    /// Whether a key is present on disk: never.
    pub fn contains(&self, key: u64) -> (r: bool)
        ensures
            r == false,
    {
        let _ = key;
        false
    }

    /// Look a key up: always a miss.
    pub fn lookup(&self, key: u64) -> (r: Option<(u64, Vec<u8>)>)
        ensures
            r is None,
    {
        let _ = key;
        None
    }

    /// Remove a key: nothing was stored.
    pub fn remove(&self, key: u64) -> (r: bool)
        ensures
            r == false,
    {
        let _ = key;
        false
    }

    /// Clear the store: a no-op.
    pub fn clear(&self) {
    }
}

} // verus!
