//! The disk index: a map from 64-bit hash to on-disk location.
//!
//! Publication is guarded by sequence numbers: an insert only replaces an
//! address carrying a lower sequence, so an older entry can never overwrite a
//! newer one. The index stores no keys; a reader verifies the key after
//! decoding the frame the address points at.

use std::collections::HashMap;

use vstd::prelude::*;

verus! {

/// Where an entry lives on the device.
#[derive(Clone, Copy, Debug, PartialEq, Eq, Structural)]
pub struct EntryAddress {
    /// Region holding the frame.
    pub region: u32,
    /// Byte offset of the frame within the region.
    pub offset: u32,
    /// Length of the frame in bytes, before padding.
    pub len: u32,
    /// Sequence assigned when the entry was admitted to the write path.
    pub sequence: u64,
}

/// The state of the index after publishing `addr` under `hash`: the new
/// address wins only over a vacant slot or a strictly lower sequence.
pub open spec fn publish_spec(
    m: Map<u64, EntryAddress>,
    hash: u64,
    addr: EntryAddress,
) -> Map<u64, EntryAddress> {
    if m.contains_key(hash) && m[hash].sequence >= addr.sequence {
        m
    } else {
        m.insert(hash, addr)
    }
}

/// The concurrent map from hash to entry address.
pub struct Indexer {
    map: HashMap<u64, EntryAddress>,
}

impl Indexer {
    /// The mathematical view of the index.
    pub closed spec fn view(&self) -> Map<u64, EntryAddress> {
        self.map@
    }

    /// An empty index.
    pub fn new() -> (r: Indexer)
        ensures
            r@ == Map::<u64, EntryAddress>::empty(),
    {
        let r = Indexer { map: HashMap::new() };
        proof {
            assert(r@ =~= Map::<u64, EntryAddress>::empty());
        }
        r
    }

    /// Publish an address. The loser — the prior address if it was replaced,
    /// or the new one if it was rejected for carrying a sequence no higher
    /// than the present one — is returned so the caller can account its
    /// space as dead.
    pub fn insert(&mut self, hash: u64, addr: EntryAddress) -> (r: Option<EntryAddress>)
        ensures
            final(self)@ == publish_spec(old(self)@, hash, addr),
            !old(self)@.contains_key(hash) ==> r is None,
            old(self)@.contains_key(hash) && old(self)@[hash].sequence < addr.sequence ==> r
                == Some(old(self)@[hash]),
            old(self)@.contains_key(hash) && old(self)@[hash].sequence >= addr.sequence ==> r
                == Some(addr),
    {
        let prior = match self.map.get(&hash) {
            None => None,
            Some(p) => Some(*p),
        };
        match prior {
            None => {
                self.map.insert(hash, addr);
                None
            },
            Some(p) => {
                if p.sequence < addr.sequence {
                    self.map.insert(hash, addr);
                    Some(p)
                } else {
                    Some(addr)
                }
            },
        }
    }

    /// Look a hash up.
    pub fn get(&self, hash: u64) -> (r: Option<EntryAddress>)
        ensures
            r == if self@.contains_key(hash) {
                Some(self@[hash])
            } else {
                None::<EntryAddress>
            },
    {
        match self.map.get(&hash) {
            None => None,
            Some(p) => Some(*p),
        }
    }

    /// Remove a hash, returning the address it mapped to.
    pub fn remove(&mut self, hash: u64) -> (r: Option<EntryAddress>)
        ensures
            final(self)@ == old(self)@.remove(hash),
            r == if old(self)@.contains_key(hash) {
                Some(old(self)@[hash])
            } else {
                None::<EntryAddress>
            },
    {
        let prior = match self.map.get(&hash) {
            None => None,
            Some(p) => Some(*p),
        };
        self.map.remove(&hash);
        prior
    }

    /// How many hashes are indexed.
    pub fn len(&self) -> (r: usize)
        ensures
            r == self@.dom().len(),
    {
        self.map.len()
    }
}

/// Sequence monotonicity: a publish never replaces an address with one of a
/// lower or equal sequence — for every hash present before and after, the
/// stored sequence never decreases, and the published hash ends at least at
/// the new sequence if it changed at all.
pub proof fn lemma_sequence_monotone(m: Map<u64, EntryAddress>, hash: u64, addr: EntryAddress)
    ensures
        forall|h: u64|
            m.contains_key(h) ==> publish_spec(m, hash, addr).contains_key(h) && (#[trigger]
            publish_spec(m, hash, addr)[h]).sequence >= m[h].sequence,
{
}

} // verus!
