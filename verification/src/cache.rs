//! The sharded in-memory cache.
//!
//! Keys are hashed; the hash picks the shard; each shard runs the indexer,
//! the eviction policy, the usage accounting and the single-flight registry
//! of `CacheShard`. Entries handed out are reference-counted handles; giving
//! one back runs the reinsert-or-release flow. Operations return the entries
//! they released so the embedder can run its listener outside any lock.

use vstd::prelude::*;

use crate::context::CacheContext;
use crate::eviction::{access_spec, EvictionConfig};
use crate::handle::{lemma_sum_pinned_zero, sum_charges};
use crate::hashing::{hash_key, key_hash};
use crate::shard::{released_charges, CacheShard, Released};

verus! {

/// Construction parameters of a cache.
pub struct CacheConfig {
    /// Total capacity, split evenly over the shards.
    pub capacity: usize,
    /// Number of shards; at least one.
    pub shards: usize,
    /// The eviction policy to run in every shard.
    pub eviction_config: EvictionConfig,
    /// Size hint for each shard's handle arena.
    pub object_pool_capacity: usize,
}

/// A reference-counted handle on a cached entry.
pub struct CacheEntry {
    /// The entry's key.
    pub key: u64,
    /// The key's hash, which fixes the shard.
    pub hash: u64,
    /// The shard holding the entry.
    pub shard: usize,
    /// The entry's arena slot within the shard.
    pub slot: usize,
}

/// What a `fetch` call decided.
pub enum Entry {
    /// A taken or moved placeholder; never returned by `fetch`.
    Invalid,
    /// The key was cached; the handle is ready.
    Hit(CacheEntry),
    /// Another caller is already loading this key; wait for its result.
    Wait,
    /// This caller opened the single-flight queue and must run the loader,
    /// then call `insert` (success) or `fetch_abort` (failure).
    Miss,
}

/// The result of an insert: the caller's handle, one handle per waiter that
/// was queued on the key, and the entries released by the insert.
pub struct InsertOutcome<V> {
    /// The caller's own handle.
    pub entry: CacheEntry,
    /// One handle for each single-flight waiter captured by this insert.
    pub waiter_entries: Vec<CacheEntry>,
    /// Entries that left the cache, for the release listener.
    pub released: Vec<Released<V>>,
}

/// The sharded cache.
pub struct Cache<V> {
    /// The shards.
    pub shards: Vec<CacheShard<V>>,
    /// Total capacity over all shards.
    pub capacity: usize,
}

/// Which shard a hash falls into.
pub open spec fn spec_shard_index(hash: u64, nshards: int) -> int {
    ((hash as usize) as int) % nshards
}

/// The shard a coarse pop inspects: the first shard of maximal usage among
/// the first `n`.
pub open spec fn spec_largest_upto<V>(s: Seq<CacheShard<V>>, n: int) -> int
    decreases n,
{
    if n <= 1 {
        0
    } else {
        let p = spec_largest_upto(s, n - 1);
        if s[n - 1].usage > s[p].usage {
            n - 1
        } else {
            p
        }
    }
}

/// Total usage over a sequence of shards.
pub open spec fn sum_usages<V>(s: Seq<CacheShard<V>>) -> int
    decreases s.len(),
{
    if s.len() == 0 {
        0
    } else {
        sum_usages(s.drop_last()) + s.last().usage
    }
}

impl<V> Cache<V> {
    /// Number of shards.
    pub open spec fn nshards(&self) -> int {
        self.shards@.len() as int
    }

    /// The shard a key lives in.
    pub open spec fn shard_for(&self, key: u64) -> int {
        spec_shard_index(key_hash(key), self.nshards())
    }

    /// A key is cached and reachable.
    pub open spec fn spec_contains(&self, key: u64) -> bool {
        self.shards@[self.shard_for(key)].contains(key)
    }

    /// The handle of a reachable key.
    pub open spec fn entry_of(&self, key: u64) -> crate::handle::Handle<V> {
        self.shards@[self.shard_for(key)].entry_of(key)
    }

    /// Total usage over the shards.
    pub open spec fn total_usage(&self) -> int {
        sum_usages(self.shards@)
    }

    /// The cache invariant: every shard is well formed, all shards share one
    /// policy kind and one capacity split, and every key sits in the shard
    /// its hash selects.
    pub open spec fn wf(&self) -> bool {
        &&& self.shards@.len() > 0
        &&& forall|j: int| 0 <= j < self.shards@.len() ==> (#[trigger] self.shards@[j]).wf()
        &&& forall|j: int|
            0 <= j < self.shards@.len() ==> (#[trigger] self.shards@[j]).capacity == (
            self.capacity as int) / (self.shards@.len() as int)
        &&& forall|j: int, k: u64|
            0 <= j < self.shards@.len() && (#[trigger] self.shards@[j].indexer@.contains_key(k))
                ==> spec_shard_index(key_hash(k), self.shards@.len() as int) == j
        &&& sum_usages(self.shards@) <= usize::MAX
    }

    /// A handle is consistent with the cache: it points at a live slot that
    /// carries its key and at least one external reference.
    pub open spec fn entry_valid(&self, e: CacheEntry) -> bool {
        &&& e.hash == key_hash(e.key)
        &&& e.shard == spec_shard_index(e.hash, self.nshards())
        &&& e.slot < self.shards@[e.shard as int].slots@.len()
        &&& self.shards@[e.shard as int].slots@[e.slot as int].live()
        &&& self.shards@[e.shard as int].slots@[e.slot as int].key == e.key
        &&& self.shards@[e.shard as int].slots@[e.slot as int].refs > 0
    }

    /// Build a cache from its configuration.
    pub fn new(config: CacheConfig) -> (r: Cache<V>)
        requires
            config.shards >= 1,
        ensures
            r.wf(),
            r.capacity == config.capacity,
            r.nshards() == config.shards,
            r.total_usage() == 0,
            forall|k: u64| !(#[trigger] r.spec_contains(k)),
            forall|j: int|
                0 <= j < r.nshards() ==> (#[trigger] r.shards@[j]).waiters@ == Map::<
                    u64,
                    usize,
                >::empty(),
            forall|j: int|
                0 <= j < r.nshards() ==> (#[trigger] r.shards@[j]).eviction@ == Seq::<
                    usize,
                >::empty(),
            forall|j: int|
                0 <= j < r.nshards() ==> (#[trigger] r.shards@[j]).eviction.is_lru() == (
                config.eviction_config is Lru),
            forall|j: int| 0 <= j < r.nshards() ==> (#[trigger] r.shards@[j]).usage == 0,
    {
        let shard_capacity = config.capacity / config.shards;
        let mut shards: Vec<CacheShard<V>> = Vec::new();
        let mut j: usize = 0;
        while j < config.shards
            invariant
                0 <= j <= config.shards,
                shards@.len() == j,
                forall|t: int| 0 <= t < j ==> (#[trigger] shards@[t]).wf(),
                forall|t: int|
                    0 <= t < j ==> (#[trigger] shards@[t]).capacity == shard_capacity,
                forall|t: int| 0 <= t < j ==> (#[trigger] shards@[t]).usage == 0,
                forall|t: int, k: u64|
                    0 <= t < j ==> !(#[trigger] shards@[t].indexer@.contains_key(k)),
                forall|t: int|
                    0 <= t < j ==> (#[trigger] shards@[t]).waiters@ == Map::<u64, usize>::empty(),
                forall|t: int|
                    0 <= t < j ==> (#[trigger] shards@[t]).eviction@ == Seq::<usize>::empty(),
                forall|t: int|
                    0 <= t < j ==> (#[trigger] shards@[t]).eviction.is_lru() == (
                    config.eviction_config is Lru),
                sum_usages(shards@) == 0,
            decreases config.shards - j,
        {
            let s = CacheShard::new(shard_capacity, &config.eviction_config);
            let ghost sh_pre = shards@;
            shards.push(s);
            proof {
                assert(shards@.drop_last() =~= sh_pre);
            }
            j = j + 1;
        }
        let r = Cache { shards, capacity: config.capacity };
        proof {
            assert(r.wf());
        }
        r
    }


    /// Insert an entry under the default context.
    pub fn insert(&mut self, key: u64, value: V, charge: usize) -> (r: InsertOutcome<V>)
        requires
            old(self).wf(),
            old(self).total_usage() + charge <= usize::MAX,
        ensures
            final(self).wf(),
            final(self).nshards() == old(self).nshards(),
            final(self).capacity == old(self).capacity,
            final(self).spec_contains(key),
            final(self).entry_of(key).value == Some(value),
            final(self).entry_of(key).charge == charge,
            final(self).entry_of(key).context == CacheContext::Default,
            final(self).entry_valid(r.entry),
            r.entry.key == key,
            final(self).total_usage() == old(self).total_usage() + charge - released_charges(
                r.released@,
            ),
            ({
                let j = old(self).shard_for(key);
                let w0 = old(self).shards@[j].waiters@;
                let count: int = if w0.contains_key(key) {
                    w0[key] as int
                } else {
                    0
                };
                &&& r.waiter_entries@.len() == count
                &&& (count < usize::MAX ==> final(self).entry_of(key).refs == 1 + count)
                &&& final(self).shards@[j].waiters@ == w0.remove(key)
            }),
            forall|t: int|
                0 <= t < old(self).nshards() && t != old(self).shard_for(key)
                    ==> #[trigger] final(self).shards@[t] == old(self).shards@[t],
            ({
                let j = old(self).shard_for(key);
                let s0 = old(self).shards@[j];
                let s1 = final(self).shards@[j];
                s0.usage + charge <= s0.capacity ==> {
                    &&& s1.eviction@ == (if s0.indexer@.contains_key(key) && s0.slots@[
                        s0.indexer@[key] as int].in_policy {
                        s0.eviction@.remove_value(s0.indexer@[key] as usize)
                    } else {
                        s0.eviction@
                    }).push(r.entry.slot)
                    &&& r.released@.len() <= 1
                    &&& forall|k: u64|
                        k != key && #[trigger] s0.indexer@.contains_key(k)
                            ==> s1.indexer@.contains_key(k) && s1.indexer@[k] == s0.indexer@[k]
                }
            }),
            forall|k: u64|
                k != key && #[trigger] old(self).spec_contains(k) && old(self).entry_of(k).refs
                    > 0 ==> final(self).spec_contains(k),
            forall|k: u64|
                k != key && #[trigger] final(self).spec_contains(k) ==> old(self).spec_contains(
                    k,
                ) && {
                    let h1 = final(self).entry_of(k);
                    let h0 = old(self).entry_of(k);
                    h1.value == h0.value && h1.charge == h0.charge && h1.refs == h0.refs
                },
    {
        self.insert_with_context(key, value, charge, CacheContext::Default)
    }

    /// Insert an entry: hash the key, capture any single-flight waiters on
    /// it, evict until the charge fits, replace an older entry under the same
    /// key, and hand out one reference to the caller plus one per waiter.
    pub fn insert_with_context(
        &mut self,
        key: u64,
        value: V,
        charge: usize,
        context: CacheContext,
    ) -> (r: InsertOutcome<V>)
        requires
            old(self).wf(),
            old(self).total_usage() + charge <= usize::MAX,
        ensures
            final(self).wf(),
            final(self).nshards() == old(self).nshards(),
            final(self).capacity == old(self).capacity,
            final(self).spec_contains(key),
            ({
                let h = final(self).entry_of(key);
                &&& h.value == Some(value)
                &&& h.charge == charge
                &&& h.context == context
                &&& h.key == key
                &&& h.refs == 1 + r.waiter_entries@.len() || h.refs == usize::MAX
            }),
            final(self).entry_valid(r.entry),
            r.entry.key == key,
            r.entry.slot == final(self).shards@[r.entry.shard as int].indexer@[key],
            forall|t: int|
                0 <= t < r.waiter_entries@.len() ==> #[trigger] r.waiter_entries@[t] == r.entry,
            ({
                let j = old(self).shard_for(key);
                let w0 = old(self).shards@[j].waiters@;
                let count: int = if w0.contains_key(key) {
                    w0[key] as int
                } else {
                    0
                };
                &&& r.waiter_entries@.len() == count
                &&& (count < usize::MAX ==> final(self).entry_of(key).refs == 1 + count)
                &&& final(self).shards@[j].waiters@ == w0.remove(key)
            }),
            forall|t: int|
                0 <= t < old(self).nshards() && t != old(self).shard_for(key)
                    ==> #[trigger] final(self).shards@[t] == old(self).shards@[t],
            ({
                let j = old(self).shard_for(key);
                let s0 = old(self).shards@[j];
                let s1 = final(self).shards@[j];
                s0.usage + charge <= s0.capacity ==> {
                    &&& s1.eviction@ == (if s0.indexer@.contains_key(key) && s0.slots@[
                        s0.indexer@[key] as int].in_policy {
                        s0.eviction@.remove_value(s0.indexer@[key] as usize)
                    } else {
                        s0.eviction@
                    }).push(r.entry.slot)
                    &&& r.released@.len() <= 1
                    &&& forall|k: u64|
                        k != key && #[trigger] s0.indexer@.contains_key(k)
                            ==> s1.indexer@.contains_key(k) && s1.indexer@[k] == s0.indexer@[k]
                }
            }),
            forall|k: u64|
                k != key && #[trigger] old(self).spec_contains(k) && old(self).entry_of(k).refs
                    > 0 ==> final(self).spec_contains(k),
            final(self).total_usage() == old(self).total_usage() + charge - released_charges(
                r.released@,
            ),
            forall|k: u64|
                k != key && #[trigger] final(self).spec_contains(k) ==> old(self).spec_contains(k) && {
                    let h1 = final(self).entry_of(k);
                    let h0 = old(self).entry_of(k);
                    h1.value == h0.value && h1.charge == h0.charge && h1.refs == h0.refs
                },
            forall|t: int|
                0 <= t < r.released@.len() ==> {
                    let item = #[trigger] r.released@[t];
                    &&& old(self).spec_contains(item.0)
                    &&& old(self).entry_of(item.0).value == Some(item.1)
                    &&& old(self).entry_of(item.0).context == item.2
                    &&& old(self).entry_of(item.0).charge == item.3
                    &&& old(self).entry_of(item.0).refs == 0
                },
    {
        let hash = hash_key(key);
        let nsh = self.shards.len();
        let j = (hash as usize) % nsh;
        proof {
            lemma_sum_usages_element(self.shards@, j as int);
        }
        let mut released: Vec<Released<V>> = Vec::new();
        let shard = &mut self.shards[j];
        let grant = shard.take_waiters(key);
        let i = shard.insert(key, hash, value, charge, context, grant, &mut released);
        proof {
            assert(released@.skip(0) =~= released@);
            crate::shard::lemma_released_charges_nonneg(released@);
            assert(self.shards@ =~= old(self).shards@.update(j as int, self.shards@[j as int]));
            lemma_sum_usages_update(old(self).shards@, j as int, self.shards@[j as int]);
            assert forall|jj: int, k: u64|
                0 <= jj < self.shards@.len() && (#[trigger] self.shards@[jj].indexer@.contains_key(
                    k,
                )) implies spec_shard_index(key_hash(k), self.shards@.len() as int) == jj by {
                if jj == j as int {
                    if k != key {
                        assert(old(self).shards@[jj].indexer@.contains_key(k));
                    }
                } else {
                    assert(old(self).shards@[jj].indexer@.contains_key(k));
                }
            }
            assert(self.wf());
        }
        let entry = CacheEntry { key, hash, shard: j, slot: i };
        let mut waiter_entries: Vec<CacheEntry> = Vec::new();
        let mut t: usize = 0;
        while t < grant
            invariant
                0 <= t <= grant,
                waiter_entries@.len() == t,
                forall|u: int|
                    0 <= u < t ==> #[trigger] waiter_entries@[u] == (CacheEntry {
                        key: key,
                        hash: hash,
                        shard: j,
                        slot: i,
                    }),
            decreases grant - t,
        {
            waiter_entries.push(CacheEntry { key, hash, shard: j, slot: i });
            t = t + 1;
        }
        InsertOutcome { entry, waiter_entries, released }
    }

    /// Look a key up; on a hit, take one more reference and notify the
    /// policy. A miss returns `None`, as does the unreachable case of a
    /// saturated reference count.
    pub fn get(&mut self, key: u64) -> (r: Option<CacheEntry>)
        requires
            old(self).wf(),
        ensures
            final(self).wf(),
            final(self).nshards() == old(self).nshards(),
            final(self).capacity == old(self).capacity,
            final(self).total_usage() == old(self).total_usage(),
            r is Some <==> old(self).spec_contains(key) && old(self).entry_of(key).refs < usize::MAX,
            r is Some ==> {
                let e = r->Some_0;
                let j = old(self).shard_for(key);
                let s0 = old(self).shards@[j];
                let s1 = final(self).shards@[j];
                let i = s0.slot_of(key);
                let h = s0.slots@[i];
                &&& final(self).entry_valid(e)
                &&& e.key == key
                &&& e.slot == i
                &&& final(self).spec_contains(key)
                &&& final(self).entry_of(key).value == old(self).entry_of(key).value
                &&& final(self).entry_of(key).charge == old(self).entry_of(key).charge
                &&& final(self).entry_of(key).refs == old(self).entry_of(key).refs + 1
                &&& s1.slots@ == s0.slots@.update(
                    i,
                    crate::handle::Handle { refs: (h.refs + 1) as usize, ..h },
                )
                &&& s1.indexer@ == s0.indexer@
                &&& s1.free@ == s0.free@
                &&& s1.eviction@ == access_spec(s0.eviction@, i as usize, s0.eviction.is_lru())
            },
            forall|t: int|
                0 <= t < old(self).nshards() && t != old(self).shard_for(key)
                    ==> #[trigger] final(self).shards@[t] == old(self).shards@[t],
            r is None ==> forall|k: u64|
                (#[trigger] final(self).spec_contains(k)) == old(self).spec_contains(k)
                    && (final(self).spec_contains(k) ==> final(self).entry_of(k) == old(self).entry_of(
                    k,
                )),
            forall|t: int|
                0 <= t < old(self).nshards() ==> (#[trigger] final(self).shards@[t]).waiters@
                    == old(self).shards@[t].waiters@,
            forall|k: u64|
                k != key && #[trigger] final(self).spec_contains(k) ==> old(self).spec_contains(k)
                    && final(self).entry_of(k) == old(self).entry_of(k),
    {
        let hash = hash_key(key);
        let nsh = self.shards.len();
        let j = (hash as usize) % nsh;
        let shard = &mut self.shards[j];
        let got = shard.get(key);
        let r = match got {
            None => None,
            Some(i) => Some(CacheEntry { key, hash, shard: j, slot: i }),
        };
        proof {
            assert(self.shards@ =~= old(self).shards@.update(j as int, self.shards@[j as int]));
            lemma_sum_usages_update(old(self).shards@, j as int, self.shards@[j as int]);
            assert forall|jj: int, k: u64|
                0 <= jj < self.shards@.len() && (#[trigger] self.shards@[jj].indexer@.contains_key(
                    k,
                )) implies spec_shard_index(key_hash(k), self.shards@.len() as int) == jj by {
                assert(old(self).shards@[jj].indexer@.contains_key(k));
            }
            assert(self.wf());
            if r is Some {
                assert(self.shards@[j as int].slots@[self.shards@[j as int].indexer@[key] as int].key
                    == key);
            }
        }
        r
    }

    /// Remove a key, handing the caller one reference on the removed entry:
    /// the key becomes unreachable at once, the entry leaves the policy and
    /// is never reinserted, and its charge stays accounted until the
    /// returned reference (and every clone) is given back.
    pub fn remove(&mut self, key: u64) -> (r: Option<CacheEntry>)
        requires
            old(self).wf(),
        ensures
            final(self).wf(),
            final(self).nshards() == old(self).nshards(),
            final(self).capacity == old(self).capacity,
            final(self).total_usage() == old(self).total_usage(),
            r is Some <==> old(self).spec_contains(key) && old(self).entry_of(key).refs
                < usize::MAX,
            r is Some ==> {
                let e = r->Some_0;
                let j = old(self).shard_for(key);
                let i = old(self).shards@[j].slot_of(key);
                let h = old(self).shards@[j].slots@[i];
                &&& final(self).entry_valid(e)
                &&& e.key == key
                &&& e.slot == i
                &&& !final(self).spec_contains(key)
                &&& final(self).shards@[j].slots@[i].value == h.value
                &&& final(self).shards@[j].slots@[i].charge == h.charge
                &&& final(self).shards@[j].slots@[i].refs == h.refs + 1
                &&& final(self).shards@[j].indexer@ == old(self).shards@[j].indexer@.remove(key)
                &&& final(self).shards@[j].eviction@ == if h.in_policy {
                    old(self).shards@[j].eviction@.remove_value(i as usize)
                } else {
                    old(self).shards@[j].eviction@
                }
                &&& final(self).shards@[j].waiters@ == old(self).shards@[j].waiters@
            },
            r is None ==> forall|k: u64|
                (#[trigger] final(self).spec_contains(k)) == old(self).spec_contains(k) && (
                final(self).spec_contains(k) ==> final(self).entry_of(k) == old(self).entry_of(
                    k,
                )),
            forall|t: int|
                0 <= t < old(self).nshards() && t != old(self).shard_for(key)
                    ==> #[trigger] final(self).shards@[t] == old(self).shards@[t],
    {
        let hash = hash_key(key);
        let nsh = self.shards.len();
        let j = (hash as usize) % nsh;
        let shard = &mut self.shards[j];
        let got = shard.remove(key);
        proof {
            assert(self.shards@ =~= old(self).shards@.update(j as int, self.shards@[j as int]));
            lemma_sum_usages_update(old(self).shards@, j as int, self.shards@[j as int]);
            assert forall|jj: int, k: u64|
                0 <= jj < self.shards@.len() && (#[trigger] self.shards@[jj].indexer@.contains_key(
                    k,
                )) implies spec_shard_index(key_hash(k), self.shards@.len() as int) == jj by {
                assert(old(self).shards@[jj].indexer@.contains_key(k));
            }
            assert(self.wf());
            if old(self).spec_contains(key) {
                assert(old(self).shards@[j as int].indexer@.contains_key(key));
            } else {
                assert(!old(self).shards@[j as int].indexer@.contains_key(key));
            }
        }
        match got {
            None => None,
            Some(i) => Some(CacheEntry { key, hash, shard: j, slot: i }),
        }
    }

    /// Give back one reference on an entry. On the last reference the
    /// reinsert-or-release flow runs: the entry is kept when the policy
    /// re-admits it within capacity, and released otherwise; a released
    /// entry is returned for the listener.
    pub fn release(&mut self, e: CacheEntry) -> (r: Option<Released<V>>)
        requires
            old(self).wf(),
            old(self).entry_valid(e),
        ensures
            final(self).wf(),
            final(self).nshards() == old(self).nshards(),
            final(self).capacity == old(self).capacity,
            forall|t: int|
                0 <= t < old(self).nshards() && t != e.shard ==> #[trigger] final(self).shards@[t]
                    == old(self).shards@[t],
            final(self).shards@[e.shard as int].waiters@ == old(
                self,
            ).shards@[e.shard as int].waiters@,
            final(self).shards@[e.shard as int].capacity == old(
                self,
            ).shards@[e.shard as int].capacity,
            final(self).shards@[e.shard as int].eviction.is_lru() == old(
                self,
            ).shards@[e.shard as int].eviction.is_lru(),
            ({
                let h = old(self).shards@[e.shard as int].slots@[e.slot as int];
                let s0 = old(self).shards@[e.shard as int];
                r is Some <==> h.refs == 1 && !(h.in_indexer && s0.usage <= s0.capacity && (
                h.in_policy || s0.eviction.is_lru()))
            }),
            ({
                let i = e.slot as int;
                let s0 = old(self).shards@[e.shard as int];
                let s1 = final(self).shards@[e.shard as int];
                let h = s0.slots@[i];
                let hd = crate::handle::Handle { refs: (h.refs - 1) as usize, ..h };
                &&& (h.refs > 1 ==> r is None && s1.slots@ == s0.slots@.update(i, hd)
                    && s1.indexer@ == s0.indexer@ && s1.eviction@ == s0.eviction@ && s1.usage
                    == s0.usage && s1.free@ == s0.free@)
                &&& (h.refs == 1 && r is None ==> {
                    &&& s1.usage == s0.usage
                    &&& s1.indexer@ == s0.indexer@
                    &&& s1.free@ == s0.free@
                    &&& h.in_indexer
                    &&& s0.usage <= s0.capacity
                    &&& (h.in_policy ==> s1.slots@ == s0.slots@.update(i, hd) && s1.eviction@
                        == access_spec(s0.eviction@, e.slot, s0.eviction.is_lru()))
                    &&& (!h.in_policy ==> s1.slots@ == s0.slots@.update(
                        i,
                        crate::handle::Handle { in_policy: true, ..hd },
                    ) && s1.eviction@ == s0.eviction@.push(e.slot))
                })
                &&& (r is Some ==> {
                    &&& h.refs == 1
                    &&& r == Some((h.key, h.value->Some_0, h.context, h.charge))
                    &&& s1.usage == s0.usage - h.charge
                    &&& s1.indexer@ == if h.in_indexer {
                        s0.indexer@.remove(h.key)
                    } else {
                        s0.indexer@
                    }
                    &&& !s1.slots@[i].live()
                    &&& forall|jj: int|
                        0 <= jj < s0.slots@.len() && jj != i ==> s1.slots@[jj] == s0.slots@[jj]
                    &&& s1.eviction@ == if h.in_policy {
                        s0.eviction@.remove_value(e.slot)
                    } else {
                        s0.eviction@
                    }
                    &&& s1.free@ == s0.free@.push(e.slot)
                })
            }),
            ({
                let h = old(self).shards@[e.shard as int].slots@[e.slot as int];
                &&& (r is Some ==> final(self).total_usage() == old(self).total_usage()
                    - h.charge)
                &&& (r is None ==> final(self).total_usage() == old(self).total_usage())
            }),
    {
        let j = e.shard;
        let shard = &mut self.shards[j];
        let r = shard.release_external(e.slot);
        proof {
            assert(self.shards@ =~= old(self).shards@.update(j as int, self.shards@[j as int]));
            lemma_sum_usages_update(old(self).shards@, j as int, self.shards@[j as int]);
            assert forall|jj: int, k: u64|
                0 <= jj < self.shards@.len() && (#[trigger] self.shards@[jj].indexer@.contains_key(
                    k,
                )) implies spec_shard_index(key_hash(k), self.shards@.len() as int) == jj by {
                assert(old(self).shards@[jj].indexer@.contains_key(k));
            }
            assert(self.wf());
        }
        r
    }

    /// Take one more reference on an entry.
    pub fn clone_entry(&mut self, e: &CacheEntry) -> (r: CacheEntry)
        requires
            old(self).wf(),
            old(self).entry_valid(*e),
            old(self).shards@[e.shard as int].slots@[e.slot as int].refs < usize::MAX,
        ensures
            final(self).wf(),
            final(self).nshards() == old(self).nshards(),
            final(self).capacity == old(self).capacity,
            final(self).total_usage() == old(self).total_usage(),
            r == *e,
            final(self).entry_valid(r),
            final(self).shards@[e.shard as int].slots@[e.slot as int].refs == old(
                self,
            ).shards@[e.shard as int].slots@[e.slot as int].refs + 1,
    {
        let j = e.shard;
        let i = e.slot;
        let shard = &mut self.shards[j];
        proof {
            assert(shard.slots@[i as int].refs > 0);
        }
        shard.slots[i].refs = shard.slots[i].refs + 1;
        proof {
            let hp = shard.slots@[i as int];
            assert(shard.slots@ =~= old(self).shards@[j as int].slots@.update(i as int, hp));
            crate::handle::lemma_sums_update(
                old(self).shards@[j as int].slots@,
                i as int,
                hp,
            );
            assert(shard.wf());
        }
        proof {
            assert(self.shards@ =~= old(self).shards@.update(j as int, self.shards@[j as int]));
            lemma_sum_usages_update(old(self).shards@, j as int, self.shards@[j as int]);
            assert forall|jj: int, k: u64|
                0 <= jj < self.shards@.len() && (#[trigger] self.shards@[jj].indexer@.contains_key(
                    k,
                )) implies spec_shard_index(key_hash(k), self.shards@.len() as int) == jj by {
                assert(old(self).shards@[jj].indexer@.contains_key(k));
            }
            assert(self.wf());
        }
        CacheEntry { key: e.key, hash: e.hash, shard: e.shard, slot: e.slot }
    }


    /// Whether a key is cached, without touching it.
    pub fn contains(&self, key: u64) -> (r: bool)
        requires
            self.wf(),
        ensures
            r == self.spec_contains(key),
    {
        let hash = hash_key(key);
        let nsh = self.shards.len();
        let j = (hash as usize) % nsh;
        self.shards[j].contains_key(key)
    }

    /// Touch a key: the policy sees an access, no reference is taken.
    /// Returns whether the key is cached.
    pub fn touch(&mut self, key: u64) -> (r: bool)
        requires
            old(self).wf(),
        ensures
            final(self).wf(),
            final(self).nshards() == old(self).nshards(),
            final(self).capacity == old(self).capacity,
            final(self).total_usage() == old(self).total_usage(),
            r == old(self).spec_contains(key),
            forall|k: u64|
                (#[trigger] final(self).spec_contains(k)) == old(self).spec_contains(k) && (
                final(self).spec_contains(k) ==> final(self).entry_of(k) == old(self).entry_of(
                    k,
                )),
            forall|t: int|
                0 <= t < old(self).nshards() && t != old(self).shard_for(key)
                    ==> #[trigger] final(self).shards@[t] == old(self).shards@[t],
            r ==> final(self).shards@[old(self).shard_for(key)].eviction@ == access_spec(
                old(self).shards@[old(self).shard_for(key)].eviction@,
                old(self).shards@[old(self).shard_for(key)].slot_of(key) as usize,
                old(self).shards@[old(self).shard_for(key)].eviction.is_lru(),
            ),
            !r ==> final(self).shards@[old(self).shard_for(key)].eviction@ == old(
                self,
            ).shards@[old(self).shard_for(key)].eviction@,
    {
        let hash = hash_key(key);
        let nsh = self.shards.len();
        let j = (hash as usize) % nsh;
        let shard = &mut self.shards[j];
        let r = shard.touch(key);
        proof {
            assert(self.shards@ =~= old(self).shards@.update(j as int, self.shards@[j as int]));
            lemma_sum_usages_update(old(self).shards@, j as int, self.shards@[j as int]);
            assert forall|jj: int, k: u64|
                0 <= jj < self.shards@.len() && (#[trigger] self.shards@[jj].indexer@.contains_key(
                    k,
                )) implies spec_shard_index(key_hash(k), self.shards@.len() as int) == jj by {
                assert(old(self).shards@[jj].indexer@.contains_key(k));
            }
            assert(self.wf());
        }
        r
    }


    /// Pop a victim from the shard with the largest usage, handing the
    /// caller a reference on it. Mirrors a coarse eviction that inspects one
    /// shard at a time. Returns `None` when every shard is empty of charge,
    /// when the chosen shard's policy holds no victim, or on a saturated
    /// reference count.
    pub fn pop_corase(&mut self) -> (r: Option<CacheEntry>)
        requires
            old(self).wf(),
        ensures
            final(self).wf(),
            final(self).nshards() == old(self).nshards(),
            final(self).capacity == old(self).capacity,
            final(self).total_usage() == old(self).total_usage(),
            r is Some ==> final(self).entry_valid(r->Some_0) && !final(self).spec_contains(
                r->Some_0.key,
            ),
            ({
                let ll = spec_largest_upto(old(self).shards@, old(self).nshards());
                let s0 = old(self).shards@[ll];
                &&& (r is None <==> s0.usage == 0 || s0.eviction@.len() == 0 || s0.slots@[
                    s0.eviction@[0] as int].refs == usize::MAX)
                &&& (s0.usage == 0 ==> final(self).shards@ == old(self).shards@)
                &&& (forall|t: int|
                    0 <= t < old(self).nshards() && t != ll ==> #[trigger] final(self).shards@[t]
                        == old(self).shards@[t])
                &&& (r is Some ==> {
                    let i = s0.eviction@[0] as int;
                    let h = s0.slots@[i];
                    let s1 = final(self).shards@[ll];
                    &&& r->Some_0.key == h.key
                    &&& r->Some_0.slot == i
                    &&& s1.eviction@ == s0.eviction@.drop_first()
                    &&& s1.indexer@ == s0.indexer@.remove(h.key)
                    &&& s1.slots@ == s0.slots@.update(
                        i,
                        crate::handle::Handle {
                            refs: (h.refs + 1) as usize,
                            in_indexer: false,
                            in_policy: false,
                            ..h
                        },
                    )
                })
            }),
    {
        let n = self.shards.len();
        let mut largest: usize = 0;
        let mut largest_usage: usize = 0;
        let mut j: usize = 0;
        while j < n
            invariant
                self.wf(),
                *self == *old(self),
                n == self.shards@.len(),
                0 <= j <= n,
                largest < n,
                j >= 1 ==> largest == spec_largest_upto(self.shards@, j as int),
                j >= 1 ==> largest_usage == self.shards@[largest as int].usage,
                j == 0 ==> largest == 0 && largest_usage == 0,
            decreases n - j,
        {
            if self.shards[j].usage > largest_usage {
                largest = j;
                largest_usage = self.shards[j].usage;
            }
            j = j + 1;
        }
        if largest_usage == 0 {
            return None;
        }
        let shard = &mut self.shards[largest];
        let popped = shard.pop();
        proof {
            assert(self.shards@ =~= old(self).shards@.update(
                largest as int,
                self.shards@[largest as int],
            ));
            lemma_sum_usages_update(old(self).shards@, largest as int, self.shards@[largest as int]);
            assert forall|jj: int, k: u64|
                0 <= jj < self.shards@.len() && (#[trigger] self.shards@[jj].indexer@.contains_key(
                    k,
                )) implies spec_shard_index(key_hash(k), self.shards@.len() as int) == jj by {
                assert(old(self).shards@[jj].indexer@.contains_key(k));
            }
            assert(self.wf());
        }
        match popped {
            None => None,
            Some(i) => {
                let key = self.shards[largest].slots[i].key;
                let hash = hash_key(key);
                proof {
                    let i0 = old(self).shards@[largest as int].eviction@[0] as int;
                    let h0 = old(self).shards@[largest as int].slots@[i0];
                    assert(h0.in_indexer);
                    assert(old(self).shards@[largest as int].indexer@.contains_key(h0.key));
                    assert(spec_shard_index(key_hash(key), self.shards@.len() as int)
                        == largest);
                    if self.spec_contains(key) {
                        assert(self.shards@[largest as int].indexer@.contains_key(key));
                    }
                }
                Some(CacheEntry { key, hash, shard: largest, slot: i })
            },
        }
    }

    /// Whether a fetch of this key would have to run the loader: it is not
    /// cached and nobody is loading it.
    pub open spec fn loader_would_run(&self, key: u64) -> bool {
        &&& !self.spec_contains(key)
        &&& !self.shards@[self.shard_for(key)].waiters@.contains_key(key)
    }

    /// Decide a fetch: a cached key is a hit (with a reference taken); else
    /// the caller either joins the single-flight queue (`Wait`) or opens it
    /// and must run the loader (`Miss`).
    pub fn fetch(&mut self, key: u64) -> (r: Entry)
        requires
            old(self).wf(),
        ensures
            final(self).wf(),
            final(self).nshards() == old(self).nshards(),
            final(self).capacity == old(self).capacity,
            final(self).total_usage() == old(self).total_usage(),
            r is Hit <==> old(self).spec_contains(key) && old(self).entry_of(key).refs
                < usize::MAX,
            r is Hit ==> final(self).entry_valid(r->Hit_0) && r->Hit_0.key == key
                && final(self).entry_of(key).refs == old(self).entry_of(key).refs + 1,
            r is Miss <==> !(old(self).spec_contains(key) && old(self).entry_of(key).refs
                < usize::MAX) && !old(self).shards@[old(self).shard_for(
                key,
            )].waiters@.contains_key(key),
            old(self).loader_would_run(key) && !old(self).spec_contains(key) ==> r is Miss,
            r is Miss ==> final(self).shards@[final(self).shard_for(
                key,
            )].waiters@.contains_key(key),
            !(r is Invalid),
            r is Wait || r is Miss ==> !final(self).loader_would_run(key),
    {
        let got = self.get(key);
        let ghost mid = *self;
        match got {
            Some(e) => Entry::Hit(e),
            None => {
                let hash = hash_key(key);
                let nsh = self.shards.len();
                let j = (hash as usize) % nsh;
                let shard = &mut self.shards[j];
                let miss = shard.fetch_queue(key);
                proof {
                    assert(self.shards@ =~= mid.shards@.update(j as int, self.shards@[j as int]));
                    lemma_sum_usages_update(mid.shards@, j as int, self.shards@[j as int]);
                    assert forall|jj: int, k: u64|
                        0 <= jj < self.shards@.len() && (
                        #[trigger] self.shards@[jj].indexer@.contains_key(k)) implies
                        spec_shard_index(key_hash(k), self.shards@.len() as int) == jj by {
                        assert(mid.shards@[jj].indexer@.contains_key(k));
                    }
                    assert(self.wf());
                }
                if miss {
                    Entry::Miss
                } else {
                    Entry::Wait
                }
            },
        }
    }

    /// Drop the single-flight queue for a key after the loader failed, so
    /// that later callers retry.
    pub fn fetch_abort(&mut self, key: u64)
        requires
            old(self).wf(),
        ensures
            final(self).wf(),
            final(self).nshards() == old(self).nshards(),
            final(self).capacity == old(self).capacity,
            final(self).total_usage() == old(self).total_usage(),
            final(self).loader_would_run(key) == !final(self).spec_contains(key),
    {
        let hash = hash_key(key);
        let nsh = self.shards.len();
        let j = (hash as usize) % nsh;
        let shard = &mut self.shards[j];
        shard.abort_fetch(key);
        proof {
            assert(self.shards@ =~= old(self).shards@.update(j as int, self.shards@[j as int]));
            lemma_sum_usages_update(old(self).shards@, j as int, self.shards@[j as int]);
            assert forall|jj: int, k: u64|
                0 <= jj < self.shards@.len() && (#[trigger] self.shards@[jj].indexer@.contains_key(
                    k,
                )) implies spec_shard_index(key_hash(k), self.shards@.len() as int) == jj by {
                assert(old(self).shards@[jj].indexer@.contains_key(k));
            }
            assert(self.wf());
        }
    }

    /// Drain the cache; entries still referenced stay live but unreachable.
    /// Returns the released entries for the listener.
    pub fn clear(&mut self) -> (released: Vec<Released<V>>)
        requires
            old(self).wf(),
        ensures
            final(self).wf(),
            final(self).nshards() == old(self).nshards(),
            final(self).capacity == old(self).capacity,
            forall|k: u64| !(#[trigger] final(self).spec_contains(k)),
            final(self).total_usage() == old(self).total_usage() - released_charges(released@),
            forall|t: int|
                0 <= t < released@.len() ==> {
                    let item = #[trigger] released@[t];
                    &&& old(self).spec_contains(item.0)
                    &&& old(self).entry_of(item.0).value == Some(item.1)
                    &&& old(self).entry_of(item.0).context == item.2
                    &&& old(self).entry_of(item.0).charge == item.3
                    &&& old(self).entry_of(item.0).refs == 0
                },
            forall|t1: int, t2: int|
                0 <= t1 < t2 < released@.len()
                    ==> (#[trigger] released@[t1]).0 != (#[trigger] released@[t2]).0,
    {
        let mut released: Vec<Released<V>> = Vec::new();
        let n = self.shards.len();
        let mut j: usize = 0;
        while j < n
            invariant
                self.wf(),
                n == self.shards@.len(),
                n == old(self).nshards(),
                self.capacity == old(self).capacity,
                0 <= j <= n,
                forall|t: int, k: u64|
                    0 <= t < j ==> !(#[trigger] self.shards@[t].indexer@.contains_key(k)),
                self.total_usage() + released_charges(released@) == old(self).total_usage(),
                old(self).wf(),
                forall|t: int|
                    j <= t < n ==> #[trigger] self.shards@[t] == old(self).shards@[t],
                forall|t: int|
                    0 <= t < released@.len() ==> {
                        let item = #[trigger] released@[t];
                        &&& old(self).spec_contains(item.0)
                        &&& old(self).entry_of(item.0).value == Some(item.1)
                        &&& old(self).entry_of(item.0).context == item.2
                        &&& old(self).entry_of(item.0).charge == item.3
                        &&& old(self).entry_of(item.0).refs == 0
                        &&& old(self).shard_for(item.0) < j
                    },
                forall|t1: int, t2: int|
                    0 <= t1 < t2 < released@.len()
                        ==> (#[trigger] released@[t1]).0 != (#[trigger] released@[t2]).0,
            decreases n - j,
        {
            let ghost pre = *self;
            let ghost rel_pre = released@;
            let shard = &mut self.shards[j];
            shard.clear(&mut released);
            proof {
                assert(self.shards@ =~= pre.shards@.update(j as int, self.shards@[j as int]));
                lemma_sum_usages_update(pre.shards@, j as int, self.shards@[j as int]);
                assert forall|jj: int, k: u64|
                    0 <= jj < self.shards@.len() && (
                    #[trigger] self.shards@[jj].indexer@.contains_key(k)) implies
                    spec_shard_index(key_hash(k), self.shards@.len() as int) == jj by {
                    assert(pre.shards@[jj].indexer@.contains_key(k));
                }
                crate::shard::lemma_released_charges_nonneg(
                    released@.skip(rel_pre.len() as int),
                );
                lemma_released_charges_split(released@, rel_pre.len() as int);
                assert(released@.subrange(0, rel_pre.len() as int) =~= rel_pre);
                assert(self.wf());
                assert forall|t: int|
                    rel_pre.len() <= t < released@.len() implies {
                    let item = #[trigger] released@[t];
                    &&& old(self).spec_contains(item.0)
                    &&& old(self).entry_of(item.0).value == Some(item.1)
                    &&& old(self).entry_of(item.0).context == item.2
                    &&& old(self).entry_of(item.0).charge == item.3
                    &&& old(self).entry_of(item.0).refs == 0
                    &&& old(self).shard_for(item.0) == j
                } by {
                    let item = released@[t];
                    assert(pre.shards@[j as int] == old(self).shards@[j as int]);
                    assert(old(self).shards@[j as int].indexer@.contains_key(item.0));
                    assert(spec_shard_index(key_hash(item.0), old(self).shards@.len() as int)
                        == j);
                }
                assert forall|t: int|
                    0 <= t < rel_pre.len() implies (#[trigger] released@[t]) == rel_pre[t] by {
                    assert(released@.subrange(0, rel_pre.len() as int)[t] == rel_pre[t]);
                }
            }
            j = j + 1;
        }
        proof {
            assert forall|k: u64| !(#[trigger] self.spec_contains(k)) by {
                let t = self.shard_for(k);
            }
        }
        released
    }

    /// Total capacity.
    pub fn capacity(&self) -> (r: usize)
        ensures
            r == self.capacity,
    {
        self.capacity
    }

    /// Total charge held by live entries, over all shards.
    pub fn usage(&self) -> (r: usize)
        requires
            self.wf(),
        ensures
            r == self.total_usage(),
    {
        let n = self.shards.len();
        let mut total: usize = 0;
        let mut j: usize = 0;
        while j < n
            invariant
                self.wf(),
                n == self.shards@.len(),
                0 <= j <= n,
                total == sum_usages(self.shards@.subrange(0, j as int)),
            decreases n - j,
        {
            proof {
                assert(self.shards@.subrange(0, j + 1).drop_last() =~= self.shards@.subrange(
                    0,
                    j as int,
                ));
                lemma_sum_usages_prefix(self.shards@, j + 1);
                lemma_sum_usages_bound(self.shards@.subrange(0, j + 1));
            }
            total = add_usage(total, self.shards[j].usage);
            j = j + 1;
        }
        proof {
            assert(self.shards@.subrange(0, n as int) =~= self.shards@);
        }
        total
    }
}

/// Add a shard's usage to a running total.
///
/// The callers establish that the sum of all shard usages fits in `usize`
/// through `lemma_sum_usages_bound`, so the addition cannot overflow.
fn add_usage(total: usize, usage: usize) -> (r: usize)
    requires
        total + usage <= usize::MAX,
    ensures
        r == total + usage,
{
    total + usage
}

/// Every prefix sum of shard usages is bounded by the full sum, and the sum
/// of non-negative terms is non-negative.
pub proof fn lemma_sum_usages_bound<V>(s: Seq<CacheShard<V>>)
    ensures
        sum_usages(s) >= 0,
        s.len() > 0 ==> sum_usages(s) >= sum_usages(s.drop_last()),
    decreases s.len(),
{
    if s.len() > 0 {
        lemma_sum_usages_bound(s.drop_last());
    }
}

/// A prefix of the shards never holds more usage than all of them.
pub proof fn lemma_sum_usages_prefix<V>(s: Seq<CacheShard<V>>, j: int)
    requires
        0 <= j <= s.len(),
    ensures
        sum_usages(s.subrange(0, j)) <= sum_usages(s),
    decreases s.len() - j,
{
    if j == s.len() {
        assert(s.subrange(0, j) =~= s);
    } else {
        lemma_sum_usages_prefix(s, j + 1);
        assert(s.subrange(0, j + 1).drop_last() =~= s.subrange(0, j));
        lemma_sum_usages_bound(s.subrange(0, j + 1));
    }
}


impl CacheEntry {
    /// The entry's key.
    pub fn entry_key(&self) -> (r: u64)
        ensures
            r == self.key,
    {
        self.key
    }

    /// The cached value this handle pins.
    pub fn value<'a, V>(&self, cache: &'a Cache<V>) -> (r: &'a V)
        requires
            cache.wf(),
            cache.entry_valid(*self),
        ensures
            *r == cache.shards@[self.shard as int].slots@[self.slot as int].value->Some_0,
    {
        cache.shards[self.shard].slots[self.slot].value.as_ref().unwrap()
    }

    /// The context the entry was inserted with.
    pub fn context<V>(&self, cache: &Cache<V>) -> (r: CacheContext)
        requires
            cache.wf(),
            cache.entry_valid(*self),
        ensures
            r == cache.shards@[self.shard as int].slots@[self.slot as int].context,
    {
        cache.shards[self.shard].slots[self.slot].context
    }

    /// The charge accounted for the entry.
    pub fn charge<V>(&self, cache: &Cache<V>) -> (r: usize)
        requires
            cache.wf(),
            cache.entry_valid(*self),
        ensures
            r == cache.shards@[self.shard as int].slots@[self.slot as int].charge,
    {
        cache.shards[self.shard].slots[self.slot].charge
    }

    /// How many external references the entry currently has.
    pub fn refs<V>(&self, cache: &Cache<V>) -> (r: usize)
        requires
            cache.wf(),
            cache.entry_valid(*self),
        ensures
            r == cache.shards@[self.shard as int].slots@[self.slot as int].refs,
    {
        cache.shards[self.shard].slots[self.slot].refs
    }
}

impl<V: Clone> Cache<V> {
    /// The entries of one shard as its policy orders them, next victim
    /// first. Keys are exact; values are clones of the cached ones.
    pub fn dump(&self, shard: usize) -> (r: Vec<(u64, V)>)
        requires
            self.wf(),
            shard < self.shards@.len(),
        ensures
            r@.len() == self.shards@[shard as int].eviction@.len(),
            forall|j: int|
                0 <= j < r@.len() ==> (#[trigger] r@[j]).0 == self.shards@[shard as int].slots@[
                    self.shards@[shard as int].eviction@[j] as int].key,
    {
        self.shards[shard].dump()
    }
}

/// No live entry of any shard is externally referenced.
pub open spec fn no_external_refs<V>(c: &Cache<V>) -> bool {
    forall|j: int, i: int|
        0 <= j < c.shards@.len() && 0 <= i < c.shards@[j].slots@.len() ==> (#[trigger] c.shards@[
            j].slots@[i]).refs == 0 || !c.shards@[j].slots@[i].live()
}

/// Total live charge over a sequence of shards.
pub open spec fn sum_live_charges<V>(s: Seq<CacheShard<V>>) -> int
    decreases s.len(),
{
    if s.len() == 0 {
        0
    } else {
        sum_live_charges(s.drop_last()) + sum_charges(s.last().slots@)
    }
}

/// Usage accounting: in a well-formed cache, the usage reported is exactly
/// the total charge of the live handles, over every shard — after any
/// sequence of inserts, removes, gets, clones and releases, since each
/// operation preserves well-formedness.
pub proof fn lemma_usage_accounting<V>(c: &Cache<V>)
    requires
        c.wf(),
    ensures
        c.total_usage() == sum_live_charges(c.shards@),
{
    lemma_usages_are_live_charges(c.shards@);
}

/// In a sequence of well-formed shards the usages add up to the live
/// charges.
proof fn lemma_usages_are_live_charges<V>(s: Seq<CacheShard<V>>)
    requires
        forall|j: int| 0 <= j < s.len() ==> (#[trigger] s[j]).wf(),
    ensures
        sum_usages(s) == sum_live_charges(s),
    decreases s.len(),
{
    if s.len() > 0 {
        assert(forall|j: int|
            0 <= j < s.drop_last().len() ==> (#[trigger] s.drop_last()[j]).wf());
        lemma_usages_are_live_charges(s.drop_last());
        assert(s.last().wf());
    }
}

/// Capacity bound: while no handle is externally referenced, the usage never
/// exceeds the capacity. While handles are pinned the usage may exceed it
/// transiently; each shard's invariant bounds the excess by the pinned
/// charge, so the bound is restored once the last reference drops.
pub proof fn lemma_capacity_bound<V>(c: &Cache<V>)
    requires
        c.wf(),
        no_external_refs(c),
    ensures
        c.total_usage() <= c.capacity,
{
    let n = c.shards@.len() as int;
    let shard_cap = (c.capacity as int) / n;
    assert forall|j: int| 0 <= j < n implies (#[trigger] c.shards@[j]).usage <= shard_cap by {
        assert(c.shards@[j].wf());
        lemma_sum_pinned_zero(c.shards@[j].slots@);
    }
    lemma_sum_usages_capped(c.shards@, shard_cap);
    assert(n * shard_cap <= c.capacity) by {
        vstd::arithmetic::div_mod::lemma_fundamental_div_mod(c.capacity as int, n);
        vstd::arithmetic::div_mod::lemma_mod_bound(c.capacity as int, n);
        vstd::arithmetic::mul::lemma_mul_is_commutative(n, shard_cap);
    }
}

/// A sequence of shards each within `cap` holds at most `len * cap` usage.
proof fn lemma_sum_usages_capped<V>(s: Seq<CacheShard<V>>, cap: int)
    requires
        forall|j: int| 0 <= j < s.len() ==> (#[trigger] s[j]).usage <= cap,
    ensures
        sum_usages(s) <= s.len() * cap,
    decreases s.len(),
{
    if s.len() > 0 {
        assert(forall|j: int|
            0 <= j < s.drop_last().len() ==> (#[trigger] s.drop_last()[j]).usage <= cap);
        lemma_sum_usages_capped(s.drop_last(), cap);
        assert(s.len() * cap == (s.len() - 1) * cap + cap) by {
            vstd::arithmetic::mul::lemma_mul_is_distributive_sub_other_way(
                cap,
                s.len() as int,
                1,
            );
        }
    }
}

/// Single flight: once a caller has opened the single-flight queue for a key
/// (a `fetch` returned `Miss`, whose contract puts the key into the waiter
/// registry), no further `fetch` of that key runs the loader until the load
/// completes with `insert` or is given up with `fetch_abort`.
pub proof fn lemma_single_flight<V>(c: &Cache<V>, key: u64)
    requires
        c.wf(),
        c.shards@[c.shard_for(key)].waiters@.contains_key(key),
    ensures
        !c.loader_would_run(key),
{
}

/// The usage of any one shard is part of the total.
pub proof fn lemma_sum_usages_element<V>(s: Seq<CacheShard<V>>, j: int)
    requires
        0 <= j < s.len(),
    ensures
        sum_usages(s) >= s[j].usage,
    decreases s.len(),
{
    lemma_sum_usages_bound(s.drop_last());
    if j == s.len() - 1 {
    } else {
        lemma_sum_usages_element(s.drop_last(), j);
    }
}

/// Updating one shard shifts the total usage by that shard's difference.
pub proof fn lemma_sum_usages_update<V>(s: Seq<CacheShard<V>>, j: int, x: CacheShard<V>)
    requires
        0 <= j < s.len(),
    ensures
        sum_usages(s.update(j, x)) == sum_usages(s) - s[j].usage + x.usage,
    decreases s.len(),
{
    let t = s.update(j, x);
    if j == s.len() - 1 {
        assert(t.drop_last() =~= s.drop_last());
    } else {
        assert(t.drop_last() =~= s.drop_last().update(j, x));
        lemma_sum_usages_update(s.drop_last(), j, x);
        assert(t.last() == s.last());
    }
}

/// The released-charge total splits at any cut point.
pub proof fn lemma_released_charges_split<V>(s: Seq<Released<V>>, m: int)
    requires
        0 <= m <= s.len(),
    ensures
        released_charges(s) == released_charges(s.subrange(0, m)) + released_charges(s.skip(m)),
    decreases s.len(),
{
    if m == s.len() {
        assert(s.subrange(0, m) =~= s);
        assert(s.skip(m) =~= Seq::<Released<V>>::empty());
    } else {
        lemma_released_charges_split(s.drop_last(), m);
        assert(s.drop_last().subrange(0, m) =~= s.subrange(0, m));
        assert(s.skip(m).drop_last() =~= s.drop_last().skip(m));
        assert(s.skip(m).len() > 0);
        assert(s.skip(m).last() == s.last());
    }
}

} // verus!
