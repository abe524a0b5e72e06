//! One shard of the in-memory cache.
//!
//! A shard owns an arena of handles, an indexer from key to arena slot, an
//! eviction policy over slot ids, a usage counter, and the single-flight
//! waiter registry. All operations preserve the shard invariant `wf`, which
//! ties the four structures together and carries the two accounting laws:
//! the usage always equals the total charge of the live handles, and it
//! exceeds the capacity by at most the charge pinned by external references.

use std::collections::HashMap;

use vstd::prelude::*;

use crate::context::CacheContext;
use crate::eviction::{access_spec, Eviction, EvictionConfig};
use crate::handle::{
    lemma_sums_bounds, lemma_sums_nonneg, lemma_sums_push, lemma_sums_update, sum_charges,
    sum_pinned, Handle,
};

verus! {

/// An entry released by the shard: key, value, context and charge, in the
/// order the listener receives them.
pub type Released<V> = (u64, V, CacheContext, usize);

/// Total charge of a batch of released entries.
pub open spec fn released_charges<V>(s: Seq<Released<V>>) -> int
    decreases s.len(),
{
    if s.len() == 0 {
        0
    } else {
        released_charges(s.drop_last()) + s.last().3
    }
}

/// The total released charge is never negative.
pub proof fn lemma_released_charges_nonneg<V>(s: Seq<Released<V>>)
    ensures
        released_charges(s) >= 0,
    decreases s.len(),
{
    if s.len() > 0 {
        lemma_released_charges_nonneg(s.drop_last());
    }
}

/// One shard of the cache.
pub struct CacheShard<V> {
    /// The arena of handles; dead slots are on `free`.
    pub slots: Vec<Handle<V>>,
    /// Dead slot ids available for reuse (the object pool).
    pub free: Vec<usize>,
    /// Key to arena slot, for every entry reachable by lookup.
    pub indexer: HashMap<u64, usize>,
    /// Eviction order over slot ids.
    pub eviction: Eviction,
    /// Capacity of this shard.
    pub capacity: usize,
    /// Total charge of the live handles.
    pub usage: usize,
    /// Number of single-flight waiters per fetching key.
    pub waiters: HashMap<u64, usize>,
}

impl<V> CacheShard<V> {
    /// A key is reachable by lookup.
    pub open spec fn contains(&self, k: u64) -> bool {
        self.indexer@.contains_key(k)
    }

    /// The arena slot of a reachable key.
    pub open spec fn slot_of(&self, k: u64) -> int {
        self.indexer@[k] as int
    }

    /// The handle of a reachable key.
    pub open spec fn entry_of(&self, k: u64) -> Handle<V> {
        self.slots@[self.slot_of(k)]
    }

    /// The shard invariant.
    pub open spec fn wf(&self) -> bool {
        &&& forall|k: u64| #[trigger]
            self.indexer@.contains_key(k) ==> {
                let i = self.indexer@[k] as int;
                &&& 0 <= i < self.slots@.len()
                &&& self.slots@[i].live()
                &&& self.slots@[i].key == k
                &&& self.slots@[i].in_indexer
            }
        &&& forall|i: int|
            0 <= i < self.slots@.len() ==> {
                let h = #[trigger] self.slots@[i];
                &&& (h.in_indexer ==> h.live() && self.indexer@.contains_key(h.key)
                    && self.indexer@[h.key] == i)
                &&& (h.in_policy ==> h.in_indexer && self.eviction@.contains(i as usize))
                &&& (h.live() ==> h.refs > 0 || h.in_indexer)
                &&& (!h.live() ==> !h.in_indexer && !h.in_policy && h.refs == 0)
            }
        &&& forall|j: int|
            0 <= j < self.eviction@.len() ==> {
                let i = #[trigger] self.eviction@[j] as int;
                &&& 0 <= i < self.slots@.len()
                &&& self.slots@[i].in_policy
            }
        &&& forall|j1: int, j2: int|
            0 <= j1 < j2 < self.eviction@.len() ==> self.eviction@[j1] != self.eviction@[j2]
        &&& forall|j: int|
            0 <= j < self.free@.len() ==> {
                let i = #[trigger] self.free@[j] as int;
                &&& 0 <= i < self.slots@.len()
                &&& !self.slots@[i].live()
            }
        &&& forall|j1: int, j2: int|
            0 <= j1 < j2 < self.free@.len() ==> self.free@[j1] != self.free@[j2]
        &&& self.usage == sum_charges(self.slots@)
        &&& self.usage <= self.capacity + sum_pinned(self.slots@)
    }

    /// Total number of external references held on this shard's entries.
    pub open spec fn pinned(&self) -> int {
        sum_pinned(self.slots@)
    }

    /// Build an empty shard.
    pub fn new(capacity: usize, config: &EvictionConfig) -> (r: CacheShard<V>)
        ensures
            r.wf(),
            r.capacity == capacity,
            r.usage == 0,
            r.slots@.len() == 0,
            r.indexer@ == Map::<u64, usize>::empty(),
            r.waiters@ == Map::<u64, usize>::empty(),
            r.eviction@ == Seq::<usize>::empty(),
            r.eviction.is_lru() == (config is Lru),
    {
        let r = CacheShard {
            slots: Vec::new(),
            free: Vec::new(),
            indexer: HashMap::new(),
            eviction: Eviction::new(config),
            capacity,
            usage: 0,
            waiters: HashMap::new(),
        };
        proof {
            assert(r.indexer@ =~= Map::<u64, usize>::empty());
            assert(r.waiters@ =~= Map::<u64, usize>::empty());
        }
        r
    }


    /// Whether a release keeps the handle cached: it is still externally
    /// referenced, or it is reachable and the policy keeps (or re-admits) it
    /// while the shard is within capacity.
    pub open spec fn keeps_on_release(&self, i: int, reinsert: bool) -> bool {
        let h = self.slots@[i];
        h.refs > 0 || (h.in_indexer && reinsert && self.usage <= self.capacity && (h.in_policy
            || self.eviction.is_lru()))
    }

    /// Look a key up; on a hit, take one more external reference and notify
    /// the policy of the access.
    ///
    /// Returns the arena slot of the entry, or `None` on a miss (or on the
    /// unreachable case of a saturated reference counter).
    pub fn get(&mut self, key: u64) -> (r: Option<usize>)
        requires
            old(self).wf(),
        ensures
            final(self).wf(),
            final(self).capacity == old(self).capacity,
            final(self).usage == old(self).usage,
            final(self).waiters@ == old(self).waiters@,
            final(self).eviction.is_lru() == old(self).eviction.is_lru(),
            r is Some <==> old(self).contains(key) && old(self).entry_of(key).refs < usize::MAX,
            r is None ==> final(self).slots@ == old(self).slots@ && final(self).indexer@ == old(
                self,
            ).indexer@ && final(self).eviction@ == old(self).eviction@ && final(self).free@ == old(
                self,
            ).free@,
            r is Some ==> {
                let i = old(self).slot_of(key);
                let h = old(self).slots@[i];
                &&& r == Some(i as usize)
                &&& final(self).slots@ == old(self).slots@.update(
                    i,
                    Handle { refs: (h.refs + 1) as usize, ..h },
                )
                &&& final(self).indexer@ == old(self).indexer@
                &&& final(self).free@ == old(self).free@
                &&& final(self).eviction@ == access_spec(
                    old(self).eviction@,
                    i as usize,
                    old(self).eviction.is_lru(),
                )
            },
    {
        let got = self.indexer.get(&key);
        match got {
            None => None,
            Some(i_ref) => {
                let i = *i_ref;
                if self.slots[i].refs == usize::MAX {
                    return None;
                }
                let ghost h = self.slots@[i as int];
                self.slots[i].refs = self.slots[i].refs + 1;
                self.eviction.access(i);
                proof {
                    let s0 = old(self).slots@;
                    let h2 = Handle { refs: (h.refs + 1) as usize, ..h };
                    lemma_sums_update(s0, i as int, h2);
                    crate::eviction::lemma_access_spec_properties(
                        old(self).eviction@,
                        i,
                        old(self).eviction.is_lru(),
                    );
                    assert forall|j: int|
                        0 <= j < self.eviction@.len() implies old(self).eviction@.contains(
                        #[trigger] self.eviction@[j],
                    ) by {
                        assert(self.eviction@.contains(self.eviction@[j]));
                    }
                    assert(self.wf());
                }
                Some(i)
            },
        }
    }



    /// The shard invariant, weakened at slot `i`: slot `i` alone may be a
    /// live, unreferenced handle that is no longer in the indexer (the state
    /// right after its last external reference was given back).
    pub open spec fn wf_tolerant(&self, i: int) -> bool {
        &&& 0 <= i < self.slots@.len()
        &&& forall|k: u64| #[trigger]
            self.indexer@.contains_key(k) ==> {
                let j = self.indexer@[k] as int;
                &&& 0 <= j < self.slots@.len()
                &&& self.slots@[j].live()
                &&& self.slots@[j].key == k
                &&& self.slots@[j].in_indexer
            }
        &&& forall|j: int|
            0 <= j < self.slots@.len() ==> {
                let h = #[trigger] self.slots@[j];
                &&& (h.in_indexer ==> h.live() && self.indexer@.contains_key(h.key)
                    && self.indexer@[h.key] == j)
                &&& (h.in_policy ==> h.in_indexer && self.eviction@.contains(j as usize))
                &&& (j != i && h.live() ==> h.refs > 0 || h.in_indexer)
                &&& (!h.live() ==> !h.in_indexer && !h.in_policy && h.refs == 0)
            }
        &&& forall|j: int|
            0 <= j < self.eviction@.len() ==> {
                let t = #[trigger] self.eviction@[j] as int;
                &&& 0 <= t < self.slots@.len()
                &&& self.slots@[t].in_policy
            }
        &&& forall|j1: int, j2: int|
            0 <= j1 < j2 < self.eviction@.len() ==> self.eviction@[j1] != self.eviction@[j2]
        &&& forall|j: int|
            0 <= j < self.free@.len() ==> {
                let t = #[trigger] self.free@[j] as int;
                &&& 0 <= t < self.slots@.len()
                &&& !self.slots@[t].live()
            }
        &&& forall|j1: int, j2: int|
            0 <= j1 < j2 < self.free@.len() ==> self.free@[j1] != self.free@[j2]
        &&& self.usage == sum_charges(self.slots@)
        &&& self.usage <= self.capacity + sum_pinned(self.slots@) + self.slack_charge(i)
    }

    /// The charge of slot `i` if it is a live handle with no external
    /// references left, and zero otherwise: the amount by which the usage may
    /// still exceed the capacity plus the pinned total mid-release.
    pub open spec fn slack_charge(&self, i: int) -> int {
        let h = self.slots@[i];
        if h.live() && h.refs == 0 {
            h.charge as int
        } else {
            0
        }
    }

    /// The shard invariant, weakened at slot `i`: the slot is live, free of
    /// references, and already detached from the indexer and the policy, so
    /// it is only waiting to be released.
    pub open spec fn wf_release_pending(&self, i: int) -> bool {
        &&& 0 <= i < self.slots@.len()
        &&& self.slots@[i].live()
        &&& self.slots@[i].refs == 0
        &&& !self.slots@[i].in_indexer
        &&& !self.slots@[i].in_policy
        &&& forall|k: u64| #[trigger]
            self.indexer@.contains_key(k) ==> {
                let j = self.indexer@[k] as int;
                &&& 0 <= j < self.slots@.len()
                &&& self.slots@[j].live()
                &&& self.slots@[j].key == k
                &&& self.slots@[j].in_indexer
            }
        &&& forall|j: int|
            0 <= j < self.slots@.len() && j != i ==> {
                let h = #[trigger] self.slots@[j];
                &&& (h.in_indexer ==> h.live() && self.indexer@.contains_key(h.key)
                    && self.indexer@[h.key] == j)
                &&& (h.in_policy ==> h.in_indexer && self.eviction@.contains(j as usize))
                &&& (h.live() ==> h.refs > 0 || h.in_indexer)
                &&& (!h.live() ==> !h.in_indexer && !h.in_policy && h.refs == 0)
            }
        &&& forall|j: int|
            0 <= j < self.eviction@.len() ==> {
                let t = #[trigger] self.eviction@[j] as int;
                &&& 0 <= t < self.slots@.len()
                &&& self.slots@[t].in_policy
            }
        &&& forall|j1: int, j2: int|
            0 <= j1 < j2 < self.eviction@.len() ==> self.eviction@[j1] != self.eviction@[j2]
        &&& forall|j: int|
            0 <= j < self.free@.len() ==> {
                let t = #[trigger] self.free@[j] as int;
                &&& 0 <= t < self.slots@.len()
                &&& !self.slots@[t].live()
                &&& t != i
            }
        &&& forall|j1: int, j2: int|
            0 <= j1 < j2 < self.free@.len() ==> self.free@[j1] != self.free@[j2]
        &&& self.usage == sum_charges(self.slots@)
        &&& self.usage <= self.capacity + sum_pinned(self.slots@) + self.slots@[i].charge
    }

    /// Release a slot that is already detached: give back its charge, take
    /// the entry out, and put the empty handle on the free list.
    fn release_detached(&mut self, i: usize) -> (r: Released<V>)
        requires
            old(self).wf_release_pending(i as int),
        ensures
            final(self).wf(),
            final(self).capacity == old(self).capacity,
            final(self).waiters@ == old(self).waiters@,
            final(self).eviction.is_lru() == old(self).eviction.is_lru(),
            final(self).indexer@ == old(self).indexer@,
            final(self).eviction@ == old(self).eviction@,
            final(self).slots@.len() == old(self).slots@.len(),
            ({
                let h = old(self).slots@[i as int];
                &&& r == (h.key, h.value->Some_0, h.context, h.charge)
                &&& final(self).usage == old(self).usage - h.charge
                &&& !final(self).slots@[i as int].live()
                &&& final(self).slots@[i as int].refs == 0
                &&& !final(self).slots@[i as int].in_indexer
                &&& !final(self).slots@[i as int].in_policy
                &&& forall|j: int|
                    0 <= j < old(self).slots@.len() && j != i ==> final(self).slots@[j] == old(
                        self,
                    ).slots@[j]
                &&& final(self).free@ == old(self).free@.push(i)
            }),
    {
        proof {
            lemma_sums_bounds(self.slots@, i as int);
        }
        let key = self.slots[i].key;
        let context = self.slots[i].context;
        let charge = self.slots[i].charge;
        let value_opt = self.slots[i].value.take();
        let value = value_opt.unwrap();
        self.slots[i].charge = 0;
        self.usage = self.usage - charge;
        self.free.push(i);
        proof {
            let h = old(self).slots@[i as int];
            let hp = self.slots@[i as int];
            assert(self.slots@ =~= old(self).slots@.update(i as int, hp));
            lemma_sums_update(old(self).slots@, i as int, hp);
            assert(!hp.live() && hp.refs == 0 && !hp.in_indexer && !hp.in_policy);
            assert(self.usage == sum_charges(self.slots@));
            assert(self.usage <= self.capacity + sum_pinned(self.slots@));
            assert(forall|j1: int, j2: int|
                0 <= j1 < j2 < self.free@.len() ==> self.free@[j1] != self.free@[j2]);
            assert(forall|j: int|
                0 <= j < self.free@.len() ==> 0 <= (#[trigger] self.free@[j] as int)
                    < self.slots@.len() && !self.slots@[self.free@[j] as int].live());
            assert(forall|j: int|
                0 <= j < self.eviction@.len() ==> 0 <= (#[trigger] self.eviction@[j] as int)
                    < self.slots@.len() && self.slots@[self.eviction@[j] as int].in_policy);
            assert(forall|k: u64| #[trigger]
                self.indexer@.contains_key(k) ==> {
                    let j = self.indexer@[k] as int;
                    0 <= j < self.slots@.len() && self.slots@[j].live() && self.slots@[j].key == k
                        && self.slots@[j].in_indexer
                });
            assert(self.wf());
        }
        (key, value, context, charge)
    }


    /// The parts of two shard states that release operations may touch are
    /// identical.
    pub open spec fn same_core(a: &CacheShard<V>, b: &CacheShard<V>) -> bool {
        &&& a.slots@ == b.slots@
        &&& a.indexer@ == b.indexer@
        &&& a.eviction@ == b.eviction@
        &&& a.usage == b.usage
        &&& a.free@ == b.free@
    }

    /// Try to release a live handle: a referenced handle is kept untouched; an
    /// unreferenced one still in the indexer is re-admitted by the policy when
    /// `reinsert` is set and the shard is within capacity, and otherwise
    /// detached and released. The released entry, if any, is returned for the
    /// listener.
    pub fn try_release(&mut self, i: usize, reinsert: bool) -> (r: Option<Released<V>>)
        requires
            old(self).wf_tolerant(i as int),
            old(self).slots@[i as int].live(),
        ensures
            final(self).wf(),
            final(self).capacity == old(self).capacity,
            final(self).waiters@ == old(self).waiters@,
            final(self).eviction.is_lru() == old(self).eviction.is_lru(),
            final(self).slots@.len() == old(self).slots@.len(),
            r is None <==> old(self).keeps_on_release(i as int, reinsert),
            ({
                let h = old(self).slots@[i as int];
                &&& (h.refs > 0 ==> Self::same_core(old(self), final(self)))
                &&& (h.refs == 0 && r is None ==> {
                    &&& final(self).usage == old(self).usage
                    &&& final(self).indexer@ == old(self).indexer@
                    &&& final(self).free@ == old(self).free@
                    &&& (h.in_policy ==> final(self).slots@ == old(self).slots@
                        && final(self).eviction@ == access_spec(
                        old(self).eviction@,
                        i,
                        old(self).eviction.is_lru(),
                    ))
                    &&& (!h.in_policy ==> final(self).slots@ == old(self).slots@.update(
                        i as int,
                        Handle { in_policy: true, ..h },
                    ) && final(self).eviction@ == old(self).eviction@.push(i))
                })
                &&& (r is Some ==> {
                    &&& r == Some((h.key, h.value->Some_0, h.context, h.charge))
                    &&& final(self).usage == old(self).usage - h.charge
                    &&& final(self).indexer@ == if h.in_indexer {
                        old(self).indexer@.remove(h.key)
                    } else {
                        old(self).indexer@
                    }
                    &&& !final(self).slots@[i as int].live()
                    &&& forall|j: int|
                        0 <= j < old(self).slots@.len() && j != i
                            ==> final(self).slots@[j] == old(self).slots@[j]
                    &&& final(self).eviction@ == if h.in_policy {
                        old(self).eviction@.remove_value(i)
                    } else {
                        old(self).eviction@
                    }
                    &&& final(self).free@ == old(self).free@.push(i)
                })
            }),
    {
        let ghost h = old(self).slots@[i as int];
        if self.slots[i].refs > 0 {
            return None;
        }
        if self.slots[i].in_indexer {
            if reinsert && self.usage <= self.capacity {
                if self.slots[i].in_policy {
                    self.eviction.access(i);
                    proof {
                        lemma_sums_nonneg(self.slots@);
                        crate::eviction::lemma_access_spec_properties(
                            old(self).eviction@,
                            i,
                            old(self).eviction.is_lru(),
                        );
                        assert forall|j: int|
                            0 <= j < self.eviction@.len() implies old(self).eviction@.contains(
                            #[trigger] self.eviction@[j],
                        ) by {
                            assert(self.eviction@.contains(self.eviction@[j]));
                        }
                        assert(self.wf());
                    }
                    return None;
                }
                let accepted = self.eviction.reinsert(i);
                if accepted {
                    self.slots[i].in_policy = true;
                    proof {
                        lemma_sums_nonneg(self.slots@);
                        let hp = self.slots@[i as int];
                        assert(self.slots@ =~= old(self).slots@.update(i as int, hp));
                        lemma_sums_update(old(self).slots@, i as int, hp);
                        assert(!old(self).eviction@.contains(i));
                        assert forall|e: usize| old(self).eviction@.contains(
                            e,
                        ) implies #[trigger] self.eviction@.contains(e) by {
                            let j = choose|j: int|
                                0 <= j < old(self).eviction@.len() && old(self).eviction@[j] == e;
                            assert(self.eviction@[j] == e);
                        }
                        assert(self.eviction@[old(self).eviction@.len() as int] == i);
                        assert(self.eviction@.contains(i));
                        assert forall|j: int|
                            0 <= j < old(self).eviction@.len() implies old(self).eviction@[j]
                            != i by {
                            if old(self).eviction@[j] == i {
                                assert(old(self).eviction@.contains(i));
                            }
                        }
                        assert(crate::eviction::distinct_seq(self.eviction@));
                        assert(self.wf());
                    }
                    return None;
                }
            }
            let key = self.slots[i].key;
            self.indexer.remove(&key);
            self.slots[i].in_indexer = false;
            if self.slots[i].in_policy {
                self.eviction.remove(i);
                self.slots[i].in_policy = false;
            }
            proof {
                let hp = self.slots@[i as int];
                assert(self.slots@ =~= old(self).slots@.update(i as int, hp));
                lemma_sums_update(old(self).slots@, i as int, hp);
                if h.in_policy {
                    crate::eviction::lemma_remove_value_distinct(old(self).eviction@, i);
                }
                assert forall|j: int|
                    0 <= j < self.slots@.len() && j != i && (#[trigger] self.slots@[j]).in_indexer
                        implies self.indexer@.contains_key(self.slots@[j].key)
                        && self.indexer@[self.slots@[j].key] == j by {
                    assert(old(self).slots@[j].in_indexer);
                    assert(old(self).indexer@[old(self).slots@[j].key] == j);
                    assert(old(self).slots@[j].key != h.key);
                }
                assert forall|j: int|
                    0 <= j < self.slots@.len() && j != i && (#[trigger] self.slots@[j]).in_policy
                        implies self.eviction@.contains(j as usize) by {
                    assert(old(self).eviction@.contains(j as usize));
                    assert(j as usize != i);
                }
                assert(0 <= i < self.slots@.len() && self.slots@[i as int].live()
                    && self.slots@[i as int].refs == 0 && !self.slots@[i as int].in_indexer
                    && !self.slots@[i as int].in_policy);
                assert(forall|k: u64| #[trigger]
                    self.indexer@.contains_key(k) ==> {
                        let j = self.indexer@[k] as int;
                        0 <= j < self.slots@.len() && self.slots@[j].live() && self.slots@[j].key
                            == k && self.slots@[j].in_indexer
                    });
                assert forall|j: int| 0 <= j < self.eviction@.len() implies 0 <= (
                #[trigger] self.eviction@[j] as int) < self.slots@.len()
                    && self.slots@[self.eviction@[j] as int].in_policy by {
                    let e = self.eviction@[j];
                    if h.in_policy {
                        assert(self.eviction@.contains(e));
                        assert(old(self).eviction@.contains(e) && e != i);
                    } else {
                        assert(old(self).eviction@[j] == e);
                        assert(old(self).eviction@.contains(e));
                    }
                    assert(old(self).slots@[e as int].in_policy);
                    assert(e != i);
                }
                assert(forall|j1: int, j2: int|
                    0 <= j1 < j2 < self.eviction@.len() ==> self.eviction@[j1]
                        != self.eviction@[j2]);
                assert(forall|j: int|
                    0 <= j < self.free@.len() ==> 0 <= (#[trigger] self.free@[j] as int)
                        < self.slots@.len() && !self.slots@[self.free@[j] as int].live()
                        && self.free@[j] != i);
                assert(self.usage == sum_charges(self.slots@));
                assert(self.usage <= self.capacity + sum_pinned(self.slots@)
                    + self.slots@[i as int].charge);
                assert(self.wf_release_pending(i as int));
            }
        }
        proof {
            assert(self.wf_release_pending(i as int));
        }
        Some(self.release_detached(i))
    }


    /// Give back one external reference on slot `i`, then run the release
    /// flow with reinsertion allowed.
    pub fn release_external(&mut self, i: usize) -> (r: Option<Released<V>>)
        requires
            old(self).wf(),
            i < old(self).slots@.len(),
            old(self).slots@[i as int].live(),
            old(self).slots@[i as int].refs > 0,
        ensures
            final(self).wf(),
            final(self).capacity == old(self).capacity,
            final(self).waiters@ == old(self).waiters@,
            final(self).eviction.is_lru() == old(self).eviction.is_lru(),
            final(self).slots@.len() == old(self).slots@.len(),
            ({
                let h = old(self).slots@[i as int];
                r is Some <==> h.refs == 1 && !(h.in_indexer && old(self).usage <= old(
                    self,
                ).capacity && (h.in_policy || old(self).eviction.is_lru()))
            }),
            ({
                let h = old(self).slots@[i as int];
                let hd = Handle { refs: (h.refs - 1) as usize, ..h };
                &&& (h.refs > 1 ==> r is None && final(self).slots@ == old(self).slots@.update(
                    i as int,
                    hd,
                ) && final(self).indexer@ == old(self).indexer@
                    && final(self).eviction@ == old(self).eviction@
                    && final(self).usage == old(self).usage
                    && final(self).free@ == old(self).free@)
                &&& (h.refs == 1 && r is None ==> {
                    &&& final(self).usage == old(self).usage
                    &&& final(self).indexer@ == old(self).indexer@
                    &&& final(self).free@ == old(self).free@
                    &&& h.in_indexer
                    &&& old(self).usage <= old(self).capacity
                    &&& (h.in_policy ==> final(self).slots@ == old(self).slots@.update(
                        i as int,
                        hd,
                    ) && final(self).eviction@ == access_spec(
                        old(self).eviction@,
                        i,
                        old(self).eviction.is_lru(),
                    ))
                    &&& (!h.in_policy ==> final(self).slots@ == old(self).slots@.update(
                        i as int,
                        Handle { in_policy: true, ..hd },
                    ) && final(self).eviction@ == old(self).eviction@.push(i))
                })
                &&& (r is Some ==> {
                    &&& h.refs == 1
                    &&& r == Some((h.key, h.value->Some_0, h.context, h.charge))
                    &&& final(self).usage == old(self).usage - h.charge
                    &&& final(self).indexer@ == if h.in_indexer {
                        old(self).indexer@.remove(h.key)
                    } else {
                        old(self).indexer@
                    }
                    &&& !final(self).slots@[i as int].live()
                    &&& forall|j: int|
                        0 <= j < old(self).slots@.len() && j != i
                            ==> final(self).slots@[j] == old(self).slots@[j]
                    &&& final(self).eviction@ == if h.in_policy {
                        old(self).eviction@.remove_value(i)
                    } else {
                        old(self).eviction@
                    }
                    &&& final(self).free@ == old(self).free@.push(i)
                })
            }),
    {
        self.slots[i].refs = self.slots[i].refs - 1;
        proof {
            let hd = self.slots@[i as int];
            assert(self.slots@ =~= old(self).slots@.update(i as int, hd));
            lemma_sums_update(old(self).slots@, i as int, hd);
            assert(self.wf_tolerant(i as int));
        }
        let r = self.try_release(i, true);
        r
    }

    /// Take a dead slot off the free list, or grow the arena by one.
    fn alloc_slot(&mut self) -> (i: usize)
        requires
            old(self).wf(),
        ensures
            final(self).wf(),
            final(self).capacity == old(self).capacity,
            final(self).waiters@ == old(self).waiters@,
            final(self).eviction.is_lru() == old(self).eviction.is_lru(),
            final(self).indexer@ == old(self).indexer@,
            final(self).eviction@ == old(self).eviction@,
            final(self).usage == old(self).usage,
            i < final(self).slots@.len(),
            !final(self).slots@[i as int].live(),
            final(self).slots@[i as int].refs == 0,
            !final(self).slots@[i as int].in_indexer,
            !final(self).slots@[i as int].in_policy,
            !final(self).free@.contains(i),
            forall|j: int|
                0 <= j < old(self).slots@.len() && j != i ==> final(self).slots@[j] == old(
                    self,
                ).slots@[j],
            old(self).slots@.len() <= final(self).slots@.len(),
            forall|k: u64| old(self).contains(k) ==> old(self).slot_of(k) != i,
    {
        let popped = self.free.pop();
        match popped {
            Some(i) => {
                proof {
                    assert(old(self).free@[old(self).free@.len() - 1] == i);
                    assert forall|j: int| 0 <= j < self.free@.len() implies self.free@[j]
                        != i by {
                        assert(old(self).free@[j] == self.free@[j]);
                    }
                    assert(!self.free@.contains(i));
                    if old(self).contains(old(self).slots@[i as int].key) {
                    }
                    assert forall|k: u64| old(self).contains(k) implies old(self).slot_of(k)
                        != i by {
                        assert(old(self).slots@[old(self).slot_of(k)].live());
                    }
                }
                i
            },
            None => {
                let i = self.slots.len();
                self.slots.push(Handle::new());
                proof {
                    lemma_sums_push(old(self).slots@, self.slots@[i as int]);
                    assert forall|k: u64| old(self).contains(k) implies old(self).slot_of(k)
                        != i by {
                        assert(old(self).slots@[old(self).slot_of(k)].live());
                    }
                    assert(!self.free@.contains(i)) by {
                        if self.free@.contains(i) {
                            let j = choose|j: int|
                                0 <= j < self.free@.len() && self.free@[j] == i;
                        }
                    }
                    assert(self.wf());
                }
                i
            },
        }
    }


    /// Remove a key from the cache, handing the caller one reference on the
    /// removed entry: the key becomes unreachable at once, the entry leaves
    /// the policy and is never reinserted, and its charge stays accounted
    /// until the returned reference (and every clone) is given back.
    pub fn remove(&mut self, key: u64) -> (r: Option<usize>)
        requires
            old(self).wf(),
        ensures
            final(self).wf(),
            final(self).capacity == old(self).capacity,
            final(self).usage == old(self).usage,
            final(self).waiters@ == old(self).waiters@,
            final(self).eviction.is_lru() == old(self).eviction.is_lru(),
            final(self).slots@.len() == old(self).slots@.len(),
            r is Some <==> old(self).contains(key) && old(self).entry_of(key).refs < usize::MAX,
            r is None ==> Self::same_core(old(self), final(self)),
            r is Some ==> {
                let i = old(self).slot_of(key);
                let h = old(self).slots@[i];
                &&& r == Some(i as usize)
                &&& final(self).indexer@ == old(self).indexer@.remove(key)
                &&& final(self).eviction@ == if h.in_policy {
                    old(self).eviction@.remove_value(i as usize)
                } else {
                    old(self).eviction@
                }
                &&& final(self).slots@ == old(self).slots@.update(
                    i,
                    Handle {
                        refs: (h.refs + 1) as usize,
                        in_indexer: false,
                        in_policy: false,
                        ..h
                    },
                )
                &&& final(self).free@ == old(self).free@
            },
    {
        let i = match self.indexer.get(&key) {
            None => {
                return None;
            },
            Some(i_ref) => *i_ref,
        };
        if self.slots[i].refs == usize::MAX {
            return None;
        }
        let ghost h = old(self).slots@[i as int];
        self.indexer.remove(&key);
        self.slots[i].in_indexer = false;
        if self.slots[i].in_policy {
            self.eviction.remove(i);
            self.slots[i].in_policy = false;
        }
        self.slots[i].refs = self.slots[i].refs + 1;
        proof {
            let hp = self.slots@[i as int];
            assert(self.slots@ =~= old(self).slots@.update(i as int, hp));
            lemma_sums_update(old(self).slots@, i as int, hp);
            if h.in_policy {
                crate::eviction::lemma_remove_value_distinct(old(self).eviction@, i);
            }
            assert forall|j: int| 0 <= j < self.eviction@.len() implies 0 <= (
            #[trigger] self.eviction@[j] as int) < self.slots@.len()
                && self.slots@[self.eviction@[j] as int].in_policy by {
                let e = self.eviction@[j];
                if h.in_policy {
                    assert(self.eviction@.contains(e));
                    assert(old(self).eviction@.contains(e) && e != i);
                } else {
                    assert(old(self).eviction@[j] == e);
                    assert(old(self).eviction@.contains(e));
                }
                assert(old(self).slots@[e as int].in_policy);
                assert(e != i);
            }
            assert forall|j: int|
                0 <= j < self.slots@.len() && j != i && (#[trigger] self.slots@[j]).in_indexer
                    implies self.indexer@.contains_key(self.slots@[j].key)
                    && self.indexer@[self.slots@[j].key] == j by {
                assert(old(self).slots@[j].in_indexer);
                assert(old(self).indexer@[old(self).slots@[j].key] == j);
                assert(old(self).slots@[j].key != key);
            }
            assert(self.wf());
        }
        Some(i)
    }

    /// Detach a key from the indexer and the policy and release it if no
    /// external reference remains — the replacement and drain flow. The
    /// entry may outlive the detachment while externally referenced.
    fn detach_release(&mut self, key: u64) -> (r: Option<Released<V>>)
        requires
            old(self).wf(),
        ensures
            final(self).wf(),
            final(self).capacity == old(self).capacity,
            final(self).waiters@ == old(self).waiters@,
            final(self).eviction.is_lru() == old(self).eviction.is_lru(),
            final(self).slots@.len() == old(self).slots@.len(),
            !final(self).contains(key),
            !old(self).contains(key) ==> r is None && Self::same_core(old(self), final(self)),
            old(self).contains(key) ==> {
                let i = old(self).slot_of(key);
                let h = old(self).slots@[i];
                &&& final(self).indexer@ == old(self).indexer@.remove(key)
                &&& final(self).eviction@ == if h.in_policy {
                    old(self).eviction@.remove_value(i as usize)
                } else {
                    old(self).eviction@
                }
                &&& (h.refs > 0 ==> r is None && final(self).usage == old(self).usage
                    && final(self).slots@ == old(self).slots@.update(
                    i,
                    Handle { in_indexer: false, in_policy: false, ..h },
                ) && final(self).free@ == old(self).free@)
                &&& (h.refs == 0 ==> {
                    &&& r == Some((key, h.value->Some_0, h.context, h.charge))
                    &&& final(self).usage == old(self).usage - h.charge
                    &&& !final(self).slots@[i].live()
                    &&& forall|j: int|
                        0 <= j < old(self).slots@.len() && j != i
                            ==> final(self).slots@[j] == old(self).slots@[j]
                    &&& final(self).free@ == old(self).free@.push(i as usize)
                })
            },
    {
        let got = self.indexer.get(&key);
        let i = match got {
            None => {
                return None;
            },
            Some(i_ref) => *i_ref,
        };
        let ghost h = old(self).slots@[i as int];
        self.indexer.remove(&key);
        self.slots[i].in_indexer = false;
        if self.slots[i].in_policy {
            self.eviction.remove(i);
            self.slots[i].in_policy = false;
        }
        proof {
            let hp = self.slots@[i as int];
            assert(self.slots@ =~= old(self).slots@.update(i as int, hp));
            lemma_sums_update(old(self).slots@, i as int, hp);
            if h.in_policy {
                crate::eviction::lemma_remove_value_distinct(old(self).eviction@, i);
            }
        }
        if self.slots[i].refs == 0 {
            proof {
                assert forall|j: int| 0 <= j < self.eviction@.len() implies 0 <= (
                #[trigger] self.eviction@[j] as int) < self.slots@.len()
                    && self.slots@[self.eviction@[j] as int].in_policy by {
                    let e = self.eviction@[j];
                    if h.in_policy {
                        assert(self.eviction@.contains(e));
                        assert(old(self).eviction@.contains(e) && e != i);
                    } else {
                        assert(old(self).eviction@[j] == e);
                        assert(old(self).eviction@.contains(e));
                    }
                    assert(old(self).slots@[e as int].in_policy);
                    assert(e != i);
                }
                assert forall|j: int|
                    0 <= j < self.slots@.len() && j != i && (#[trigger] self.slots@[j]).in_indexer
                        implies self.indexer@.contains_key(self.slots@[j].key)
                        && self.indexer@[self.slots@[j].key] == j by {
                    assert(old(self).slots@[j].in_indexer);
                    assert(old(self).indexer@[old(self).slots@[j].key] == j);
                    assert(old(self).slots@[j].key != h.key);
                }
                assert(self.wf_release_pending(i as int));
            }
            Some(self.release_detached(i))
        } else {
            proof {
                assert forall|j: int| 0 <= j < self.eviction@.len() implies 0 <= (
                #[trigger] self.eviction@[j] as int) < self.slots@.len()
                    && self.slots@[self.eviction@[j] as int].in_policy by {
                    let e = self.eviction@[j];
                    if h.in_policy {
                        assert(self.eviction@.contains(e));
                        assert(old(self).eviction@.contains(e) && e != i);
                    } else {
                        assert(old(self).eviction@[j] == e);
                        assert(old(self).eviction@.contains(e));
                    }
                    assert(old(self).slots@[e as int].in_policy);
                    assert(e != i);
                }
                assert forall|j: int|
                    0 <= j < self.slots@.len() && j != i && (#[trigger] self.slots@[j]).in_indexer
                        implies self.indexer@.contains_key(self.slots@[j].key)
                        && self.indexer@[self.slots@[j].key] == j by {
                    assert(old(self).slots@[j].in_indexer);
                    assert(old(self).indexer@[old(self).slots@[j].key] == j);
                    assert(old(self).slots@[j].key != h.key);
                }
                assert(self.wf());
            }
            None
        }
    }


    /// Pop victims from the policy and release the unreferenced ones until
    /// `usage + charge` fits the capacity or the policy is drained. Popped
    /// victims that are still externally referenced leave the policy but stay
    /// reachable. Released entries are appended to `released`.
    #[verifier::loop_isolation(false)]
    pub fn evict(&mut self, charge: usize, released: &mut Vec<Released<V>>)
        requires
            old(self).wf(),
            old(self).usage + charge <= usize::MAX,
        ensures
            final(self).wf(),
            final(self).capacity == old(self).capacity,
            final(self).waiters@ == old(self).waiters@,
            final(self).eviction.is_lru() == old(self).eviction.is_lru(),
            final(self).slots@.len() == old(self).slots@.len(),
            final(released)@.len() >= old(released)@.len(),
            final(released)@.subrange(0, old(released)@.len() as int) == old(released)@,
            final(self).usage + released_charges(
                final(released)@.skip(old(released)@.len() as int),
            ) == old(self).usage,
            final(self).usage + charge <= final(self).capacity || final(self).eviction@.len()
                == 0,
            old(self).usage + charge <= old(self).capacity ==> Self::same_core(
                old(self),
                final(self),
            ) && final(released)@ == old(released)@,
            forall|k: u64| #[trigger]
                final(self).indexer@.contains_key(k) ==> old(self).indexer@.contains_key(k)
                    && final(self).indexer@[k] == old(self).indexer@[k],
            forall|k: u64| #[trigger]
                old(self).indexer@.contains_key(k) && old(self).slots@[old(
                    self,
                ).indexer@[k] as int].refs > 0 ==> final(self).indexer@.contains_key(k)
                    && final(self).indexer@[k] == old(self).indexer@[k],
            forall|j: int|
                0 <= j < old(self).slots@.len() ==> {
                    let h0 = old(self).slots@[j];
                    let h1 = #[trigger] final(self).slots@[j];
                    &&& (h1.live() ==> h0.live() && h1.value == h0.value && h1.charge == h0.charge
                        && h1.context == h0.context && h1.refs == h0.refs && h1.key == h0.key)
                    &&& (h0.live() && h0.refs > 0 ==> h1.live())
                },
            forall|t: int|
                old(released)@.len() <= t < final(released)@.len() ==> {
                    let item = #[trigger] final(released)@[t];
                    &&& old(self).contains(item.0)
                    &&& old(self).entry_of(item.0).value == Some(item.1)
                    &&& old(self).entry_of(item.0).context == item.2
                    &&& old(self).entry_of(item.0).charge == item.3
                    &&& old(self).entry_of(item.0).refs == 0
                    &&& !final(self).contains(item.0)
                },
    {
        let ghost base = old(released)@.len() as int;
        let ghost orig = *old(self);
        let ghost rel0 = old(released)@;
        let mut drained: bool = false;
        while !drained && self.usage + charge > self.capacity
            invariant
                self.wf(),
                self.capacity == orig.capacity,
                self.waiters@ == orig.waiters@,
                self.eviction.is_lru() == orig.eviction.is_lru(),
                self.slots@.len() == orig.slots@.len(),
                0 <= base <= released@.len(),
                released@.subrange(0, base) == rel0,
                self.usage + released_charges(released@.skip(base)) == orig.usage,
                self.usage <= orig.usage,
                self.usage + charge <= usize::MAX,
                orig.usage + charge <= orig.capacity ==> Self::same_core(&orig, self)
                    && released@ == rel0,
                forall|k: u64| #[trigger]
                    self.indexer@.contains_key(k) ==> orig.indexer@.contains_key(k)
                        && self.indexer@[k] == orig.indexer@[k],
                forall|k: u64| #[trigger]
                    orig.indexer@.contains_key(k) && orig.slots@[orig.indexer@[k] as int].refs
                        > 0 ==> self.indexer@.contains_key(k) && self.indexer@[k]
                        == orig.indexer@[k],
                forall|j: int|
                    0 <= j < orig.slots@.len() ==> {
                        let h0 = orig.slots@[j];
                        let h1 = #[trigger] self.slots@[j];
                        &&& (h1.live() ==> h0.live() && h1.value == h0.value && h1.charge
                            == h0.charge && h1.context == h0.context && h1.refs == h0.refs
                            && h1.key == h0.key)
                        &&& (h0.live() && h0.refs > 0 ==> h1.live())
                    },
                forall|t: int|
                    base <= t < released@.len() ==> {
                        let item = #[trigger] released@[t];
                        &&& orig.contains(item.0)
                        &&& orig.entry_of(item.0).value == Some(item.1)
                        &&& orig.entry_of(item.0).context == item.2
                        &&& orig.entry_of(item.0).charge == item.3
                        &&& orig.entry_of(item.0).refs == 0
                        &&& !self.contains(item.0)
                    },
                drained ==> self.eviction@.len() == 0,
            decreases self.eviction@.len() + (if drained { 0int } else { 1int }),
        {
            let ghost pre = *self;
            let popped = self.eviction.pop();
            let i = match popped {
                None => {
                    drained = true;
                    continue ;
                },
                Some(i) => i,
            };
            proof {
                crate::eviction::lemma_drop_first_distinct(pre.eviction@);
            }
            self.slots[i].in_policy = false;
            let ghost mid = *self;
            proof {
                let hp = self.slots@[i as int];
                assert(self.slots@ =~= pre.slots@.update(i as int, hp));
                lemma_sums_update(pre.slots@, i as int, hp);
                assert forall|j: int| 0 <= j < self.eviction@.len() implies 0 <= (
                #[trigger] self.eviction@[j] as int) < self.slots@.len()
                    && self.slots@[self.eviction@[j] as int].in_policy by {
                    let e = self.eviction@[j];
                    assert(self.eviction@.contains(e));
                    assert(pre.eviction@.contains(e) && e != i);
                    assert(pre.slots@[e as int].in_policy);
                }
                assert(self.wf());
            }
            let r = self.try_release(i, false);
            match r {
                None => {},
                Some(entry) => {
                    let ghost rel_pre = released@;
                    released.push(entry);
                    proof {
                        assert(base <= rel_pre.len());
                        assert(released@.subrange(0, base) =~= rel_pre.subrange(0, base));
                        let app = released@.skip(base);
                        assert(app =~= rel_pre.skip(base).push(entry));
                        assert(app.drop_last() =~= rel_pre.skip(base));
                        assert(released_charges(app) == released_charges(rel_pre.skip(base))
                            + entry.3);
                        assert(released@[rel_pre.len() as int] == entry);
                    }
                },
            }
        }
    }


    /// Insert an entry. Victims are evicted first until the new charge fits
    /// (or the policy is drained); an existing entry under the same key is
    /// then detached — never reinserted — and released if unreferenced. The
    /// new entry starts with one external reference plus one per granted
    /// waiter. Returns the new entry's arena slot.
    pub fn insert(
        &mut self,
        key: u64,
        hash: u64,
        value: V,
        charge: usize,
        context: CacheContext,
        grant: usize,
        released: &mut Vec<Released<V>>,
    ) -> (i: usize)
        requires
            old(self).wf(),
            old(self).usage + charge <= usize::MAX,
        ensures
            final(self).wf(),
            final(self).capacity == old(self).capacity,
            final(self).waiters@ == old(self).waiters@,
            final(self).eviction.is_lru() == old(self).eviction.is_lru(),
            final(self).contains(key),
            i == final(self).indexer@[key],
            ({
                let h = final(self).slots@[i as int];
                &&& h.key == key
                &&& h.hash == hash
                &&& h.value == Some(value)
                &&& h.charge == charge
                &&& h.context == context
                &&& h.in_indexer
                &&& h.in_policy
                &&& h.refs == if grant < usize::MAX {
                    (grant + 1) as usize
                } else {
                    grant
                }
            }),
            final(self).eviction@.len() > 0 && final(self).eviction@.last() == i,
            old(self).usage + charge <= old(self).capacity ==> {
                &&& final(self).eviction@ == (if old(self).contains(key) && old(self).entry_of(
                    key,
                ).in_policy {
                    old(self).eviction@.remove_value(old(self).slot_of(key) as usize)
                } else {
                    old(self).eviction@
                }).push(i)
                &&& final(released)@.len() <= old(released)@.len() + 1
                &&& forall|k: u64|
                    k != key && #[trigger] old(self).indexer@.contains_key(k)
                        ==> final(self).indexer@.contains_key(k) && final(self).indexer@[k]
                        == old(self).indexer@[k]
            },
            forall|k: u64|
                k != key && #[trigger] old(self).indexer@.contains_key(k) && old(self).slots@[old(
                    self,
                ).indexer@[k] as int].refs > 0
                    ==> final(self).indexer@.contains_key(k) && final(self).indexer@[k]
                    == old(self).indexer@[k],
            final(released)@.len() >= old(released)@.len(),
            final(released)@.subrange(0, old(released)@.len() as int) == old(released)@,
            final(self).usage == old(self).usage + charge - released_charges(
                final(released)@.skip(old(released)@.len() as int),
            ),
            forall|k: u64|
                k != key && #[trigger] final(self).indexer@.contains_key(k) ==> old(
                    self,
                ).indexer@.contains_key(k) && {
                    let h1 = final(self).slots@[final(self).indexer@[k] as int];
                    let h0 = old(self).slots@[old(self).indexer@[k] as int];
                    h1.value == h0.value && h1.charge == h0.charge && h1.context == h0.context
                        && h1.refs == h0.refs
                },
            forall|t: int|
                old(released)@.len() <= t < final(released)@.len() ==> {
                    let item = #[trigger] final(released)@[t];
                    &&& old(self).contains(item.0)
                    &&& old(self).entry_of(item.0).value == Some(item.1)
                    &&& old(self).entry_of(item.0).context == item.2
                    &&& old(self).entry_of(item.0).charge == item.3
                    &&& old(self).entry_of(item.0).refs == 0
                },
    {
        let ghost rel0 = old(released)@;
        self.evict(charge, released);
        let ghost s1 = *self;
        let ghost rel1 = released@;
        let removed = self.detach_release(key);
        let ghost s2 = *self;
        if let Some(e) = removed {
            released.push(e);
            proof {
                assert(released@.subrange(0, rel0.len() as int) =~= rel0);
                let app = released@.skip(rel0.len() as int);
                assert(app.drop_last() =~= rel1.skip(rel0.len() as int));
                lemma_released_charges_nonneg(app);
                assert(released@[rel1.len() as int] == e);
            }
        }
        let ghost rel2 = released@;
        let i = self.alloc_slot();
        let ghost s3 = *self;
        proof {
            lemma_released_charges_nonneg(rel1.skip(rel0.len() as int));
            lemma_released_charges_nonneg(rel2.skip(rel0.len() as int));
            assert(s3.usage + charge <= usize::MAX);
        }
        self.slots[i].hash = hash;
        self.slots[i].key = key;
        self.slots[i].value = Some(value);
        self.slots[i].context = context;
        self.slots[i].charge = charge;
        self.slots[i].refs = if grant < usize::MAX {
            grant + 1
        } else {
            grant
        };
        self.indexer.insert(key, i);
        self.slots[i].in_indexer = true;
        self.eviction.push(i);
        self.slots[i].in_policy = true;
        self.usage = self.usage + charge;
        proof {
            let hn = self.slots@[i as int];
            assert(self.slots@ =~= s3.slots@.update(i as int, hn));
            lemma_sums_update(s3.slots@, i as int, hn);
            assert(!s3.eviction@.contains(i)) by {
                if s3.eviction@.contains(i) {
                    let j = choose|j: int| 0 <= j < s3.eviction@.len() && s3.eviction@[j] == i;
                    assert(s3.slots@[i as int].in_policy);
                }
            }
            assert forall|j: int| 0 <= j < self.eviction@.len() implies 0 <= (
            #[trigger] self.eviction@[j] as int) < self.slots@.len()
                && self.slots@[self.eviction@[j] as int].in_policy by {
                let e = self.eviction@[j];
                if j < s3.eviction@.len() {
                    assert(s3.eviction@[j] == e);
                    assert(s3.eviction@.contains(e));
                    assert(s3.slots@[e as int].in_policy);
                    assert(e != i);
                } else {
                    assert(e == i);
                }
            }
            assert forall|j: int|
                0 <= j < self.slots@.len() && j != i && (#[trigger] self.slots@[j]).in_indexer
                    implies self.indexer@.contains_key(self.slots@[j].key)
                    && self.indexer@[self.slots@[j].key] == j by {
                assert(s3.slots@[j].in_indexer);
                assert(s3.indexer@.contains_key(s3.slots@[j].key));
                assert(s3.indexer@[s3.slots@[j].key] == j);
                assert(s3.slots@[j].key != key);
            }
            assert forall|j: int|
                0 <= j < self.free@.len() implies 0 <= (#[trigger] self.free@[j] as int)
                < self.slots@.len() && !self.slots@[self.free@[j] as int].live() by {
                assert(s3.free@[j] == self.free@[j]);
                assert(s3.free@.contains(s3.free@[j]));
                assert(self.free@[j] != i);
            }
            assert(self.eviction@[self.eviction@.len() - 1] == i);
            assert(self.eviction@.contains(i));
            assert forall|j: int|
                0 <= j < self.slots@.len() && j != i && (#[trigger] self.slots@[j]).in_policy
                    implies self.eviction@.contains(j as usize) by {
                assert(s3.slots@[j].in_policy);
                assert(s3.eviction@.contains(j as usize));
                let t = choose|t: int| 0 <= t < s3.eviction@.len() && s3.eviction@[t] == j as usize;
                assert(self.eviction@[t] == j as usize);
            }
            assert(self.wf());
            assert(released@.subrange(0, rel0.len() as int) =~= rel0);
        }
        i
    }


    /// Drain the shard: detach every reachable entry and release the
    /// unreferenced ones. Entries still externally referenced stay live but
    /// become unreachable.
    pub fn clear(&mut self, released: &mut Vec<Released<V>>)
        requires
            old(self).wf(),
        ensures
            final(self).wf(),
            final(self).capacity == old(self).capacity,
            final(self).waiters@ == old(self).waiters@,
            final(self).eviction.is_lru() == old(self).eviction.is_lru(),
            final(self).indexer@ == Map::<u64, usize>::empty(),
            final(self).eviction@ == Seq::<usize>::empty(),
            final(released)@.len() >= old(released)@.len(),
            final(released)@.subrange(0, old(released)@.len() as int) == old(released)@,
            final(self).usage == old(self).usage - released_charges(
                final(released)@.skip(old(released)@.len() as int),
            ),
            forall|t: int|
                old(released)@.len() <= t < final(released)@.len() ==> {
                    let item = #[trigger] final(released)@[t];
                    &&& old(self).contains(item.0)
                    &&& old(self).entry_of(item.0).value == Some(item.1)
                    &&& old(self).entry_of(item.0).context == item.2
                    &&& old(self).entry_of(item.0).charge == item.3
                    &&& old(self).entry_of(item.0).refs == 0
                },
            forall|t1: int, t2: int|
                old(released)@.len() <= t1 < t2 < final(released)@.len()
                    ==> (#[trigger] final(released)@[t1]).0 != (#[trigger] final(released)@[t2]).0,
    {
        let ghost base = old(released)@.len() as int;
        let ghost orig = *old(self);
        let ghost rel0 = old(released)@;
        let n = self.slots.len();
        let mut i: usize = 0;
        while i < n
            invariant
                self.wf(),
                n == self.slots@.len(),
                0 <= i <= n,
                self.capacity == orig.capacity,
                self.waiters@ == orig.waiters@,
                self.eviction.is_lru() == orig.eviction.is_lru(),
                self.slots@.len() == orig.slots@.len(),
                0 <= base <= released@.len(),
                released@.subrange(0, base) == rel0,
                self.usage + released_charges(released@.skip(base)) == orig.usage,
                forall|j: int| 0 <= j < i ==> !(#[trigger] self.slots@[j]).in_indexer,
                forall|k: u64| #[trigger]
                    self.indexer@.contains_key(k) ==> orig.indexer@.contains_key(k)
                        && self.indexer@[k] == orig.indexer@[k],
                forall|j: int|
                    i <= j < n ==> #[trigger] self.slots@[j] == orig.slots@[j],
                forall|t: int|
                    base <= t < released@.len() ==> {
                        let item = #[trigger] released@[t];
                        &&& orig.contains(item.0)
                        &&& orig.entry_of(item.0).value == Some(item.1)
                        &&& orig.entry_of(item.0).context == item.2
                        &&& orig.entry_of(item.0).charge == item.3
                        &&& orig.entry_of(item.0).refs == 0
                        &&& !self.indexer@.contains_key(item.0)
                    },
                forall|t1: int, t2: int|
                    base <= t1 < t2 < released@.len() ==> (#[trigger] released@[t1]).0 != (
                    #[trigger] released@[t2]).0,
            decreases n - i,
        {
            if self.slots[i].value.is_some() && self.slots[i].in_indexer {
                let key = self.slots[i].key;
                let ghost pre = *self;
                let r = self.detach_release(key);
                proof {
                    assert(pre.indexer@[key] == i);
                }
                match r {
                    None => {},
                    Some(e) => {
                        let ghost rel_pre = released@;
                        released.push(e);
                        proof {
                            assert(released@.subrange(0, base) =~= rel_pre.subrange(0, base));
                            let app = released@.skip(base);
                            assert(app.drop_last() =~= rel_pre.skip(base));
                            assert(released@[rel_pre.len() as int] == e);
                        }
                    },
                }
            }
            i = i + 1;
        }
        proof {
            assert forall|k: u64| !(#[trigger] self.indexer@.contains_key(k)) by {
                if self.indexer@.contains_key(k) {
                    assert(self.slots@[self.indexer@[k] as int].in_indexer);
                }
            }
            assert(self.indexer@ =~= Map::<u64, usize>::empty());
            assert(self.eviction@.len() == 0) by {
                if self.eviction@.len() > 0 {
                    let e = self.eviction@[0];
                    assert(self.slots@[e as int].in_policy);
                    assert(self.slots@[e as int].in_indexer);
                }
            }
            assert(self.eviction@ =~= Seq::<usize>::empty());
        }
    }

    /// Join or open the single-flight queue for a key. Returns whether this
    /// caller is the one that must run the loader (the queue was vacant).
    pub fn fetch_queue(&mut self, key: u64) -> (miss: bool)
        requires
            old(self).wf(),
        ensures
            final(self).wf(),
            final(self).slots@ == old(self).slots@,
            final(self).indexer@ == old(self).indexer@,
            final(self).eviction@ == old(self).eviction@,
            final(self).eviction.is_lru() == old(self).eviction.is_lru(),
            final(self).usage == old(self).usage,
            final(self).free@ == old(self).free@,
            final(self).capacity == old(self).capacity,
            miss == !old(self).waiters@.contains_key(key),
            miss ==> final(self).waiters@ == old(self).waiters@.insert(key, 0),
            !miss ==> final(self).waiters@ == old(self).waiters@.insert(
                key,
                if old(self).waiters@[key] < usize::MAX {
                    (old(self).waiters@[key] + 1) as usize
                } else {
                    old(self).waiters@[key]
                },
            ),
    {
        let n = match self.waiters.get(&key) {
            None => {
                self.waiters.insert(key, 0);
                return true;
            },
            Some(n_ref) => *n_ref,
        };
        let bumped = if n < usize::MAX {
            n + 1
        } else {
            n
        };
        self.waiters.insert(key, bumped);
        false
    }

    /// Drop the single-flight queue for a key after a failed load, so that
    /// later callers retry.
    pub fn abort_fetch(&mut self, key: u64)
        requires
            old(self).wf(),
        ensures
            final(self).wf(),
            final(self).slots@ == old(self).slots@,
            final(self).indexer@ == old(self).indexer@,
            final(self).eviction@ == old(self).eviction@,
            final(self).eviction.is_lru() == old(self).eviction.is_lru(),
            final(self).usage == old(self).usage,
            final(self).free@ == old(self).free@,
            final(self).capacity == old(self).capacity,
            final(self).waiters@ == old(self).waiters@.remove(key),
    {
        self.waiters.remove(&key);
    }

    /// Capture and clear the waiters registered for a key, returning how many
    /// there were.
    pub fn take_waiters(&mut self, key: u64) -> (n: usize)
        requires
            old(self).wf(),
        ensures
            final(self).wf(),
            final(self).slots@ == old(self).slots@,
            final(self).indexer@ == old(self).indexer@,
            final(self).eviction@ == old(self).eviction@,
            final(self).eviction.is_lru() == old(self).eviction.is_lru(),
            final(self).usage == old(self).usage,
            final(self).free@ == old(self).free@,
            final(self).capacity == old(self).capacity,
            final(self).waiters@ == old(self).waiters@.remove(key),
            n == if old(self).waiters@.contains_key(key) {
                old(self).waiters@[key]
            } else {
                0
            },
    {
        let n = match self.waiters.get(&key) {
            None => 0,
            Some(n_ref) => *n_ref,
        };
        self.waiters.remove(&key);
        n
    }


    /// Touch a key: notify the policy of an access without taking a
    /// reference. Returns whether the key is cached.
    pub fn touch(&mut self, key: u64) -> (r: bool)
        requires
            old(self).wf(),
        ensures
            final(self).wf(),
            final(self).capacity == old(self).capacity,
            final(self).usage == old(self).usage,
            final(self).waiters@ == old(self).waiters@,
            final(self).eviction.is_lru() == old(self).eviction.is_lru(),
            final(self).slots@ == old(self).slots@,
            final(self).indexer@ == old(self).indexer@,
            final(self).free@ == old(self).free@,
            r == old(self).contains(key),
            r ==> final(self).eviction@ == access_spec(
                old(self).eviction@,
                old(self).slot_of(key) as usize,
                old(self).eviction.is_lru(),
            ),
            !r ==> final(self).eviction@ == old(self).eviction@,
    {
        let got = match self.indexer.get(&key) {
            None => {
                return false;
            },
            Some(i_ref) => *i_ref,
        };
        let i = got;
        self.eviction.access(i);
        proof {
            let e0 = old(self).eviction@;
            let e1 = self.eviction@;
            if old(self).eviction.is_lru() && e0.contains(i) {
                crate::eviction::lemma_remove_value_distinct(e0, i);
                let t = e0.remove_value(i);
                assert(e1 == t.push(i));
                assert forall|e: usize| t.contains(e) implies #[trigger] e1.contains(e) by {
                    let j = choose|j: int| 0 <= j < t.len() && t[j] == e;
                    assert(e1[j] == e);
                }
                assert(e1.contains(i)) by {
                    assert(e1[e1.len() - 1] == i);
                }
                assert forall|e: usize| #[trigger] e1.contains(e) implies e0.contains(e) by {
                    let j = choose|j: int| 0 <= j < e1.len() && e1[j] == e;
                    if j < t.len() {
                        assert(t[j] == e);
                    }
                }
                assert forall|j: int| 0 <= j < t.len() implies #[trigger] t[j] != i by {
                    if t[j] == i {
                        assert(t.contains(i));
                    }
                }
                assert(crate::eviction::distinct_seq(e1));
                assert forall|e: usize| e0.contains(e) implies #[trigger] e1.contains(e) by {
                    if e != i {
                        assert(t.contains(e));
                    }
                }
            } else {
                assert(e1 == e0);
            }
            assert(self.wf());
        }
        true
    }


    /// Pop the policy's next victim out of the cache, handing the caller one
    /// reference on it. The victim leaves the policy and the indexer but
    /// stays live until that reference is given back. Returns the victim's
    /// arena slot.
    pub fn pop(&mut self) -> (r: Option<usize>)
        requires
            old(self).wf(),
        ensures
            final(self).wf(),
            final(self).capacity == old(self).capacity,
            final(self).usage == old(self).usage,
            final(self).waiters@ == old(self).waiters@,
            final(self).eviction.is_lru() == old(self).eviction.is_lru(),
            final(self).slots@.len() == old(self).slots@.len(),
            r is None <==> old(self).eviction@.len() == 0 || old(self).slots@[old(
                self,
            ).eviction@[0] as int].refs == usize::MAX,
            old(self).eviction@.len() == 0 ==> Self::same_core(old(self), final(self)),
            r is None && old(self).eviction@.len() > 0 ==> {
                let i = old(self).eviction@[0] as int;
                let h = old(self).slots@[i];
                &&& final(self).eviction@ == old(self).eviction@.drop_first()
                &&& final(self).indexer@ == old(self).indexer@
                &&& final(self).slots@ == old(self).slots@.update(
                    i,
                    Handle { in_policy: false, ..h },
                )
            },
            r is Some ==> {
                let i = old(self).eviction@[0] as int;
                let h = old(self).slots@[i];
                &&& r == Some(i as usize)
                &&& final(self).eviction@ == old(self).eviction@.drop_first()
                &&& final(self).indexer@ == old(self).indexer@.remove(h.key)
                &&& final(self).slots@ == old(self).slots@.update(
                    i,
                    Handle {
                        refs: (h.refs + 1) as usize,
                        in_indexer: false,
                        in_policy: false,
                        ..h
                    },
                )
            },
    {
        let ghost pre = *old(self);
        let popped = self.eviction.pop();
        let i = match popped {
            None => {
                return None;
            },
            Some(i) => i,
        };
        proof {
            crate::eviction::lemma_drop_first_distinct(pre.eviction@);
        }
        if self.slots[i].refs == usize::MAX {
            self.slots[i].in_policy = false;
            proof {
                let hp = self.slots@[i as int];
                assert(self.slots@ =~= pre.slots@.update(i as int, hp));
                lemma_sums_update(pre.slots@, i as int, hp);
                assert forall|j: int| 0 <= j < self.eviction@.len() implies 0 <= (
                #[trigger] self.eviction@[j] as int) < self.slots@.len()
                    && self.slots@[self.eviction@[j] as int].in_policy by {
                    let e = self.eviction@[j];
                    assert(self.eviction@.contains(e));
                    assert(pre.eviction@.contains(e) && e != i);
                    assert(pre.slots@[e as int].in_policy);
                }
                assert(self.wf());
            }
            return None;
        }
        self.slots[i].in_policy = false;
        let key = self.slots[i].key;
        self.indexer.remove(&key);
        self.slots[i].in_indexer = false;
        self.slots[i].refs = self.slots[i].refs + 1;
        proof {
            let hp = self.slots@[i as int];
            assert(self.slots@ =~= pre.slots@.update(i as int, hp));
            lemma_sums_update(pre.slots@, i as int, hp);
            assert forall|j: int| 0 <= j < self.eviction@.len() implies 0 <= (
            #[trigger] self.eviction@[j] as int) < self.slots@.len()
                && self.slots@[self.eviction@[j] as int].in_policy by {
                let e = self.eviction@[j];
                assert(self.eviction@.contains(e));
                assert(pre.eviction@.contains(e) && e != i);
                assert(pre.slots@[e as int].in_policy);
            }
            assert forall|j: int|
                0 <= j < self.slots@.len() && j != i && (#[trigger] self.slots@[j]).in_indexer
                    implies self.indexer@.contains_key(self.slots@[j].key)
                    && self.indexer@[self.slots@[j].key] == j by {
                assert(pre.slots@[j].in_indexer);
                assert(pre.indexer@[pre.slots@[j].key] == j);
                assert(pre.slots@[j].key != key);
            }
            assert(self.wf());
        }
        Some(i)
    }

    /// Look a key up without touching it.
    pub fn contains_key(&self, key: u64) -> (r: bool)
        ensures
            r == self.contains(key),
    {
        self.indexer.contains_key(&key)
    }
}

/// Handle lifecycle: an entry is handed to the listener exactly when its
/// last external reference is gone and the cache does not keep it — the
/// `r is Some` case of `try_release` is an if-and-only-if — and the released
/// slot is dead: it holds no value, no references, and no reachability, and
/// every release operation demands a live slot, so the same entry can never
/// be handed to the listener twice.
pub proof fn lemma_release_lifecycle<V>(s: &CacheShard<V>, i: int)
    requires
        s.wf(),
        0 <= i < s.slots@.len(),
        !s.slots@[i].live(),
    ensures
        s.slots@[i].refs == 0,
        !s.slots@[i].in_indexer,
        !s.slots@[i].in_policy,
        forall|reinsert: bool| !s.keeps_on_release(i, reinsert),
{
}

impl<V: Clone> CacheShard<V> {
    /// The entries as the policy orders them, next victim first. The keys are
    /// exact; the values are clones of the cached ones.
    pub fn dump(&self) -> (r: Vec<(u64, V)>)
        requires
            self.wf(),
        ensures
            r@.len() == self.eviction@.len(),
            forall|j: int|
                0 <= j < r@.len() ==> (#[trigger] r@[j]).0 == self.slots@[self.eviction@[j] as int].key,
    {
        let n = self.eviction.len();
        let mut r: Vec<(u64, V)> = Vec::new();
        let mut j: usize = 0;
        while j < n
            invariant
                self.wf(),
                n == self.eviction@.len(),
                0 <= j <= n,
                r@.len() == j,
                forall|t: int|
                    0 <= t < j ==> (#[trigger] r@[t]).0 == self.slots@[self.eviction@[t] as int].key,
            decreases n - j,
        {
            let i = self.eviction.id_at(j);
            let key = self.slots[i].key;
            let value = clone_value(self.slots[i].value.as_ref().unwrap());
            r.push((key, value));
            j = j + 1;
        }
        r
    }
}

/// Clone a cached value.
fn clone_value<V: Clone>(v: &V) -> V {
    v.clone()
}

} // verus!
