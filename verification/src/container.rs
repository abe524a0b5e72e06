//! A pooled cache container over a backing store.
//!
//! Entries are spread over pools by hash. Each pool runs a recency policy
//! over its keys, accounts a weight per entry against its share of the
//! capacity, and keeps the entry's data in its backing store. Inserting
//! makes room by evicting least recently used entries first.

use std::collections::HashMap;

use vstd::prelude::*;

use crate::hashing::{hash_key, key_hash};

verus! {

/// Construction parameters of a container.
#[derive(Debug, Clone, Copy)]
pub struct Config {
    /// Total capacity, split evenly over the pools.
    pub capacity: usize,
    /// Base-two logarithm of the pool count.
    pub pool_count_bits: usize,
}

/// Total weight of the keys of `policy`, each weighed by `handles`.
pub open spec fn sum_weights(policy: Seq<u64>, handles: Map<u64, usize>) -> int
    decreases policy.len(),
{
    if policy.len() == 0 {
        0
    } else {
        sum_weights(policy.drop_last(), handles) + handles[policy.last()]
    }
}

/// One pool: a recency list, per-key weights, and the backing store.
pub struct Pool {
    /// Keys in recency order; the least recently used is at the front.
    pub policy: Vec<u64>,
    /// This pool's share of the capacity.
    pub capacity: usize,
    /// Total weight of the held entries.
    pub size: usize,
    /// Weight of each held key.
    pub handles: HashMap<u64, usize>,
    /// The entries' data.
    pub store: HashMap<u64, Vec<u8>>,
}

impl Pool {
    /// The pool invariant: the recency list, the weights and the store hold
    /// exactly the same keys, without duplicates, and the size is the total
    /// weight.
    pub open spec fn wf(&self) -> bool {
        &&& forall|j1: int, j2: int|
            0 <= j1 < j2 < self.policy@.len() ==> self.policy@[j1] != self.policy@[j2]
        &&& forall|j: int|
            0 <= j < self.policy@.len() ==> #[trigger] self.handles@.contains_key(
                self.policy@[j],
            )
        &&& forall|k: u64| #[trigger]
            self.handles@.contains_key(k) ==> self.policy@.contains(k)
                && self.store@.contains_key(k)
        &&& forall|k: u64| #[trigger]
            self.store@.contains_key(k) ==> self.handles@.contains_key(k)
        &&& self.size == sum_weights(self.policy@, self.handles@)
    }

    /// A key is held by the pool.
    pub open spec fn contains(&self, k: u64) -> bool {
        self.handles@.contains_key(k)
    }

    /// An empty pool.
    pub fn new(capacity: usize) -> (r: Pool)
        ensures
            r.wf(),
            r.capacity == capacity,
            r.size == 0,
            forall|k: u64| !(#[trigger] r.handles@.contains_key(k)),
            forall|k: u64| !(#[trigger] r.contains(k)),
    {
        let r = Pool {
            policy: Vec::new(),
            capacity,
            size: 0,
            handles: HashMap::new(),
            store: HashMap::new(),
        };
        proof {
            assert(r.wf());
        }
        r
    }

    /// Evict least recently used entries until `weight` more fits the
    /// capacity or the pool is empty.
    pub fn make_room(&mut self, weight: usize)
        requires
            old(self).wf(),
        ensures
            final(self).wf(),
            final(self).capacity == old(self).capacity,
            final(self).size <= old(self).size,
            final(self).size + weight <= final(self).capacity || final(self).policy@.len() == 0,
            forall|k: u64| #[trigger]
                final(self).handles@.contains_key(k) ==> old(self).handles@.contains_key(k)
                    && final(self).handles@[k] == old(self).handles@[k] && final(self).store@[k]
                    == old(self).store@[k],
    {
        let ghost orig = *old(self);
        while (self.size > self.capacity || weight > self.capacity - self.size)
            && self.policy.len() > 0
            invariant
                self.wf(),
                self.capacity == orig.capacity,
                self.size <= orig.size,
                weight + self.size <= weight + orig.size,
                forall|k: u64| #[trigger]
                    self.handles@.contains_key(k) ==> orig.handles@.contains_key(k)
                        && self.handles@[k] == orig.handles@[k] && self.store@[k]
                        == orig.store@[k],
            decreases self.policy@.len(),
        {
            let ghost pre = *self;
            let victim = self.policy[0];
            let w = *self.handles.get(&victim).unwrap();
            self.policy.remove(0);
            self.handles.remove(&victim);
            self.store.remove(&victim);
            proof {
                lemma_sum_weights_front(pre.policy@, pre.handles@);
                assert(self.policy@ =~= pre.policy@.drop_first());
                lemma_sum_weights_nonneg(self.policy@, pre.handles@);
                assert forall|j1: int, j2: int|
                    0 <= j1 < j2 < self.policy@.len() implies self.policy@[j1]
                    != self.policy@[j2] by {
                    assert(pre.policy@[j1 + 1] == self.policy@[j1]);
                    assert(pre.policy@[j2 + 1] == self.policy@[j2]);
                }
                assert forall|j: int|
                    0 <= j < self.policy@.len() implies #[trigger] self.handles@.contains_key(
                    self.policy@[j],
                ) by {
                    assert(pre.policy@[j + 1] == self.policy@[j]);
                    assert(self.policy@[j] != victim);
                }
                lemma_sum_weights_same(self.policy@, pre.handles@, self.handles@);
                assert forall|k: u64| #[trigger]
                    self.handles@.contains_key(k) implies self.policy@.contains(k) by {
                    assert(pre.policy@.contains(k));
                    let j = choose|j: int|
                        0 <= j < pre.policy@.len() && pre.policy@[j] == k;
                    assert(j != 0);
                    assert(self.policy@[j - 1] == k);
                }
                assert(w <= pre.size);
            }
            self.size = self.size - w;
            proof {
                assert(forall|j1: int, j2: int|
                    0 <= j1 < j2 < self.policy@.len() ==> self.policy@[j1] != self.policy@[j2]);
                assert(self.size == sum_weights(self.policy@, self.handles@));
                assert(forall|j: int|
                    0 <= j < self.policy@.len() ==> #[trigger] self.handles@.contains_key(
                        self.policy@[j],
                    ));
                assert(forall|k: u64| #[trigger]
                    self.handles@.contains_key(k) ==> self.policy@.contains(k)
                        && self.store@.contains_key(k));
                assert(forall|k: u64| #[trigger]
                    self.store@.contains_key(k) ==> self.handles@.contains_key(k));
                assert(self.wf());
            }
        }
    }

    /// Admit a key with its weight and data at the most recently used end.
    pub fn insert(&mut self, index: u64, weight: usize, data: Vec<u8>)
        requires
            old(self).wf(),
            !old(self).contains(index),
            old(self).size + weight <= usize::MAX,
        ensures
            final(self).wf(),
            final(self).capacity == old(self).capacity,
            final(self).contains(index),
            final(self).handles@ == old(self).handles@.insert(index, weight),
            final(self).store@ == old(self).store@.insert(index, data),
            final(self).policy@ == old(self).policy@.push(index),
            final(self).size == old(self).size + weight,
    {
        self.policy.push(index);
        self.handles.insert(index, weight);
        self.store.insert(index, data);
        self.size = self.size + weight;
        proof {
            lemma_sum_weights_same(
                old(self).policy@,
                old(self).handles@,
                self.handles@,
            );
            assert forall|j: int|
                0 <= j < old(self).policy@.len() implies old(self).policy@[j] != index by {
                if old(self).policy@[j] == index {
                    assert(old(self).handles@.contains_key(index));
                }
            }
            assert forall|k: u64| #[trigger]
                self.handles@.contains_key(k) implies self.policy@.contains(k) by {
                if k == index {
                    assert(self.policy@.last() == index);
                } else {
                    assert(old(self).handles@.contains_key(k));
                    assert(old(self).policy@.contains(k));
                    let j = choose|j: int|
                        0 <= j < old(self).policy@.len() && old(self).policy@[j] == k;
                    assert(self.policy@[j] == k);
                }
            }
            assert forall|j1: int, j2: int|
                0 <= j1 < j2 < self.policy@.len() implies self.policy@[j1]
                != self.policy@[j2] by {
                if j2 == self.policy@.len() - 1 {
                    assert(old(self).policy@[j1] != index);
                } else {
                    assert(old(self).policy@[j1] != old(self).policy@[j2]);
                }
            }
            assert(forall|j1: int, j2: int|
                0 <= j1 < j2 < self.policy@.len() ==> self.policy@[j1] != self.policy@[j2]);
            assert(forall|j: int|
                0 <= j < self.policy@.len() ==> #[trigger] self.handles@.contains_key(
                    self.policy@[j],
                ));
            assert(forall|k: u64| #[trigger]
                self.handles@.contains_key(k) ==> self.policy@.contains(k)
                    && self.store@.contains_key(k));
            assert(forall|k: u64| #[trigger]
                self.store@.contains_key(k) ==> self.handles@.contains_key(k));
            assert(self.policy@.drop_last() =~= old(self).policy@);
            assert(self.policy@.last() == index);
            assert(self.size == sum_weights(self.policy@, self.handles@));
            assert(self.wf());
        }
    }

    /// Drop a held key, giving back its weight.
    pub fn remove(&mut self, index: u64)
        requires
            old(self).wf(),
            old(self).contains(index),
        ensures
            final(self).wf(),
            final(self).capacity == old(self).capacity,
            !final(self).contains(index),
            final(self).handles@ == old(self).handles@.remove(index),
            final(self).store@ == old(self).store@.remove(index),
            final(self).policy@ == old(self).policy@.remove_value(index),
            final(self).size == old(self).size - old(self).handles@[index],
    {
        let w = *self.handles.get(&index).unwrap();
        proof {
            lemma_remove_value_distinct_u64(self.policy@, index);
        }
        remove_key(&mut self.policy, index);
        self.handles.remove(&index);
        self.store.remove(&index);
        proof {
            lemma_sum_weights_remove(old(self).policy@, old(self).handles@, index);
            assert forall|j: int|
                0 <= j < self.policy@.len() implies old(self).handles@.contains_key(
                #[trigger] self.policy@[j],
            ) && self.handles@.contains_key(self.policy@[j]) && old(
                self,
            ).handles@[self.policy@[j]] == self.handles@[self.policy@[j]] by {
                assert(self.policy@.contains(self.policy@[j]));
                assert(old(self).policy@.contains(self.policy@[j]));
                assert(self.policy@[j] != index);
            }
            lemma_sum_weights_same(self.policy@, old(self).handles@, self.handles@);
            lemma_sum_weights_nonneg(self.policy@, self.handles@);
            assert(w <= old(self).size);
        }
        self.size = self.size - w;
        proof {
            assert forall|k: u64| #[trigger]
                self.handles@.contains_key(k) implies self.policy@.contains(k) by {
                assert(old(self).handles@.contains_key(k));
                assert(old(self).policy@.contains(k));
            }
            assert(self.wf());
        }
    }

    /// Look a key up: promote it to most recently used and return a copy of
    /// its data.
    pub fn get(&mut self, index: u64) -> (r: Option<Vec<u8>>)
        requires
            old(self).wf(),
        ensures
            final(self).wf(),
            final(self).capacity == old(self).capacity,
            final(self).size == old(self).size,
            final(self).handles@ == old(self).handles@,
            final(self).store@ == old(self).store@,
            r is Some <==> old(self).contains(index),
            r is Some ==> r->Some_0@ == old(self).store@[index]@,
            r is Some ==> final(self).policy@ == old(self).policy@.remove_value(index).push(
                index,
            ),
            r is None ==> final(self).policy@ == old(self).policy@,
    {
        if !self.handles.contains_key(&index) {
            return None;
        }
        let ghost pre = *self;
        proof {
            lemma_remove_value_distinct_u64(self.policy@, index);
        }
        remove_key(&mut self.policy, index);
        self.policy.push(index);
        proof {
            lemma_sum_weights_remove(pre.policy@, pre.handles@, index);
            lemma_sum_weights_same(
                pre.policy@.remove_value(index),
                pre.handles@,
                self.handles@,
            );
            assert(self.policy@.last() == index);
            assert forall|j1: int, j2: int|
                0 <= j1 < j2 < self.policy@.len() implies self.policy@[j1]
                != self.policy@[j2] by {
                let t = pre.policy@.remove_value(index);
                if j2 < t.len() {
                } else {
                    if t[j1] == index {
                        assert(t.contains(index));
                    }
                }
            }
            assert forall|j: int|
                0 <= j < self.policy@.len() implies #[trigger] self.handles@.contains_key(
                self.policy@[j],
            ) by {
                let t = pre.policy@.remove_value(index);
                if j < t.len() {
                    assert(t.contains(t[j]));
                    assert(pre.policy@.contains(t[j]));
                }
            }
            assert forall|k: u64| #[trigger]
                self.handles@.contains_key(k) implies self.policy@.contains(k) by {
                let t = pre.policy@.remove_value(index);
                if k == index {
                    assert(self.policy@[self.policy@.len() - 1] == index);
                } else {
                    assert(pre.policy@.contains(k));
                    assert(t.contains(k));
                    let j = choose|j: int| 0 <= j < t.len() && t[j] == k;
                    assert(self.policy@[j] == k);
                }
            }
            assert(forall|j1: int, j2: int|
                0 <= j1 < j2 < self.policy@.len() ==> self.policy@[j1] != self.policy@[j2]);
            assert(forall|j: int|
                0 <= j < self.policy@.len() ==> #[trigger] self.handles@.contains_key(
                    self.policy@[j],
                ));
            assert(forall|k: u64| #[trigger]
                self.handles@.contains_key(k) ==> self.policy@.contains(k)
                    && self.store@.contains_key(k));
            assert(forall|k: u64| #[trigger]
                self.store@.contains_key(k) ==> self.handles@.contains_key(k));
            assert(self.policy@.drop_last() =~= pre.policy@.remove_value(index));
            assert(self.policy@.last() == index);
            assert(self.size == sum_weights(self.policy@, self.handles@));
            assert(self.wf());
        }
        let data = self.store.get(&index).unwrap();
        let mut out: Vec<u8> = Vec::new();
        let n = data.len();
        let mut t: usize = 0;
        while t < n
            invariant
                0 <= t <= n,
                n == data@.len(),
                out@ == data@.subrange(0, t as int),
            decreases n - t,
        {
            out.push(data[t]);
            proof {
                assert(out@ =~= data@.subrange(0, t + 1));
            }
            t = t + 1;
        }
        proof {
            assert(out@ =~= data@);
        }
        Some(out)
    }
}

/// What removing one occurrence of `k` does to a duplicate-free key list.
pub proof fn lemma_remove_value_distinct_u64(s: Seq<u64>, k: u64)
    requires
        forall|j1: int, j2: int| 0 <= j1 < j2 < s.len() ==> s[j1] != s[j2],
        s.contains(k),
    ensures
        s.remove_value(k).len() == s.len() - 1,
        forall|e: u64| #[trigger] s.remove_value(k).contains(e) <==> s.contains(e) && e != k,
        forall|j: int| 0 <= j < s.remove_value(k).len() ==> s.contains(#[trigger] s.remove_value(k)[j]),
        forall|j1: int, j2: int|
            0 <= j1 < j2 < s.remove_value(k).len() ==> s.remove_value(k)[j1] != s.remove_value(
                k,
            )[j2],
{
    s.index_of_first_ensures(k);
    let t = s.index_of_first(k).unwrap();
    let r = s.remove_value(k);
    assert(r == s.remove(t));
    s.remove_ensures(t);
    assert forall|e: u64| #[trigger] r.contains(e) implies s.contains(e) && e != k by {
        let j = choose|j: int| 0 <= j < r.len() && r[j] == e;
        if j < t {
            assert(s[j] == e);
        } else {
            assert(s[j + 1] == e);
        }
    }
    assert forall|e: u64| s.contains(e) && e != k implies #[trigger] r.contains(e) by {
        let j = choose|j: int| 0 <= j < s.len() && s[j] == e;
        if j < t {
            assert(r[j] == e);
        } else {
            assert(j != t);
            assert(r[j - 1] == e);
        }
    }
}

/// Remove the (unique) occurrence of `k` from `v`.
fn remove_key(v: &mut Vec<u64>, k: u64)
    requires
        old(v)@.contains(k),
    ensures
        final(v)@ == old(v)@.remove_value(k),
{
    let ghost s = old(v)@;
    let n = v.len();
    let mut j: usize = 0;
    while j < n && v[j] != k
        invariant
            n == v@.len(),
            v@ == s,
            0 <= j <= n,
            forall|t: int| 0 <= t < j ==> v@[t] != k,
            s.contains(k),
        decreases n - j,
    {
        j = j + 1;
    }
    proof {
        s.index_of_first_ensures(k);
        let t = s.index_of_first(k).unwrap();
        assert(s[t] == k);
        assert(j < n);
        assert(t == j) by {
            if t < j {
                assert(s[t] != k);
            }
        }
    }
    v.remove(j);
}

/// The pooled container.
pub struct Container {
    /// Base-two logarithm of the pool count.
    pub pool_count_bits: usize,
    /// The pools.
    pub pools: Vec<Pool>,
}

impl Container {
    /// The container invariant.
    pub open spec fn wf(&self) -> bool {
        &&& self.pools@.len() >= 1
        &&& self.pools@.len() == (1usize << self.pool_count_bits)
        &&& self.pool_count_bits < 32
        &&& forall|j: int| 0 <= j < self.pools@.len() ==> (#[trigger] self.pools@[j]).wf()
    }

    /// The pool a key belongs to.
    pub open spec fn pool_of(&self, index: u64) -> int {
        ((key_hash(index) as usize) as int) % (self.pools@.len() as int)
    }

    /// A key is held.
    pub open spec fn contains(&self, index: u64) -> bool {
        self.pools@[self.pool_of(index)].contains(index)
    }

    /// Build a container: `1 << pool_count_bits` pools, each with an even
    /// share of the capacity.
    pub fn new(config: Config) -> (r: Container)
        requires
            config.pool_count_bits < 32,
        ensures
            r.wf(),
            forall|k: u64| !(#[trigger] r.contains(k)),
    {
        let bits = config.pool_count_bits;
        let pool_count = 1usize << bits;
        proof {
            assert(1usize << bits >= 1) by (bit_vector)
                requires
                    bits < 32,
            ;
        }
        let capacity = config.capacity >> config.pool_count_bits;
        let mut pools: Vec<Pool> = Vec::new();
        let mut j: usize = 0;
        while j < pool_count
            invariant
                0 <= j <= pool_count,
                pools@.len() == j,
                forall|t: int| 0 <= t < j ==> (#[trigger] pools@[t]).wf(),
                forall|t: int, k: u64|
                    0 <= t < j ==> !(#[trigger] pools@[t].handles@.contains_key(k)),
            decreases pool_count - j,
        {
            pools.push(Pool::new(capacity));
            j = j + 1;
        }
        Container { pool_count_bits: config.pool_count_bits, pools }
    }

    /// Insert an entry weighed by its byte length, making room first by
    /// evicting least recently used entries. Refused exactly when the key is
    /// already held.
    pub fn insert(&mut self, index: u64, data: Vec<u8>) -> (r: bool)
        requires
            old(self).wf(),
        ensures
            final(self).wf(),
            final(self).pools@.len() == old(self).pools@.len(),
            r == !old(self).contains(index),
            !r ==> final(self).pools@ == old(self).pools@,
            forall|t: int|
                0 <= t < old(self).pools@.len() && t != old(self).pool_of(index)
                    ==> #[trigger] final(self).pools@[t] == old(self).pools@[t],
            r ==> {
                let p = old(self).pool_of(index);
                let p1 = final(self).pools@[p];
                &&& final(self).contains(index)
                &&& p1.store@.contains_key(index)
                &&& p1.store@[index]@ == data@
                &&& p1.handles@[index] == data@.len()
                &&& p1.policy@.len() > 0
                &&& p1.policy@.last() == index
                &&& (p1.size <= p1.capacity || p1.policy@ =~= seq![index])
                &&& p1.size <= old(self).pools@[p].size + data@.len()
                &&& forall|k: u64|
                    k != index && #[trigger] p1.handles@.contains_key(k) ==> old(self).pools@[
                        p].handles@.contains_key(k) && p1.handles@[k] == old(self).pools@[
                        p].handles@[k] && p1.store@[k] == old(self).pools@[p].store@[k]
            },
    {
        let p = self.pool_index(index);
        let pool = &mut self.pools[p];
        if pool.handles.contains_key(&index) {
            proof {
                assert(self.pools@ =~= old(self).pools@);
            }
            return false;
        }
        let weight = data.len();
        pool.make_room(weight);
        proof {
            if pool.policy@.len() == 0 {
                assert(pool.size == sum_weights(pool.policy@, pool.handles@));
            }
        }
        pool.insert(index, weight, data);
        proof {
            assert(self.pools@ =~= old(self).pools@.update(p as int, self.pools@[p as int]));
            let p1 = self.pools@[p as int];
            assert(p1.policy@.last() == index);
            assert(p1.size <= p1.capacity || p1.policy@ =~= seq![index]);
            assert(self.contains(index));
            assert(p1.store@.contains_key(index));
            assert(p1.handles@[index] == weight);
            assert(p1.size <= old(self).pools@[p as int].size + weight);
            assert forall|k: u64|
                k != index && #[trigger] p1.handles@.contains_key(k) implies old(self).pools@[
                p as int].handles@.contains_key(k) && p1.handles@[k] == old(self).pools@[
                p as int].handles@[k] && p1.store@[k] == old(self).pools@[p as int].store@[
                k] by {}
        }
        true
    }

    /// Remove an entry. Returns whether it was held.
    pub fn remove(&mut self, index: u64) -> (r: bool)
        requires
            old(self).wf(),
        ensures
            final(self).wf(),
            final(self).pools@.len() == old(self).pools@.len(),
            r == old(self).contains(index),
            !final(self).contains(index),
            !r ==> final(self).pools@ == old(self).pools@,
            forall|t: int|
                0 <= t < old(self).pools@.len() && t != old(self).pool_of(index)
                    ==> #[trigger] final(self).pools@[t] == old(self).pools@[t],
            r ==> {
                let p = old(self).pool_of(index);
                let p0 = old(self).pools@[p];
                let p1 = final(self).pools@[p];
                &&& p1.handles@ == p0.handles@.remove(index)
                &&& p1.store@ == p0.store@.remove(index)
                &&& p1.policy@ == p0.policy@.remove_value(index)
                &&& p1.size == p0.size - p0.handles@[index]
            },
    {
        let p = self.pool_index(index);
        let pool = &mut self.pools[p];
        if !pool.handles.contains_key(&index) {
            proof {
                assert(self.pools@ =~= old(self).pools@);
            }
            return false;
        }
        pool.remove(index);
        proof {
            assert(self.pools@ =~= old(self).pools@.update(p as int, self.pools@[p as int]));
        }
        true
    }

    /// Look an entry up, promoting it in its pool's recency order.
    pub fn get(&mut self, index: u64) -> (r: Option<Vec<u8>>)
        requires
            old(self).wf(),
        ensures
            final(self).wf(),
            final(self).pools@.len() == old(self).pools@.len(),
            r is Some <==> old(self).contains(index),
            r is Some ==> r->Some_0@ == old(self).pools@[old(self).pool_of(
                index,
            )].store@[index]@,
            forall|t: int|
                0 <= t < old(self).pools@.len() && t != old(self).pool_of(index)
                    ==> #[trigger] final(self).pools@[t] == old(self).pools@[t],
            ({
                let p = old(self).pool_of(index);
                let p0 = old(self).pools@[p];
                let p1 = final(self).pools@[p];
                &&& p1.handles@ == p0.handles@
                &&& p1.store@ == p0.store@
                &&& p1.size == p0.size
                &&& (r is Some ==> p1.policy@ == p0.policy@.remove_value(index).push(index))
                &&& (r is None ==> p1.policy@ == p0.policy@)
            }),
    {
        let p = self.pool_index(index);
        let pool = &mut self.pools[p];
        let r = pool.get(index);
        proof {
            assert(self.pools@ =~= old(self).pools@.update(p as int, self.pools@[p as int]));
        }
        r
    }

    /// The total weight held, over all pools, as long as it fits the
    /// machine word.
    pub fn size(&self) -> (r: usize)
        requires
            self.wf(),
            sum_pool_sizes(self.pools@) <= usize::MAX,
        ensures
            r == sum_pool_sizes(self.pools@),
    {
        let n = self.pools.len();
        let mut total: usize = 0;
        let mut j: usize = 0;
        while j < n
            invariant
                self.wf(),
                n == self.pools@.len(),
                0 <= j <= n,
                sum_pool_sizes(self.pools@) <= usize::MAX,
                total == sum_pool_sizes(self.pools@.subrange(0, j as int)),
            decreases n - j,
        {
            proof {
                assert(self.pools@.subrange(0, j + 1).drop_last() =~= self.pools@.subrange(
                    0,
                    j as int,
                ));
                lemma_sum_pool_sizes_prefix(self.pools@, j + 1);
                lemma_sum_pool_sizes_nonneg(self.pools@.subrange(0, j as int));
            }
            total = total + self.pools[j].size;
            j = j + 1;
        }
        proof {
            assert(self.pools@.subrange(0, n as int) =~= self.pools@);
        }
        total
    }

    /// The pool index of a key.
    fn pool_index(&self, index: u64) -> (r: usize)
        requires
            self.wf(),
        ensures
            r == self.pool_of(index),
            r < self.pools@.len(),
    {
        let h = hash_key(index);
        let n = self.pools.len();
        (h as usize) % n
    }
}

/// Total size over a sequence of pools.
pub open spec fn sum_pool_sizes(s: Seq<Pool>) -> int
    decreases s.len(),
{
    if s.len() == 0 {
        0
    } else {
        sum_pool_sizes(s.drop_last()) + s.last().size
    }
}

/// The total pool size is never negative.
pub proof fn lemma_sum_pool_sizes_nonneg(s: Seq<Pool>)
    ensures
        sum_pool_sizes(s) >= 0,
    decreases s.len(),
{
    if s.len() > 0 {
        lemma_sum_pool_sizes_nonneg(s.drop_last());
    }
}

/// A prefix of the pools never holds more size than all of them.
pub proof fn lemma_sum_pool_sizes_prefix(s: Seq<Pool>, j: int)
    requires
        0 <= j <= s.len(),
    ensures
        sum_pool_sizes(s.subrange(0, j)) <= sum_pool_sizes(s),
    decreases s.len() - j,
{
    if j == s.len() {
        assert(s.subrange(0, j) =~= s);
    } else {
        lemma_sum_pool_sizes_prefix(s, j + 1);
        assert(s.subrange(0, j + 1).drop_last() =~= s.subrange(0, j));
        lemma_sum_pool_sizes_nonneg(s.subrange(0, j + 1));
    }
}

/// The total weight is never negative when every listed key is weighed.
pub proof fn lemma_sum_weights_nonneg(policy: Seq<u64>, m: Map<u64, usize>)
    requires
        forall|j: int| 0 <= j < policy.len() ==> m.contains_key(#[trigger] policy[j]),
    ensures
        sum_weights(policy, m) >= 0,
    decreases policy.len(),
{
    if policy.len() > 0 {
        lemma_sum_weights_nonneg(policy.drop_last(), m);
    }
}

/// Weights summed under two maps that agree on the listed keys are equal.
pub proof fn lemma_sum_weights_same(
    policy: Seq<u64>,
    m1: Map<u64, usize>,
    m2: Map<u64, usize>,
)
    requires
        forall|j: int|
            0 <= j < policy.len() ==> m1.contains_key(#[trigger] policy[j]) && m2.contains_key(
                policy[j],
            ) && m1[policy[j]] == m2[policy[j]],
    ensures
        sum_weights(policy, m1) == sum_weights(policy, m2),
    decreases policy.len(),
{
    if policy.len() > 0 {
        lemma_sum_weights_same(policy.drop_last(), m1, m2);
    }
}

/// Dropping the front of the list drops exactly the front key's weight.
pub proof fn lemma_sum_weights_front(policy: Seq<u64>, m: Map<u64, usize>)
    requires
        policy.len() > 0,
    ensures
        sum_weights(policy, m) == m[policy[0]] + sum_weights(policy.drop_first(), m),
    decreases policy.len(),
{
    if policy.len() == 1 {
        assert(policy.drop_first() =~= Seq::<u64>::empty());
        assert(policy.drop_last() =~= Seq::<u64>::empty());
    } else {
        lemma_sum_weights_front(policy.drop_last(), m);
        assert(policy.drop_last().drop_first() =~= policy.drop_first().drop_last());
        assert(policy.drop_first().last() == policy.last());
        assert(policy.drop_last()[0] == policy[0]);
    }
}

/// Removing one occurrence of a key from a duplicate-free list drops its
/// weight from the total.
pub proof fn lemma_sum_weights_remove(policy: Seq<u64>, m: Map<u64, usize>, k: u64)
    requires
        policy.contains(k),
        forall|j1: int, j2: int| 0 <= j1 < j2 < policy.len() ==> policy[j1] != policy[j2],
    ensures
        sum_weights(policy.remove_value(k), m) == sum_weights(policy, m) - m[k],
    decreases policy.len(),
{
    policy.index_of_first_ensures(k);
    let t = policy.index_of_first(k).unwrap();
    if t == policy.len() - 1 {
        assert(policy.remove_value(k) =~= policy.drop_last());
    } else {
        assert(policy.last() != k);
        assert(policy.drop_last().contains(k)) by {
            assert(policy.drop_last()[t] == k);
        }
        assert(forall|j1: int, j2: int|
            0 <= j1 < j2 < policy.drop_last().len() ==> policy.drop_last()[j1]
                != policy.drop_last()[j2]);
        lemma_sum_weights_remove(policy.drop_last(), m, k);
        assert(policy.remove_value(k) =~= policy.drop_last().remove_value(k).push(
            policy.last(),
        )) by {
            policy.drop_last().index_of_first_ensures(k);
        }
        assert(policy.remove_value(k).drop_last() =~= policy.drop_last().remove_value(k));
    }
}

} // verus!
