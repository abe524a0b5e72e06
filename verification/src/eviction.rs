//! Eviction policies over arena slot ids.
//!
//! A policy is an ordered set of slot ids. The front is the next victim;
//! `push` admits at the back. FIFO ignores accesses and refuses reinsertion;
//! LRU promotes accessed entries to the back (most recently used) and
//! reinserts at the back. The shard that owns the policy keeps the ids unique
//! and in bounds; the policy's contracts are exact over its sequence view.

use vstd::prelude::*;

verus! {

/// Configuration of the FIFO policy.
#[derive(Clone, Copy, Debug)]
pub struct FifoConfig {
    /// Initial capacity hint for the queue.
    pub default_capacity: usize,
}

/// Configuration of the LRU policy.
#[derive(Clone, Copy, Debug)]
pub struct LruConfig {}

/// Which policy a cache is built with.
#[derive(Clone, Copy, Debug)]
pub enum EvictionConfig {
    /// First in, first out.
    Fifo(FifoConfig),
    /// Least recently used.
    Lru(LruConfig),
}

/// A first-in-first-out queue of slot ids.
pub struct Fifo {
    queue: Vec<usize>,
}

/// A recency list of slot ids; the least recently used id is at the front.
pub struct Lru {
    list: Vec<usize>,
}

/// A policy instance, dispatching between the variants.
pub enum Eviction {
    /// First in, first out.
    Fifo(Fifo),
    /// Least recently used.
    Lru(Lru),
}

/// The sequence view of a policy after an access to `i`: FIFO keeps the
/// order; LRU moves a present `i` to the back.
pub open spec fn access_spec(s: Seq<usize>, i: usize, is_lru: bool) -> Seq<usize> {
    if is_lru && s.contains(i) {
        s.remove_value(i).push(i)
    } else {
        s
    }
}

/// The sequence view of a policy after a reinsert of `i`: FIFO refuses; LRU
/// admits at the back.
pub open spec fn reinsert_spec(s: Seq<usize>, i: usize, is_lru: bool) -> Seq<usize> {
    if is_lru {
        s.push(i)
    } else {
        s
    }
}

/// Remove the (unique) occurrence of `i` from `v`.
fn remove_id(v: &mut Vec<usize>, i: usize)
    requires
        old(v)@.contains(i),
    ensures
        final(v)@ == old(v)@.remove_value(i),
{
    let ghost s = old(v)@;
    let n = v.len();
    let mut j: usize = 0;
    while j < n && v[j] != i
        invariant
            n == v@.len(),
            v@ == s,
            0 <= j <= n,
            forall|t: int| 0 <= t < j ==> v@[t] != i,
            s.contains(i),
        decreases n - j,
    {
        j = j + 1;
    }
    proof {
        s.index_of_first_ensures(i);
        let k = s.index_of_first(i).unwrap();
        assert(s[k] == i);
        assert(j < n);
        assert(k == j) by {
            if k < j {
                assert(s[k] != i);
            }
        }
    }
    v.remove(j);
}

impl Eviction {
    /// The ordered slot ids, front first.
    pub closed spec fn view(&self) -> Seq<usize> {
        match self {
            Eviction::Fifo(f) => f.queue@,
            Eviction::Lru(l) => l.list@,
        }
    }

    /// Whether this is the LRU variant.
    pub closed spec fn is_lru(&self) -> bool {
        match self {
            Eviction::Fifo(_) => false,
            Eviction::Lru(_) => true,
        }
    }

    /// Build a policy from its configuration.
    pub fn new(config: &EvictionConfig) -> (r: Eviction)
        ensures
            r@ == Seq::<usize>::empty(),
            r.is_lru() == (config is Lru),
    {
        let r = match config {
            EvictionConfig::Fifo(f) => Eviction::Fifo(
                Fifo { queue: Vec::with_capacity(f.default_capacity) },
            ),
            EvictionConfig::Lru(_) => Eviction::Lru(Lru { list: Vec::new() }),
        };
        proof {
            assert(r@ =~= Seq::<usize>::empty());
        }
        r
    }

    /// Admit a new slot id at the back.
    pub fn push(&mut self, i: usize)
        ensures
            final(self)@ == old(self)@.push(i),
            final(self).is_lru() == old(self).is_lru(),
    {
        match self {
            Eviction::Fifo(f) => f.queue.push(i),
            Eviction::Lru(l) => l.list.push(i),
        }
        proof {
            assert(self@ =~= old(self)@.push(i));
        }
    }

    /// Detach and return the next victim, from the front.
    pub fn pop(&mut self) -> (r: Option<usize>)
        ensures
            final(self).is_lru() == old(self).is_lru(),
            old(self)@.len() == 0 ==> r is None && final(self)@ == old(self)@,
            old(self)@.len() > 0 ==> r == Some(old(self)@[0]) && final(self)@ == old(self)@.drop_first(),
    {
        let r = match self {
            Eviction::Fifo(f) => {
                if f.queue.len() == 0 {
                    None
                } else {
                    Some(f.queue.remove(0))
                }
            },
            Eviction::Lru(l) => {
                if l.list.len() == 0 {
                    None
                } else {
                    Some(l.list.remove(0))
                }
            },
        };
        proof {
            if old(self)@.len() > 0 {
                assert(self@ =~= old(self)@.drop_first());
            } else {
                assert(self@ =~= old(self)@);
            }
        }
        r
    }

    /// Note an access to `i`: LRU promotes it to the back, FIFO does nothing.
    pub fn access(&mut self, i: usize)
        ensures
            final(self).is_lru() == old(self).is_lru(),
            final(self)@ == access_spec(old(self)@, i, old(self).is_lru()),
    {
        match self {
            Eviction::Lru(l) => {
                let n = l.list.len();
                let mut j: usize = 0;
                let mut found: bool = false;
                while j < n && !found
                    invariant
                        n == l.list@.len(),
                        0 <= j <= n,
                        forall|t: int| 0 <= t < j ==> l.list@[t] != i,
                        found ==> j < n && l.list@[j as int] == i,
                        l.list@ == old(self)@,
                    decreases n - j + (if found { 0int } else { 1int }),
                {
                    if l.list[j] == i {
                        found = true;
                    } else {
                        j = j + 1;
                    }
                }
                if found {
                    let v = l.list.remove(j);
                    l.list.push(v);
                    proof {
                        let s = old(self)@;
                        assert(s.contains(i));
                        s.index_of_first_ensures(i);
                        let k = s.index_of_first(i).unwrap();
                        assert(k == j) by {
                            if k < j {
                                assert(s[k] != i);
                            }
                        }
                        assert(self@ =~= s.remove_value(i).push(i));
                    }
                } else {
                    proof {
                        assert(!old(self)@.contains(i)) by {
                            if old(self)@.contains(i) {
                                let k = choose|k: int|
                                    0 <= k < old(self)@.len() && old(self)@[k] == i;
                                assert(old(self)@[k] == i);
                            }
                        }
                        assert(self@ =~= old(self)@);
                    }
                }
            },
            Eviction::Fifo(_) => {},
        }
    }

    /// Detach `i`, which must be present.
    pub fn remove(&mut self, i: usize)
        requires
            old(self)@.contains(i),
        ensures
            final(self).is_lru() == old(self).is_lru(),
            final(self)@ == old(self)@.remove_value(i),
    {
        match self {
            Eviction::Fifo(f) => remove_id(&mut f.queue, i),
            Eviction::Lru(l) => remove_id(&mut l.list, i),
        }
    }

    /// Offer to re-admit `i` after its last external reference dropped.
    /// Returns whether the policy accepted it.
    pub fn reinsert(&mut self, i: usize) -> (accepted: bool)
        ensures
            final(self).is_lru() == old(self).is_lru(),
            accepted == old(self).is_lru(),
            final(self)@ == reinsert_spec(old(self)@, i, old(self).is_lru()),
    {
        match self {
            Eviction::Lru(l) => {
                l.list.push(i);
                proof {
                    assert(self@ =~= old(self)@.push(i));
                }
                true
            },
            Eviction::Fifo(_) => false,
        }
    }

    /// Drain the policy, returning the ids front first.
    pub fn clear(&mut self) -> (r: Vec<usize>)
        ensures
            final(self).is_lru() == old(self).is_lru(),
            final(self)@ == Seq::<usize>::empty(),
            r@ == old(self)@,
    {
        match self {
            Eviction::Fifo(f) => {
                let mut out: Vec<usize> = Vec::new();
                std::mem::swap(&mut out, &mut f.queue);
                out
            },
            Eviction::Lru(l) => {
                let mut out: Vec<usize> = Vec::new();
                std::mem::swap(&mut out, &mut l.list);
                out
            },
        }
    }

    /// Whether the policy holds no ids.
    pub fn is_empty(&self) -> (r: bool)
        ensures
            r == (self@.len() == 0),
    {
        match self {
            Eviction::Fifo(f) => f.queue.len() == 0,
            Eviction::Lru(l) => l.list.len() == 0,
        }
    }

    /// How many ids the policy holds.
    pub fn len(&self) -> (r: usize)
        ensures
            r == self@.len(),
    {
        match self {
            Eviction::Fifo(f) => f.queue.len(),
            Eviction::Lru(l) => l.list.len(),
        }
    }

    /// The id at position `j`, front first.
    pub fn id_at(&self, j: usize) -> (r: usize)
        requires
            j < self@.len(),
        ensures
            r == self@[j as int],
    {
        match self {
            Eviction::Fifo(f) => f.queue[j],
            Eviction::Lru(l) => l.list[j],
        }
    }
}

/// No id occurs twice.
pub open spec fn distinct_seq(s: Seq<usize>) -> bool {
    forall|j1: int, j2: int| 0 <= j1 < j2 < s.len() ==> s[j1] != s[j2]
}

/// What removing one occurrence of `x` does to a duplicate-free sequence:
/// the length drops by one, exactly `x` leaves, and distinctness is kept.
pub proof fn lemma_remove_value_distinct(s: Seq<usize>, x: usize)
    requires
        distinct_seq(s),
        s.contains(x),
    ensures
        s.remove_value(x).len() == s.len() - 1,
        forall|e: usize| #[trigger] s.remove_value(x).contains(e) <==> s.contains(e) && e != x,
        distinct_seq(s.remove_value(x)),
        forall|j: int|
            0 <= j < s.remove_value(x).len() ==> s.contains(#[trigger] s.remove_value(x)[j]),
{
    s.index_of_first_ensures(x);
    let k = s.index_of_first(x).unwrap();
    let t = s.remove_value(x);
    assert(t == s.remove(k));
    s.remove_ensures(k);
    assert forall|e: usize| #[trigger] t.contains(e) implies s.contains(e) && e != x by {
        let j = choose|j: int| 0 <= j < t.len() && t[j] == e;
        if j < k {
            assert(s[j] == e);
        } else {
            assert(s[j + 1] == e);
        }
    }
    assert forall|e: usize| s.contains(e) && e != x implies #[trigger] t.contains(e) by {
        let j = choose|j: int| 0 <= j < s.len() && s[j] == e;
        if j < k {
            assert(t[j] == e);
        } else {
            assert(j != k);
            assert(t[j - 1] == e);
        }
    }
}

/// What an access does to a duplicate-free sequence: the same ids remain,
/// the length is kept, and distinctness is preserved — FIFO leaves the order
/// alone, LRU moves the accessed id to the back.
pub proof fn lemma_access_spec_properties(s: Seq<usize>, i: usize, is_lru: bool)
    requires
        distinct_seq(s),
    ensures
        access_spec(s, i, is_lru).len() == s.len(),
        forall|e: usize| #[trigger] access_spec(s, i, is_lru).contains(e) <==> s.contains(e),
        distinct_seq(access_spec(s, i, is_lru)),
{
    if is_lru && s.contains(i) {
        lemma_remove_value_distinct(s, i);
        let t = s.remove_value(i);
        let a = access_spec(s, i, is_lru);
        assert(a == t.push(i));
        assert forall|e: usize| t.contains(e) implies #[trigger] a.contains(e) by {
            let j = choose|j: int| 0 <= j < t.len() && t[j] == e;
            assert(a[j] == e);
        }
        assert(a.contains(i)) by {
            assert(a[a.len() - 1] == i);
        }
        assert forall|e: usize| #[trigger] a.contains(e) implies s.contains(e) by {
            let j = choose|j: int| 0 <= j < a.len() && a[j] == e;
            if j < t.len() {
                assert(t[j] == e);
            }
        }
        assert forall|j: int| 0 <= j < t.len() implies #[trigger] t[j] != i by {
            if t[j] == i {
                assert(t.contains(i));
            }
        }
        assert(distinct_seq(a));
        assert forall|e: usize| s.contains(e) implies #[trigger] a.contains(e) by {
            if e != i {
                assert(t.contains(e));
            }
        }
    }
}

/// Dropping the front of a duplicate-free sequence keeps it duplicate-free,
/// keeps every remaining id, and sheds exactly the front id.
pub proof fn lemma_drop_first_distinct(s: Seq<usize>)
    requires
        distinct_seq(s),
        s.len() > 0,
    ensures
        distinct_seq(s.drop_first()),
        forall|e: usize| #[trigger] s.drop_first().contains(e) <==> s.contains(e) && e != s[0],
{
    let t = s.drop_first();
    assert forall|e: usize| #[trigger] t.contains(e) implies s.contains(e) && e != s[0] by {
        let j = choose|j: int| 0 <= j < t.len() && t[j] == e;
        assert(s[j + 1] == e);
    }
    assert forall|e: usize| s.contains(e) && e != s[0] implies #[trigger] t.contains(e) by {
        let j = choose|j: int| 0 <= j < s.len() && s[j] == e;
        assert(j != 0);
        assert(t[j - 1] == e);
    }
}

} // verus!
