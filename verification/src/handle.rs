//! The per-entry record of the in-memory cache.
//!
//! A handle lives in a slot of its shard's arena. It is *live* while it holds
//! a value; a dead handle is an empty box kept on the shard's free list for
//! reuse. The flags mirror where the handle is reachable from: the indexer
//! (by key) and the eviction policy.

use vstd::prelude::*;

use crate::context::CacheContext;

verus! {

/// One arena slot: an entry's key, value, accounting and reachability flags.
pub struct Handle<V> {
    /// Hash of the key, fixed at init.
    pub hash: u64,
    /// The entry's key.
    pub key: u64,
    /// The entry's value; `None` while the slot is free.
    pub value: Option<V>,
    /// Policy context given at insertion.
    pub context: CacheContext,
    /// Weight accounted against the shard capacity.
    pub charge: usize,
    /// Number of external strong references.
    pub refs: usize,
    /// Whether the entry is reachable through the shard indexer.
    pub in_indexer: bool,
    /// Whether the entry is held by the eviction policy.
    pub in_policy: bool,
}

impl<V> Handle<V> {
    /// A live handle holds a value.
    pub open spec fn live(&self) -> bool {
        self.value is Some
    }

    /// The charge this handle contributes to the shard usage.
    pub open spec fn charge_contrib(&self) -> int {
        if self.live() {
            self.charge as int
        } else {
            0
        }
    }

    /// The charge this handle contributes to the externally pinned total.
    pub open spec fn pinned_contrib(&self) -> int {
        if self.live() && self.refs > 0 {
            self.charge as int
        } else {
            0
        }
    }

    /// A fresh, dead handle.
    pub fn new() -> (r: Handle<V>)
        ensures
            !r.live(),
            r.refs == 0,
            !r.in_indexer,
            !r.in_policy,
    {
        Handle {
            hash: 0,
            key: 0,
            value: None,
            context: CacheContext::Default,
            charge: 0,
            refs: 0,
            in_indexer: false,
            in_policy: false,
        }
    }
}

/// Total charge of the live handles in an arena.
pub open spec fn sum_charges<V>(s: Seq<Handle<V>>) -> int
    decreases s.len(),
{
    if s.len() == 0 {
        0
    } else {
        sum_charges(s.drop_last()) + s.last().charge_contrib()
    }
}

/// Total charge of the live handles that are externally referenced.
pub open spec fn sum_pinned<V>(s: Seq<Handle<V>>) -> int
    decreases s.len(),
{
    if s.len() == 0 {
        0
    } else {
        sum_pinned(s.drop_last()) + s.last().pinned_contrib()
    }
}

/// Updating one slot shifts each total by the difference of that slot's
/// contributions.
pub proof fn lemma_sums_update<V>(s: Seq<Handle<V>>, i: int, h: Handle<V>)
    requires
        0 <= i < s.len(),
    ensures
        sum_charges(s.update(i, h)) == sum_charges(s) - s[i].charge_contrib()
            + h.charge_contrib(),
        sum_pinned(s.update(i, h)) == sum_pinned(s) - s[i].pinned_contrib() + h.pinned_contrib(),
    decreases s.len(),
{
    let t = s.update(i, h);
    if i == s.len() - 1 {
        assert(t.drop_last() =~= s.drop_last());
    } else {
        assert(t.drop_last() =~= s.drop_last().update(i, h));
        lemma_sums_update(s.drop_last(), i, h);
        assert(t.last() == s.last());
    }
}

/// Appending a slot adds its contributions to each total.
pub proof fn lemma_sums_push<V>(s: Seq<Handle<V>>, h: Handle<V>)
    ensures
        sum_charges(s.push(h)) == sum_charges(s) + h.charge_contrib(),
        sum_pinned(s.push(h)) == sum_pinned(s) + h.pinned_contrib(),
{
    assert(s.push(h).drop_last() =~= s);
}

/// The totals are sums of non-negative contributions, so each is at least
/// any single slot's contribution and never negative.
pub proof fn lemma_sums_bounds<V>(s: Seq<Handle<V>>, i: int)
    requires
        0 <= i < s.len(),
    ensures
        sum_charges(s) >= s[i].charge_contrib(),
        sum_pinned(s) >= s[i].pinned_contrib(),
        sum_charges(s) >= 0,
        sum_pinned(s) >= 0,
    decreases s.len(),
{
    lemma_sums_nonneg(s.drop_last());
    if i == s.len() - 1 {
    } else {
        lemma_sums_bounds(s.drop_last(), i);
    }
}

/// Both totals are non-negative.
pub proof fn lemma_sums_nonneg<V>(s: Seq<Handle<V>>)
    ensures
        sum_charges(s) >= 0,
        sum_pinned(s) >= 0,
    decreases s.len(),
{
    if s.len() > 0 {
        lemma_sums_nonneg(s.drop_last());
    }
}

/// If no live handle is externally referenced, the pinned total is zero.
pub proof fn lemma_sum_pinned_zero<V>(s: Seq<Handle<V>>)
    requires
        forall|i: int| 0 <= i < s.len() ==> (#[trigger] s[i].refs) == 0 || !s[i].live(),
    ensures
        sum_pinned(s) == 0,
    decreases s.len(),
{
    if s.len() > 0 {
        lemma_sum_pinned_zero(s.drop_last());
    }
}

} // verus!
