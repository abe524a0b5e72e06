//! Per-entry context handed to the eviction policy.

use vstd::prelude::*;

verus! {

/// Policy-defined context attached to an entry at insertion.
#[derive(Clone, Copy, Debug, PartialEq, Eq, Structural)]
pub enum CacheContext {
    /// Treat the entry like any other.
    Default,
    /// Hint that the entry is of low retention priority.
    LowPriority,
}

impl CacheContext {
    /// The context used when the caller supplies none.
    pub fn default_context() -> (r: CacheContext)
        ensures
            r == CacheContext::Default,
    {
        CacheContext::Default
    }
}

} // verus!
