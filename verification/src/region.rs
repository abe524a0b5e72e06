//! Regions: the unit of append and the unit of reclamation.
//!
//! The manager tracks each region's state through the cycle
//! `clean → writing → full → evictable → reclaiming → clean` and a per-region
//! reader count. A region can only return to `clean` once no reader holds a
//! slice into it: the one transition to `clean` checks quiescence first.

use vstd::prelude::*;

use crate::bits::spec_is_aligned;
use crate::codec::{get_u64_be, put_u64_be, u64_be_bytes, u64_from_be};
use crate::device::MemDevice;

verus! {

/// Identifier of a region.
pub type RegionId = u32;

/// Magic number marking a valid region header.
pub const REGION_MAGIC: u64 = 0x19970327;

/// The header written at the front of a region.
#[derive(Debug, Clone, Copy, PartialEq, Eq, Structural)]
pub struct RegionHeader {
    /// Magic number deciding a valid region.
    pub magic: u64,
}

impl RegionHeader {
    /// Append the serialized header to `buf`.
    pub fn write(&self, buf: &mut Vec<u8>)
        ensures
            final(buf)@ == old(buf)@ + u64_be_bytes(self.magic),
    {
        put_u64_be(buf, self.magic)
    }

    /// Read a header from the front of `buf`.
    pub fn read(buf: &[u8]) -> (r: RegionHeader)
        requires
            buf@.len() >= 8,
        ensures
            r.magic == u64_from_be(buf@.subrange(0, 8)),
    {
        let magic = get_u64_be(buf, 0);
        RegionHeader { magic }
    }
}

/// What a caller demands to take a region exclusively.
#[derive(Debug, Clone, Copy)]
pub struct RegionInnerExclusiveRequire {
    /// Whether in-flight readers may be tolerated.
    pub can_read: bool,
}

/// The reader bookkeeping of one region.
#[derive(Debug)]
pub struct RegionInner {
    /// Number of in-flight readers holding a slice of the region.
    pub readers: usize,
}

impl RegionInner {
    /// How many readers hold a slice of the region.
    pub fn reader_count(&self) -> (r: usize)
        ensures
            r == self.readers,
    {
        self.readers
    }

    /// Whether the region may be taken exclusively under `require`: either
    /// readers are tolerated, or none is in flight.
    pub fn is_exclusive(&self, require: &RegionInnerExclusiveRequire) -> (r: bool)
        ensures
            r == (require.can_read || self.readers == 0),
    {
        require.can_read || self.readers == 0
    }
}

/// A slice read out of a region; dropping it releases the region's reader
/// count through the manager.
pub struct ReadSlice {
    /// The bytes read.
    pub buf: Vec<u8>,
    /// The region the slice was read from.
    pub region: RegionId,
}

impl ReadSlice {
    /// How many bytes the slice holds.
    pub fn len(&self) -> (r: usize)
        ensures
            r == self.buf@.len(),
    {
        self.buf.len()
    }

    /// Whether the slice is empty.
    pub fn is_empty(&self) -> (r: bool)
        ensures
            r == (self.buf@.len() == 0),
    {
        self.buf.len() == 0
    }
}

/// The lifecycle state of a region.
#[derive(Clone, Copy, Debug, PartialEq, Eq, Structural)]
pub enum RegionState {
    /// Reclaimed and available to a writer.
    Clean,
    /// Selected by the flusher; being appended to.
    Writing,
    /// Fully appended; queued for eviction scoring.
    Full,
    /// A reclaim candidate.
    Evictable,
    /// Index entries being invalidated; readers draining.
    Reclaiming,
}

/// Tracks every region's state and reader count, hands clean regions to the
/// write path, and drives reclamation.
pub struct RegionManager {
    /// Per-region lifecycle state.
    pub states: Vec<RegionState>,
    /// Per-region count of in-flight readers.
    pub readers: Vec<usize>,
}

impl RegionManager {
    /// The manager invariant: one state and one reader count per region.
    pub open spec fn wf(&self) -> bool {
        self.states@.len() == self.readers@.len()
    }

    /// Number of regions managed.
    pub open spec fn len(&self) -> int {
        self.states@.len() as int
    }

    /// Build a manager with all regions clean and no readers.
    pub fn new(regions: usize) -> (r: RegionManager)
        ensures
            r.wf(),
            r.len() == regions,
            forall|j: int| 0 <= j < regions ==> (#[trigger] r.states@[j]) == RegionState::Clean,
            forall|j: int| 0 <= j < regions ==> (#[trigger] r.readers@[j]) == 0,
    {
        let mut states: Vec<RegionState> = Vec::new();
        let mut readers: Vec<usize> = Vec::new();
        let mut j: usize = 0;
        while j < regions
            invariant
                0 <= j <= regions,
                states@.len() == j,
                readers@.len() == j,
                forall|t: int| 0 <= t < j ==> (#[trigger] states@[t]) == RegionState::Clean,
                forall|t: int| 0 <= t < j ==> (#[trigger] readers@[t]) == 0,
            decreases regions - j,
        {
            states.push(RegionState::Clean);
            readers.push(0);
            j = j + 1;
        }
        RegionManager { states, readers }
    }

    /// Hand out a clean region for writing: the lowest-numbered clean region
    /// moves to `writing`. Returns `None` when no region is clean.
    pub fn get_clean_region(&mut self) -> (r: Option<RegionId>)
        requires
            old(self).wf(),
            old(self).len() <= u32::MAX,
        ensures
            final(self).wf(),
            final(self).len() == old(self).len(),
            final(self).readers@ == old(self).readers@,
            r is None <==> forall|j: int|
                0 <= j < old(self).len() ==> (#[trigger] old(self).states@[j])
                    != RegionState::Clean,
            r is None ==> final(self).states@ == old(self).states@,
            r is Some ==> {
                let i = r->Some_0 as int;
                &&& 0 <= i < old(self).len()
                &&& old(self).states@[i] == RegionState::Clean
                &&& final(self).states@ == old(self).states@.update(i, RegionState::Writing)
                &&& forall|j: int|
                    0 <= j < i ==> (#[trigger] old(self).states@[j]) != RegionState::Clean
            },
    {
        let ghost orig = *old(self);
        let n = self.states.len();
        let mut j: usize = 0;
        while j < n
            invariant
                0 <= j <= n,
                n == self.states@.len(),
                orig == *old(self),
                self.states@ == orig.states@,
                self.readers@ == orig.readers@,
                orig.wf(),
                orig.len() <= u32::MAX,
                forall|t: int|
                    0 <= t < j ==> (#[trigger] self.states@[t]) != RegionState::Clean,
            decreases n - j,
        {
            if matches!(self.states[j], RegionState::Clean) {
                self.states[j] = RegionState::Writing;
                return Some(j as u32);
            }
            j = j + 1;
        }
        None
    }

    /// A writer finished appending: the region moves from `writing` to
    /// `full`.
    pub fn mark_full(&mut self, region: RegionId)
        requires
            old(self).wf(),
            (region as int) < old(self).len(),
            old(self).states@[region as int] == RegionState::Writing,
        ensures
            final(self).wf(),
            final(self).readers@ == old(self).readers@,
            final(self).states@ == old(self).states@.update(region as int, RegionState::Full),
    {
        self.states[region as usize] = RegionState::Full;
    }

    /// Eviction scoring picked the region: it moves from `full` to
    /// `evictable`.
    pub fn mark_evictable(&mut self, region: RegionId)
        requires
            old(self).wf(),
            (region as int) < old(self).len(),
            old(self).states@[region as int] == RegionState::Full,
        ensures
            final(self).wf(),
            final(self).readers@ == old(self).readers@,
            final(self).states@ == old(self).states@.update(
                region as int,
                RegionState::Evictable,
            ),
    {
        self.states[region as usize] = RegionState::Evictable;
    }

    /// Reclamation selected the region: it moves from `evictable` to
    /// `reclaiming` while its index entries are invalidated and readers
    /// drain.
    pub fn begin_reclaim(&mut self, region: RegionId)
        requires
            old(self).wf(),
            (region as int) < old(self).len(),
            old(self).states@[region as int] == RegionState::Evictable,
        ensures
            final(self).wf(),
            final(self).readers@ == old(self).readers@,
            final(self).states@ == old(self).states@.update(
                region as int,
                RegionState::Reclaiming,
            ),
    {
        self.states[region as usize] = RegionState::Reclaiming;
    }

    /// Reclaim quiescence: a reclaiming region becomes `clean` exactly when
    /// no reader holds a slice into it; while any reader remains, nothing
    /// changes.
    pub fn try_finish_reclaim(&mut self, region: RegionId) -> (ok: bool)
        requires
            old(self).wf(),
            (region as int) < old(self).len(),
            old(self).states@[region as int] == RegionState::Reclaiming,
        ensures
            final(self).wf(),
            final(self).readers@ == old(self).readers@,
            ok <==> old(self).readers@[region as int] == 0,
            ok ==> final(self).states@ == old(self).states@.update(
                region as int,
                RegionState::Clean,
            ),
            !ok ==> final(self).states@ == old(self).states@,
    {
        if self.readers[region as usize] == 0 {
            self.states[region as usize] = RegionState::Clean;
            true
        } else {
            false
        }
    }

    /// A reader takes a slice of a readable region.
    pub fn reader_inc(&mut self, region: RegionId)
        requires
            old(self).wf(),
            (region as int) < old(self).len(),
            old(self).readers@[region as int] < usize::MAX,
        ensures
            final(self).wf(),
            final(self).states@ == old(self).states@,
            final(self).readers@ == old(self).readers@.update(
                region as int,
                (old(self).readers@[region as int] + 1) as usize,
            ),
    {
        self.readers[region as usize] = self.readers[region as usize] + 1;
    }

    /// A reader dropped its slice.
    pub fn reader_dec(&mut self, region: RegionId)
        requires
            old(self).wf(),
            (region as int) < old(self).len(),
            old(self).readers@[region as int] > 0,
        ensures
            final(self).wf(),
            final(self).states@ == old(self).states@,
            final(self).readers@ == old(self).readers@.update(
                region as int,
                (old(self).readers@[region as int] - 1) as usize,
            ),
    {
        self.readers[region as usize] = self.readers[region as usize] - 1;
    }

    /// The state of a region.
    pub fn state(&self, region: RegionId) -> (r: RegionState)
        requires
            (region as int) < self.len(),
        ensures
            r == self.states@[region as int],
    {
        self.states[region as usize]
    }

    /// How many readers hold a slice of the region.
    pub fn readers_of(&self, region: RegionId) -> (r: usize)
        requires
            self.wf(),
            (region as int) < self.len(),
        ensures
            r == self.readers@[region as int],
    {
        self.readers[region as usize]
    }
}

/// Load a byte range of a region into a `ReadSlice`, reading in chunks of
/// the preferred I/O size, and count the caller as an in-flight reader. The
/// reader count pins the region against reclamation until the caller gives
/// the slice back with `reader_dec`.
pub fn load(
    manager: &mut RegionManager,
    device: &MemDevice,
    region: RegionId,
    start: usize,
    end: usize,
    io_size: usize,
) -> (r: ReadSlice)
    requires
        old(manager).wf(),
        device.wf(),
        (region as int) < old(manager).len(),
        old(manager).len() == device.regions@.len(),
        old(manager).readers@[region as int] < usize::MAX,
        start <= end <= device.region_size,
        spec_is_aligned(device.align, start),
        io_size > 0,
        spec_is_aligned(device.align, io_size),
    ensures
        final(manager).wf(),
        final(manager).states@ == old(manager).states@,
        final(manager).readers@ == old(manager).readers@.update(
            region as int,
            (old(manager).readers@[region as int] + 1) as usize,
        ),
        r.region == region,
        r.buf@ == device.regions@[region as int]@.subrange(start as int, end as int),
{
    manager.reader_inc(region);
    let mut buf: Vec<u8> = Vec::new();
    let mut offset: usize = 0;
    proof {
        assert(buf@ =~= device.regions@[region as int]@.subrange(start as int, start as int));
    }
    while start + offset < end
        invariant
            device.wf(),
            (region as int) < device.regions@.len(),
            start <= end <= device.region_size,
            0 <= offset <= end - start,
            io_size > 0,
            spec_is_aligned(device.align, start),
            spec_is_aligned(device.align, io_size),
            spec_is_aligned(device.align, (start + offset) as usize) || start + offset >= end,
            buf@ == device.regions@[region as int]@.subrange(start as int, start + offset),
        decreases end - start - offset,
    {
        let len = if io_size < end - start - offset {
            io_size
        } else {
            end - start - offset
        };
        let mut chunk = device.read(region, start + offset, len);
        let ghost pre = buf@;
        buf.append(&mut chunk);
        proof {
            assert(buf@ =~= device.regions@[region as int]@.subrange(
                start as int,
                start + offset + len,
            ));
            if len == io_size {
                crate::bits::lemma_aligned_sum(
                    device.align,
                    (start + offset) as int,
                    io_size as int,
                );
            }
        }
        offset = offset + len;
    }
    proof {
        assert(buf@ =~= device.regions@[region as int]@.subrange(start as int, end as int));
    }
    ReadSlice { buf, region }
}

/// Region reclaim quiescence: among the manager's transitions, the only one
/// that produces a `clean` region is `try_finish_reclaim`, and its contract
/// makes it the identity unless the region's reader count is zero. Hence a
/// region with a positive reader count cannot become clean by any single
/// transition.
pub proof fn lemma_reclaim_quiescence(pre: RegionManager, post: RegionManager, region: RegionId)
    requires
        pre.wf(),
        (region as int) < pre.len(),
        pre.states@[region as int] == RegionState::Reclaiming,
        pre.readers@[region as int] > 0,
        // any outcome `try_finish_reclaim` admits from `pre`:
        post.states@ == pre.states@ || (pre.readers@[region as int] == 0 && post.states@
            == pre.states@.update(region as int, RegionState::Clean)),
    ensures
        post.states@[region as int] != RegionState::Clean,
{
}

} // verus!
