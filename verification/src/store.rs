//! The disk store core over an in-memory device.
//!
//! Entries are enqueued into the write batch; a flush writes each group with
//! one aligned region write, then publishes the group's addresses into the
//! index and applies the tombstones. A load consults the index, reads the
//! frame, decodes it, and verifies the key. Recovery rebuilds the index by
//! scanning every region.

use vstd::prelude::*;

use crate::batch::{BatchMut, GroupMut, HashedEntryAddress, TombstoneInfo};
use crate::bits::spec_is_aligned;
use crate::device::MemDevice;
use crate::frame::{decode_frame, spec_decode_frame, HEADER_LEN};
use crate::hashing::{hash_key, key_hash};
use crate::indexer::{publish_spec, EntryAddress, Indexer};
use crate::region::{RegionManager, RegionState};
use crate::scanner::{recover_region, spec_frames, spec_recover};

verus! {

/// The index after publishing one run of addresses, from position `from`
/// on, in order.
pub open spec fn spec_publish_idxs(
    m: Map<u64, EntryAddress>,
    run: Seq<HashedEntryAddress>,
    from: int,
) -> Map<u64, EntryAddress>
    decreases run.len() - from,
    when 0 <= from <= run.len()
{
    if from >= run.len() {
        m
    } else {
        spec_publish_idxs(publish_spec(m, run[from].hash, run[from].address), run, from + 1)
    }
}

/// The index after publishing several runs, group by group.
pub open spec fn spec_publish_runs(
    m: Map<u64, EntryAddress>,
    runs: Seq<Seq<HashedEntryAddress>>,
    from: int,
) -> Map<u64, EntryAddress>
    decreases runs.len() - from,
    when 0 <= from <= runs.len()
{
    if from >= runs.len() {
        m
    } else {
        spec_publish_runs(spec_publish_idxs(m, runs[from], 0), runs, from + 1)
    }
}

/// The index after applying a run of tombstones, from position `from` on.
pub open spec fn spec_apply_tombstones(
    m: Map<u64, EntryAddress>,
    ts: Seq<TombstoneInfo>,
    from: int,
) -> Map<u64, EntryAddress>
    decreases ts.len() - from,
    when 0 <= from <= ts.len()
{
    if from >= ts.len() {
        m
    } else {
        spec_apply_tombstones(m.remove(ts[from].hash), ts, from + 1)
    }
}

/// The index runs of a batch under construction.
pub open spec fn spec_runs_of(groups: Seq<GroupMut>) -> Seq<Seq<HashedEntryAddress>> {
    groups.map_values(|g: GroupMut| g.indices@)
}

/// The disk store: device, index, region states and the open write batch.
pub struct Store {
    /// The backing device.
    pub device: MemDevice,
    /// The index from hash to address.
    pub indexer: Indexer,
    /// Region lifecycle states.
    pub regions: RegionManager,
    /// The open write batch.
    pub batch: BatchMut,
    /// The next sequence to assign.
    pub sequence: u64,
}

impl Store {
    /// The store invariant: the device is sound, the batch matches the
    /// device's geometry, and the batch's open region exists.
    pub open spec fn wf(&self) -> bool {
        &&& self.device.wf()
        &&& self.batch.wf()
        &&& self.batch.align == self.device.align
        &&& self.batch.region_size == self.device.region_size
        &&& self.regions.wf()
        &&& self.regions.len() == self.device.regions@.len()
        &&& self.regions.len() <= u32::MAX
        &&& forall|j: int|
            0 <= j < self.batch.groups@.len() ==> (#[trigger] self.batch.groups@[j]).region.region
                < self.device.regions@.len()
        &&& forall|j: int|
            0 <= j < self.batch.groups@.len() ==> self.regions.states@[(
            #[trigger] self.batch.groups@[j]).region.region as int] == RegionState::Writing
        &&& forall|j1: int, j2: int|
            0 <= j1 < j2 < self.batch.groups@.len() ==> self.batch.groups@[j1].region.region
                != self.batch.groups@[j2].region.region
    }

    /// Open a store over a fresh device. The first region is taken for
    /// writing.
    pub fn new(regions: usize, region_size: usize, align: usize) -> (r: Store)
        requires
            regions >= 1,
            regions <= u32::MAX,
            align > 0,
            crate::bits::is_pow2(align),
            spec_is_aligned(align, region_size),
            region_size + align <= usize::MAX,
            region_size <= u32::MAX,
        ensures
            r.wf(),
            r.indexer@ == Map::<u64, crate::indexer::EntryAddress>::empty(),
    {
        let device = MemDevice::new(regions, region_size, align);
        let indexer = Indexer::new();
        let mut manager = RegionManager::new(regions);
        let first = manager.get_clean_region();
        let first_region = match first {
            Some(id) => id,
            None => 0,
        };
        let batch = BatchMut::new(region_size, align, first_region);
        Store { device, indexer, regions: manager, batch, sequence: 1 }
    }

    /// Enqueue an entry for writing. Returns `false` — not admitted — when
    /// the value cannot fit a region, when no clean region is left for a new
    /// group, or when the sequence space is exhausted.
    /// Take a clean region and open a new group against it. Returns `false`
    /// when no region is clean.
    fn open_new_group(&mut self) -> (ok: bool)
        requires
            old(self).wf(),
        ensures
            final(self).wf(),
            final(self).batch.region_size == old(self).batch.region_size,
            final(self).batch.align == old(self).batch.align,
            final(self).sequence == old(self).sequence,
            ok ==> final(self).batch.tail().region.offset == 0
                && final(self).batch.tail().region.len == 0,
            final(self).batch.buffer@ == old(self).batch.buffer@,
            ok <==> exists|j: int|
                0 <= j < old(self).regions.len() && (#[trigger] old(self).regions.states@[j])
                    == RegionState::Clean,
    {
        let next = self.regions.get_clean_region();
        match next {
            None => false,
            Some(region) => {
                let ghost pre = *self;
                self.batch.append_group(region);
                proof {
                    assert(old(self).regions.states@[region as int] == RegionState::Clean);
                    assert(pre.regions.states@ == old(self).regions.states@.update(
                        region as int,
                        RegionState::Writing,
                    ));
                    assert forall|t: int|
                        0 <= t < pre.batch.groups@.len() implies pre.regions.states@[(
                    #[trigger] pre.batch.groups@[t]).region.region as int]
                        == RegionState::Writing by {
                        assert(old(self).regions.states@[pre.batch.groups@[t].region.region as int]
                            == RegionState::Writing);
                    }
                    assert forall|t: int|
                        0 <= t < self.batch.groups@.len() - 1 implies (
                    #[trigger] self.batch.groups@[t]).region.region == pre.batch.groups@[
                    t].region.region by {
                        if t < pre.batch.groups@.len() - 1 {
                            assert(self.batch.groups@.subrange(
                                0,
                                pre.batch.groups@.len() - 1,
                            )[t] == pre.batch.groups@.subrange(
                                0,
                                pre.batch.groups@.len() - 1,
                            )[t]);
                        }
                    }
                    assert forall|t: int|
                        0 <= t < self.batch.groups@.len() implies (
                    #[trigger] self.batch.groups@[t]).region.region
                        < self.device.regions@.len() && self.regions.states@[
                    self.batch.groups@[t].region.region as int] == RegionState::Writing by {
                        if t < pre.batch.groups@.len() {
                            assert(old(self).regions.states@[pre.batch.groups@[
                            t].region.region as int] == RegionState::Writing);
                            assert(pre.batch.groups@[t].region.region != region);
                        } else {
                            assert(self.batch.groups@[t].region.region == region);
                        }
                    }
                    assert forall|j1: int, j2: int|
                        0 <= j1 < j2 < self.batch.groups@.len() implies self.batch.groups@[
                    j1].region.region != self.batch.groups@[j2].region.region by {
                        if j2 < self.batch.groups@.len() - 1 {
                            assert(pre.batch.groups@[j1].region.region != pre.batch.groups@[
                            j2].region.region);
                        } else {
                            assert(old(self).regions.states@[pre.batch.groups@[
                            j1].region.region as int] == RegionState::Writing);
                        }
                    }
                    assert(self.wf());
                }
                true
            },
        }
    }

    /// Enqueue an entry for writing. Admission is exact: an entry is refused
    /// only when its value cannot be framed (too long for the frame format
    /// or for one region), when the sequence space is exhausted, when the
    /// write buffer cannot grow, or when a new group is needed and no clean
    /// region is left.
    #[verifier::rlimit(100)]
    #[verifier::spinoff_prover]
    pub fn enqueue(&mut self, key: u64, value: &Vec<u8>) -> (admitted: bool)
        requires
            old(self).wf(),
        ensures
            final(self).wf(),
            final(self).sequence == old(self).sequence + (if admitted {
                1int
            } else {
                0int
            }),
            admitted <==> {
                let frame_len = HEADER_LEN + value@.len() + 8;
                let tail0 = old(self).batch.tail();
                let fits0 = tail0.region.offset + tail0.region.len + crate::bits::spec_align_up(
                    old(self).batch.align,
                    frame_len as usize,
                ) <= old(self).batch.region_size;
                &&& value@.len() <= u32::MAX - 8
                &&& value@.len() <= usize::MAX - HEADER_LEN - 8
                &&& old(self).sequence < u64::MAX
                &&& frame_len <= old(self).batch.region_size
                &&& (fits0 && old(self).batch.buffer@.len() + frame_len + old(self).batch.align
                    <= usize::MAX || !fits0 && crate::bits::spec_align_up(
                    old(self).batch.align,
                    frame_len as usize,
                ) <= old(self).batch.region_size && exists|j: int|
                    0 <= j < old(self).regions.len() && (#[trigger] old(self).regions.states@[j])
                        == RegionState::Clean)
            },
            admitted ==> {
                let frame = crate::frame::spec_frame(key, value@, old(self).sequence);
                let aligned = crate::bits::spec_align_up(
                    final(self).batch.align,
                    frame.len() as usize,
                );
                let end = final(self).batch.buffer@.len() as int;
                &&& end >= aligned
                &&& final(self).batch.buffer@.subrange(
                    end - aligned,
                    end - aligned + frame.len(),
                ) == frame
                &&& final(self).batch.tail().indices@.len() > 0
                &&& final(self).batch.tail().indices@.last().hash == crate::hashing::key_hash(
                    key,
                )
                &&& final(self).batch.tail().indices@.last().address.sequence == old(
                    self,
                ).sequence
            },
    {
        if value.len() > u32::MAX as usize - 8 {
            return false;
        }
        if value.len() > usize::MAX - HEADER_LEN - 8 {
            return false;
        }
        if self.sequence == u64::MAX {
            return false;
        }
        let frame_len = HEADER_LEN + value.len() + 8;
        if frame_len > self.batch.region_size {
            return false;
        }
        if self.batch.fits(frame_len) {
            if self.batch.buffer.len() > usize::MAX - frame_len - self.batch.align {
                return false;
            }
        } else {
            self.flush();
            if !self.open_new_group() {
                return false;
            }
            if !self.batch.fits(frame_len) {
                return false;
            }
        }
        let sequence = self.sequence;
        self.sequence = self.sequence + 1;
        self.batch.entry(key, value, sequence);
        true
    }

    /// Rotate the batch and persist it: one aligned write per group, then
    /// publish each group's addresses and apply the tombstones. Returns
    /// whether anything went to the device.
    #[verifier::rlimit(100)]
    #[verifier::spinoff_prover]
    pub fn flush(&mut self) -> (flushed: bool)
        requires
            old(self).wf(),
        ensures
            final(self).wf(),
            final(self).batch.region_size == old(self).batch.region_size,
            final(self).batch.align == old(self).batch.align,
            final(self).device.align == old(self).device.align,
            final(self).device.region_size == old(self).device.region_size,
            final(self).device.regions@.len() == old(self).device.regions@.len(),
            final(self).sequence == old(self).sequence,
            final(self).batch.buffer@.len() == 0,
            final(self).regions.states@ == old(self).regions.states@,
            final(self).regions.readers@ == old(self).regions.readers@,
            final(self).batch.tail().region.region == old(self).batch.tail().region.region,
            final(self).batch.tail().region.offset + final(self).batch.tail().region.len == old(
                self,
            ).batch.tail().region.offset + old(self).batch.tail().region.len,
            flushed <==> old(self).batch.buffer@.len() > 0 || old(self).batch.tombstones@.len()
                > 0,
            !flushed ==> final(self).indexer@ == old(self).indexer@,
            flushed ==> final(self).indexer@ == spec_apply_tombstones(
                spec_publish_runs(old(self).indexer@, spec_runs_of(old(self).batch.groups@), 0),
                old(self).batch.tombstones@,
                0,
            ),
            flushed ==> forall|j: int|
                0 <= j < old(self).batch.groups@.len() ==> {
                    let gm = #[trigger] old(self).batch.groups@[j];
                    let reg = gm.region.region as int;
                    final(self).device.regions@[reg]@ == old(self).device.regions@[
                    reg]@.subrange(0, gm.region.offset as int) + old(self).batch.buffer@.subrange(
                        gm.range_start as int,
                        gm.range_end as int,
                    ) + old(self).device.regions@[reg]@.subrange(
                        gm.region.offset + gm.region.len,
                        old(self).device.region_size as int,
                    )
                },
            forall|t: int|
                0 <= t < old(self).device.regions@.len() && (forall|j: int|
                    0 <= j < old(self).batch.groups@.len() ==> ((#[trigger] old(
                        self,
                    ).batch.groups@[j]).region.region as int) != t)
                    ==> (#[trigger] final(self).device.regions@[t])@ == old(
                    self,
                ).device.regions@[t]@,
    {
        let ghost m0 = self.indexer@;
        let rotated = self.batch.rotate();
        let batch = match rotated {
            None => {
                return false;
            },
            Some(b) => b,
        };
        let ghost frozen = batch;
        let ghost runs = spec_runs_of(old(self).batch.groups@);
        let ghost ts = old(self).batch.tombstones@;
        let ghost total = spec_apply_tombstones(spec_publish_runs(m0, runs, 0), ts, 0);
        proof {
            assert forall|t: int| 0 <= t < runs.len() implies #[trigger] runs[t]
                == frozen.groups@[t].indices@ by {}
        }
        let ghost dalign = self.device.align;
        let ghost dsize = self.device.region_size;
        let ghost dcount = self.device.regions@.len();
        proof {
            assert forall|t: int| 0 <= t < frozen.groups@.len() implies {
                let g = #[trigger] frozen.groups@[t];
                &&& g.region.region < dcount
                &&& g.region.offset + g.bytes@.len() <= dsize
                &&& spec_is_aligned(dalign, g.region.offset as usize)
                &&& spec_is_aligned(dalign, g.bytes@.len() as usize)
            } by {
                let g = frozen.groups@[t];
                let gm = old(self).batch.groups@[t];
                assert(g.bytes@.len() == gm.range_end - gm.range_start);
                assert(gm.region.len == gm.range_end - gm.range_start);
            }
        }
        let n = batch.groups.len();
        let mut j: usize = 0;
        while j < n
            invariant
                self.wf(),
                n == frozen.groups@.len(),
                batch == frozen,
                0 <= j <= n,
                self.device.align == dalign,
                self.device.region_size == dsize,
                self.device.regions@.len() == dcount,
                self.batch.region_size == dsize,
                self.batch.align == dalign,
                self.sequence == old(self).sequence,
                self.batch.buffer@.len() == 0,
                self.regions.states@ == old(self).regions.states@,
                self.regions.readers@ == old(self).regions.readers@,
                self.batch.tail().region.region == old(self).batch.tail().region.region,
                self.batch.tail().region.offset + self.batch.tail().region.len == old(
                    self,
                ).batch.tail().region.offset + old(self).batch.tail().region.len,
                runs.len() == n,
                old(self).wf(),
                n == old(self).batch.groups@.len(),
                forall|t: int| 0 <= t < n ==> #[trigger] runs[t] == frozen.groups@[t].indices@,
                forall|t: int|
                    0 <= t < n ==> (#[trigger] frozen.groups@[t]).region == old(
                        self,
                    ).batch.groups@[t].region,
                forall|t: int|
                    0 <= t < n ==> (#[trigger] frozen.groups@[t]).bytes@.len() == old(
                        self,
                    ).batch.groups@[t].region.len,
                forall|jj: int|
                    0 <= jj < j ==> {
                        let gm = #[trigger] frozen.groups@[jj];
                        let reg = gm.region.region as int;
                        self.device.regions@[reg]@ == old(self).device.regions@[reg]@.subrange(
                            0,
                            gm.region.offset as int,
                        ) + gm.bytes@ + old(self).device.regions@[reg]@.subrange(
                            gm.region.offset + gm.region.len,
                            dsize as int,
                        )
                    },
                forall|jj: int|
                    j <= jj < n ==> (#[trigger] self.device.regions@[frozen.groups@[
                    jj].region.region as int])@ == old(self).device.regions@[frozen.groups@[
                    jj].region.region as int]@,
                forall|t: int|
                    0 <= t < dcount && (forall|jj: int|
                        0 <= jj < n ==> ((#[trigger] frozen.groups@[jj]).region.region as int)
                            != t) ==> (#[trigger] self.device.regions@[t])@ == old(
                        self,
                    ).device.regions@[t]@,
                spec_apply_tombstones(spec_publish_runs(self.indexer@, runs, j as int), ts, 0)
                    == total,
                forall|t: int|
                    0 <= t < n ==> {
                        let g = #[trigger] frozen.groups@[t];
                        &&& g.region.region < dcount
                        &&& g.region.offset + g.bytes@.len() <= dsize
                        &&& spec_is_aligned(dalign, g.region.offset as usize)
                        &&& spec_is_aligned(dalign, g.bytes@.len() as usize)
                    },
            decreases n - j,
        {
            let g = &batch.groups[j];
            let ghost dev_pre = self.device;
            self.device.write(&g.bytes, g.region.region, g.region.offset as usize);
            let ghost dev_iter = self.device;
            let m = g.indices.len();
            let mut u: usize = 0;
            while u < m
                invariant
                    self.wf(),
                    m == g.indices@.len(),
                    0 <= u <= m,
                    0 <= j < n,
                    runs.len() == n,
                    g.indices@ == runs[j as int],
                    self.device.align == dalign,
                    self.device.region_size == dsize,
                    self.device.regions@.len() == dcount,
                    self.batch.region_size == dsize,
                    self.batch.align == dalign,
                    self.sequence == old(self).sequence,
                    self.batch.buffer@.len() == 0,
                    self.regions.states@ == old(self).regions.states@,
                    self.regions.readers@ == old(self).regions.readers@,
                    self.batch.tail().region.region == old(self).batch.tail().region.region,
                    self.batch.tail().region.offset + self.batch.tail().region.len == old(
                        self,
                    ).batch.tail().region.offset + old(self).batch.tail().region.len,
                    self.device == dev_iter,
                    spec_apply_tombstones(
                        spec_publish_runs(
                            spec_publish_idxs(self.indexer@, runs[j as int], u as int),
                            runs,
                            j + 1,
                        ),
                        ts,
                        0,
                    ) == total,
                decreases m - u,
            {
                let idx = g.indices[u];
                self.indexer.insert(idx.hash, idx.address);
                u = u + 1;
            }
            proof {
                let regj = frozen.groups@[j as int].region.region as int;
                assert forall|jj: int|
                    0 <= jj < j + 1 implies {
                    let gm = #[trigger] frozen.groups@[jj];
                    let reg = gm.region.region as int;
                    self.device.regions@[reg]@ == old(self).device.regions@[reg]@.subrange(
                        0,
                        gm.region.offset as int,
                    ) + gm.bytes@ + old(self).device.regions@[reg]@.subrange(
                        gm.region.offset + gm.region.len,
                        dsize as int,
                    )
                } by {
                    let gm = frozen.groups@[jj];
                    let reg = gm.region.region as int;
                    if jj < j {
                        assert(old(self).batch.groups@[jj].region.region != old(
                            self,
                        ).batch.groups@[j as int].region.region);
                        assert(reg != regj);
                        assert(self.device.regions@[reg]@ == dev_pre.regions@[reg]@);
                    } else {
                        assert(dev_pre.regions@[regj]@ == old(self).device.regions@[regj]@);
                    }
                }
                assert forall|jj: int|
                    j + 1 <= jj < n implies (#[trigger] self.device.regions@[frozen.groups@[
                jj].region.region as int])@ == old(self).device.regions@[frozen.groups@[
                jj].region.region as int]@ by {
                    assert(old(self).batch.groups@[jj].region.region != old(
                        self,
                    ).batch.groups@[j as int].region.region);
                }
                assert forall|t: int|
                    0 <= t < dcount && (forall|jj: int|
                        0 <= jj < n ==> ((#[trigger] frozen.groups@[jj]).region.region as int)
                            != t) implies (#[trigger] self.device.regions@[t])@ == old(
                    self,
                ).device.regions@[t]@ by {
                    assert((frozen.groups@[j as int].region.region as int) != t);
                    assert(self.device.regions@[t]@ == dev_pre.regions@[t]@);
                }
            }
            j = j + 1;
        }
        let ghost dev_done = self.device;
        let tn = batch.tombstones.len();
        let mut t: usize = 0;
        while t < tn
            invariant
                self.wf(),
                tn == batch.tombstones@.len(),
                0 <= t <= tn,
                batch.tombstones@ == ts,
                self.device == dev_done,
                self.device.align == dalign,
                self.device.region_size == dsize,
                self.device.regions@.len() == dcount,
                self.batch.region_size == dsize,
                self.batch.align == dalign,
                self.sequence == old(self).sequence,
                self.batch.buffer@.len() == 0,
                self.regions.states@ == old(self).regions.states@,
                self.regions.readers@ == old(self).regions.readers@,
                self.batch.tail().region.region == old(self).batch.tail().region.region,
                self.batch.tail().region.offset + self.batch.tail().region.len == old(
                    self,
                ).batch.tail().region.offset + old(self).batch.tail().region.len,
                spec_apply_tombstones(self.indexer@, ts, t as int) == total,
            decreases tn - t,
        {
            self.indexer.remove(batch.tombstones[t].hash);
            t = t + 1;
        }
        proof {
            assert forall|jx: int|
                0 <= jx < old(self).batch.groups@.len() implies {
                let gm = #[trigger] old(self).batch.groups@[jx];
                let reg = gm.region.region as int;
                self.device.regions@[reg]@ == old(self).device.regions@[reg]@.subrange(
                    0,
                    gm.region.offset as int,
                ) + old(self).batch.buffer@.subrange(
                    gm.range_start as int,
                    gm.range_end as int,
                ) + old(self).device.regions@[reg]@.subrange(
                    gm.region.offset + gm.region.len,
                    old(self).device.region_size as int,
                )
            } by {
                let gm = old(self).batch.groups@[jx];
                assert(frozen.groups@[jx].bytes@ == old(self).batch.buffer@.subrange(
                    gm.range_start as int,
                    gm.range_end as int,
                ));
                assert(frozen.groups@[jx].region == gm.region);
            }
        }
        true
    }

    /// Look a key up on disk: find its address, read the aligned frame,
    /// decode it, and verify the key. Any malformed or stale frame is a
    /// miss; a hit returns the stored value bytes.
    pub fn load(&self, key: u64) -> (r: Option<Vec<u8>>)
        requires
            self.wf(),
        ensures
            r is Some <==> self.indexer@.contains_key(key_hash(key)) && {
                let addr = self.indexer@[key_hash(key)];
                let frame_bytes = self.device.regions@[addr.region as int]@.subrange(
                    addr.offset as int,
                    addr.offset + addr.len,
                );
                &&& (addr.region as int) < self.device.regions@.len()
                &&& crate::bits::spec_is_aligned(self.device.align, addr.offset as usize)
                &&& addr.len <= self.device.region_size
                &&& addr.offset + addr.len <= self.device.region_size
                &&& spec_decode_frame(frame_bytes, 0) is Some
                &&& spec_decode_frame(frame_bytes, 0)->Some_0.0 == key
            },
            r is Some ==> {
                let addr = self.indexer@[key_hash(key)];
                let frame_bytes = self.device.regions@[addr.region as int]@.subrange(
                    addr.offset as int,
                    addr.offset + addr.len,
                );
                spec_decode_frame(frame_bytes, 0)->Some_0.1 == r->Some_0@
            },
    {
        let hash = hash_key(key);
        let addr = match self.indexer.get(hash) {
            None => {
                return None;
            },
            Some(a) => a,
        };
        if (addr.region as usize) >= self.device.regions_len() {
            return None;
        }
        let offset = addr.offset as usize;
        let len = addr.len as usize;
        if !crate::bits::is_aligned(self.device.align, offset) {
            return None;
        }
        if len > self.device.region_size || offset > self.device.region_size - len {
            return None;
        }
        let bytes = self.device.read(addr.region, offset, len);
        let decoded = decode_frame(bytes.as_slice(), 0);
        match decoded {
            None => None,
            Some((k, value, _h)) => {
                if k == key {
                    Some(value)
                } else {
                    None
                }
            },
        }
    }

    /// Rebuild the index from every region of the device, in region order.
    pub fn recover(&mut self)
        requires
            old(self).wf(),
        ensures
            final(self).wf(),
            final(self).device == old(self).device,
            final(self).indexer@ == spec_recover_regions(
                old(self).indexer@,
                old(self).device,
                0,
            ),
    {
        let n = self.device.regions_len();
        let mut j: usize = 0;
        let ghost dev = self.device;
        while j < n
            invariant
                self.wf(),
                self.device == dev,
                n == self.device.regions@.len(),
                0 <= j <= n,
                self.device.region_size + self.device.align <= usize::MAX,
                spec_recover_regions(self.indexer@, dev, j as int) == spec_recover_regions(
                    old(self).indexer@,
                    dev,
                    0,
                ),
            decreases n - j,
        {
            let region_size = self.device.region_size();
            let align = self.device.align();
            proof {
                vstd::arithmetic::div_mod::lemma_small_mod(0nat, self.device.align as nat);
            }
            let buf = self.device.read(j as u32, 0, region_size);
            proof {
                assert(buf@ =~= dev.regions@[j as int]@);
            }
            recover_region(&mut self.indexer, buf.as_slice(), j as u32, align);
            j = j + 1;
        }
    }
}

/// The index after recovering the regions of `device` from `from` on, in
/// order.
pub open spec fn spec_recover_regions(
    m: Map<u64, crate::indexer::EntryAddress>,
    device: MemDevice,
    from: int,
) -> Map<u64, crate::indexer::EntryAddress>
    decreases device.regions@.len() - from,
    when 0 <= from <= device.regions@.len()
{
    if from >= device.regions@.len() {
        m
    } else {
        spec_recover_regions(
            spec_recover(
                m,
                spec_frames(device.regions@[from]@, 0, device.align),
                from as u32,
            ),
            device,
            from + 1,
        )
    }
}

} // verus!
