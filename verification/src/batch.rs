//! The write batch of the flusher.
//!
//! A mutable batch packs entry frames into one aligned buffer. It is made of
//! groups, each bound to one region: when a group's region cannot take the
//! next frame, the caller opens a new group against the next clean region.
//! `rotate` freezes the batch into its immutable form — one byte run and one
//! index list per group — and reopens the tail region for further appends.

use vstd::prelude::*;

use crate::bits::{spec_align_up, spec_is_aligned, align_up, is_pow2};
use crate::frame::{encode_frame, spec_frame, HEADER_LEN};
use crate::hashing::key_hash;
use crate::indexer::{EntryAddress, Indexer};
use crate::region::RegionId;

verus! {

/// Dead bytes discovered in a region when an index publication loses.
#[derive(Clone, Copy, Debug, PartialEq, Eq, Structural)]
pub struct InvalidStats {
    /// The region holding the dead bytes.
    pub region: RegionId,
    /// How many bytes are dead.
    pub size: usize,
}

/// A tombstone with the dead space it accounts, if known.
#[derive(Clone, Copy, Debug, PartialEq, Eq, Structural)]
pub struct TombstoneInfo {
    /// The hash to invalidate at flush time.
    pub hash: u64,
    /// Dead space attributed to the invalidation.
    pub stats: Option<InvalidStats>,
}

/// A hash together with the address its frame will get.
#[derive(Clone, Copy, Debug, PartialEq, Eq, Structural)]
pub struct HashedEntryAddress {
    /// Hash of the entry's key.
    pub hash: u64,
    /// Where the frame will live.
    pub address: EntryAddress,
}

/// The slice of a region a group writes: its region, the offset the append
/// starts at, the appended length, and whether the region filled up.
#[derive(Clone, Copy, Debug, PartialEq, Eq, Structural)]
pub struct RegionHandle {
    /// The region written.
    pub region: RegionId,
    /// Offset of the first appended byte within the region.
    pub offset: u64,
    /// Length appended so far.
    pub len: usize,
    /// Whether the region was filled.
    pub is_full: bool,
}

/// A group under construction: a region handle, the indices to publish, and
/// the group's byte range within the batch buffer.
pub struct GroupMut {
    /// The region slice being appended.
    pub region: RegionHandle,
    /// Index entries to publish after the write.
    pub indices: Vec<HashedEntryAddress>,
    /// Start of the group's bytes in the batch buffer.
    pub range_start: usize,
    /// End of the group's bytes in the batch buffer.
    pub range_end: usize,
}

/// A frozen group: one region write and its indices.
pub struct Group {
    /// The region slice to write.
    pub region: RegionHandle,
    /// The exact bytes to write.
    pub bytes: Vec<u8>,
    /// Index entries to publish on completion.
    pub indices: Vec<HashedEntryAddress>,
}

/// A frozen batch: groups to write and tombstones to apply.
pub struct Batch {
    /// The groups, in append order.
    pub groups: Vec<Group>,
    /// The tombstones to apply after the writes.
    pub tombstones: Vec<TombstoneInfo>,
}

/// A batch being filled.
pub struct BatchMut {
    /// The write buffer; frames are appended aligned.
    pub buffer: Vec<u8>,
    /// The open groups; the last one takes new frames.
    pub groups: Vec<GroupMut>,
    /// Tombstones queued for this batch.
    pub tombstones: Vec<TombstoneInfo>,
    /// Region size of the device written.
    pub region_size: usize,
    /// Block alignment of the device written.
    pub align: usize,
}

impl BatchMut {
    /// The batch invariant: groups partition the buffer contiguously, each
    /// group's length matches its range, every group lies within its region,
    /// and all offsets and lengths are aligned.
    pub open spec fn wf(&self) -> bool {
        &&& self.align > 0
        &&& is_pow2(self.align)
        &&& spec_is_aligned(self.align, self.region_size)
        &&& self.region_size + self.align <= usize::MAX
        &&& self.region_size <= u32::MAX
        &&& self.groups@.len() >= 1
        &&& self.groups@[0].range_start == 0
        &&& forall|j: int|
            0 <= j < self.groups@.len() - 1 ==> (#[trigger] self.groups@[j].range_end)
                == self.groups@[j + 1].range_start
        &&& self.groups@.last().range_end == self.buffer@.len()
        &&& forall|j: int|
            0 <= j < self.groups@.len() ==> (#[trigger] self.groups@[j].range_end)
                <= self.buffer@.len()
        &&& forall|j: int|
            0 <= j < self.groups@.len() ==> {
                let g = #[trigger] self.groups@[j];
                &&& g.range_start <= g.range_end
                &&& g.region.len == g.range_end - g.range_start
                &&& g.region.offset + g.region.len <= self.region_size
                &&& spec_is_aligned(self.align, g.region.offset as usize)
                &&& spec_is_aligned(self.align, g.region.len)
            }
        &&& forall|j: int|
            0 <= j < self.groups@.len() - 1 ==> (#[trigger] self.groups@[j]).region.is_full
        &&& forall|j: int, t: int|
            0 <= j < self.groups@.len() && 0 <= t < self.groups@[j].indices@.len() ==> {
                let g = self.groups@[j];
                let a = (#[trigger] self.groups@[j].indices@[t]).address;
                &&& a.region == g.region.region
                &&& g.region.offset <= a.offset
                &&& a.offset + a.len <= g.region.offset + g.region.len
                &&& a.len > 0
            }
        &&& forall|j: int, t1: int, t2: int|
            0 <= j < self.groups@.len() && 0 <= t1 < t2 < self.groups@[j].indices@.len() ==> (
            #[trigger] self.groups@[j].indices@[t1]).address.offset + self.groups@[
                j].indices@[t1].address.len <= (#[trigger] self.groups@[
                j].indices@[t2]).address.offset
    }

    /// The group currently taking frames.
    pub open spec fn tail(&self) -> GroupMut {
        self.groups@.last()
    }

    /// Start an empty batch with one group open at the front of a clean
    /// region.
    pub fn new(region_size: usize, align: usize, first_region: RegionId) -> (r: BatchMut)
        requires
            align > 0,
            is_pow2(align),
            spec_is_aligned(align, region_size),
            region_size + align <= usize::MAX,
            region_size <= u32::MAX,
        ensures
            r.wf(),
            r.buffer@.len() == 0,
            r.groups@.len() == 1,
            r.tail().region.region == first_region,
            r.tail().region.offset == 0,
            r.tail().region.len == 0,
            r.tail().indices@.len() == 0,
            r.tombstones@.len() == 0,
            r.region_size == region_size,
            r.align == align,
    {
        let mut groups: Vec<GroupMut> = Vec::new();
        groups.push(
            GroupMut {
                region: RegionHandle { region: first_region, offset: 0, len: 0, is_full: false },
                indices: Vec::new(),
                range_start: 0,
                range_end: 0,
            },
        );
        proof {
            vstd::arithmetic::div_mod::lemma_small_mod(0nat, align as nat);
        }
        BatchMut { buffer: Vec::new(), groups, tombstones: Vec::new(), region_size, align }
    }

    /// Whether a frame of `frame_len` bytes still fits the open group's
    /// region.
    pub fn fits(&self, frame_len: usize) -> (r: bool)
        requires
            self.wf(),
            frame_len + self.align <= usize::MAX,
        ensures
            r == (self.tail().region.offset + self.tail().region.len + spec_align_up(
                self.align,
                frame_len,
            ) <= self.region_size),
    {
        let g = &self.groups[self.groups.len() - 1];
        let aligned = align_up(self.align, frame_len);
        let used = g.region.offset as usize + g.region.len;
        aligned <= self.region_size && used <= self.region_size - aligned
    }

    /// Close the open group's region as full and open a new group against
    /// the given clean region.
    pub fn append_group(&mut self, region: RegionId)
        requires
            old(self).wf(),
        ensures
            final(self).wf(),
            final(self).region_size == old(self).region_size,
            final(self).align == old(self).align,
            final(self).buffer@ == old(self).buffer@,
            final(self).tombstones@ == old(self).tombstones@,
            final(self).groups@.len() == old(self).groups@.len() + 1,
            final(self).groups@.subrange(0, old(self).groups@.len() - 1) == old(
                self,
            ).groups@.subrange(0, old(self).groups@.len() - 1),
            final(self).groups@[old(self).groups@.len() - 1].region.is_full,
            final(self).groups@[old(self).groups@.len() - 1].region.region == old(
                self,
            ).tail().region.region,
            final(self).tail().region.region == region,
            final(self).tail().region.offset == 0,
            final(self).tail().region.len == 0,
            final(self).tail().indices@.len() == 0,
    {
        let last = self.groups.len() - 1;
        self.groups[last].region.is_full = true;
        let start = self.buffer.len();
        self.groups.push(
            GroupMut {
                region: RegionHandle { region, offset: 0, len: 0, is_full: false },
                indices: Vec::new(),
                range_start: start,
                range_end: start,
            },
        );
        proof {
            vstd::arithmetic::div_mod::lemma_small_mod(0nat, self.align as nat);
            assert(self.groups@.subrange(0, old(self).groups@.len() - 1) =~= old(
                self,
            ).groups@.subrange(0, old(self).groups@.len() - 1));
            assert(self.wf());
        }
    }

    /// Append an entry to the open group: its frame goes into the buffer at
    /// an aligned offset, padded with zeros, and an index entry recording
    /// its future address joins the group.
    pub fn entry(&mut self, key: u64, value: &Vec<u8>, sequence: u64)
        requires
            old(self).wf(),
            value@.len() <= u32::MAX - 8,
            old(self).buffer@.len() + HEADER_LEN + value@.len() + 8 + old(self).align
                <= usize::MAX,
            old(self).tail().region.offset + old(self).tail().region.len + spec_align_up(
                old(self).align,
                (HEADER_LEN + value@.len() + 8) as usize,
            ) <= old(self).region_size,
        ensures
            final(self).wf(),
            final(self).region_size == old(self).region_size,
            final(self).align == old(self).align,
            final(self).tombstones@ == old(self).tombstones@,
            final(self).groups@.len() == old(self).groups@.len(),
            forall|j: int|
                0 <= j < old(self).groups@.len() - 1 ==> (#[trigger] final(self).groups@[j])
                    == old(self).groups@[j],
            ({
                let frame = spec_frame(key, value@, sequence);
                let aligned = spec_align_up(old(self).align, frame.len() as usize);
                let pad = aligned - frame.len();
                &&& final(self).buffer@.subrange(0, old(self).buffer@.len() as int) == old(
                    self,
                ).buffer@
                &&& final(self).buffer@.subrange(
                    old(self).buffer@.len() as int,
                    old(self).buffer@.len() + frame.len() as int,
                ) == frame
                &&& final(self).buffer@.len() == old(self).buffer@.len() + aligned
                &&& final(self).tail().indices@ == old(self).tail().indices@.push(
                    HashedEntryAddress {
                        hash: key_hash(key),
                        address: EntryAddress {
                            region: old(self).tail().region.region,
                            offset: (old(self).tail().region.offset + old(
                                self,
                            ).tail().region.len) as u32,
                            len: frame.len() as u32,
                            sequence,
                        },
                    },
                )
                &&& final(self).tail().region.len == old(self).tail().region.len + aligned
                &&& final(self).tail().region.region == old(self).tail().region.region
                &&& final(self).tail().region.offset == old(self).tail().region.offset
            }),
    {
        let start = self.buffer.len();
        encode_frame(&mut self.buffer, key, value, sequence);
        let frame_len = self.buffer.len() - start;
        let aligned = align_up(self.align, frame_len);
        let ghost buf_mid = self.buffer@;
        let mut pad = aligned - frame_len;
        while pad > 0
            invariant
                pad <= aligned - frame_len,
                buf_mid.len() <= self.buffer@.len(),
                self.buffer@.len() + pad == buf_mid.len() + (aligned - frame_len),
                self.buffer@.subrange(0, buf_mid.len() as int) == buf_mid,
                self.groups@ == old(self).groups@,
                self.region_size == old(self).region_size,
                self.align == old(self).align,
                self.tombstones@ == old(self).tombstones@,
            decreases pad,
        {
            self.buffer.push(0);
            proof {
                assert(self.buffer@.subrange(0, buf_mid.len() as int) =~= buf_mid);
            }
            pad = pad - 1;
        }
        let last = self.groups.len() - 1;
        let hash = crate::hashing::hash_key(key);
        let g_offset = self.groups[last].region.offset;
        let g_len = self.groups[last].region.len;
        let addr = EntryAddress {
            region: self.groups[last].region.region,
            offset: (g_offset as usize + g_len) as u32,
            len: frame_len as u32,
            sequence,
        };
        self.groups[last].indices.push(HashedEntryAddress { hash, address: addr });
        self.groups[last].region.len = g_len + aligned;
        self.groups[last].range_end = self.groups[last].range_end + aligned;
        proof {
            let frame = spec_frame(key, value@, sequence);
            let bl = buf_mid.len() as int;
            let ol = old(self).buffer@.len() as int;
            assert(buf_mid =~= old(self).buffer@ + frame);
            assert forall|t: int| 0 <= t < bl implies #[trigger] self.buffer@[t]
                == buf_mid[t] by {
                assert(self.buffer@.subrange(0, bl)[t] == buf_mid[t]);
            }
            assert(self.buffer@.subrange(0, old(self).buffer@.len() as int) =~= old(
                self,
            ).buffer@);
            assert(self.buffer@.subrange(
                old(self).buffer@.len() as int,
                old(self).buffer@.len() + frame.len() as int,
            ) =~= frame);
            crate::bits::lemma_aligned_sum(
                self.align,
                old(self).tail().region.len as int,
                (aligned) as int,
            );
            assert(self.wf());
        }
    }

    /// Re-submit a reclaimed entry's raw frame bytes under a new sequence.
    /// Skipped — returning `false` — when the hash is no longer in the
    /// index or the frame no longer fits the open group's region.
    pub fn reinsertion(
        &mut self,
        raw: &Vec<u8>,
        hash: u64,
        sequence: u64,
        indexer: &Indexer,
    ) -> (admitted: bool)
        requires
            old(self).wf(),
            raw@.len() > 0,
            raw@.len() <= u32::MAX,
            old(self).buffer@.len() + raw@.len() + old(self).align <= usize::MAX,
        ensures
            final(self).wf(),
            final(self).region_size == old(self).region_size,
            final(self).align == old(self).align,
            final(self).tombstones@ == old(self).tombstones@,
            final(self).groups@.len() == old(self).groups@.len(),
            admitted <==> indexer@.contains_key(hash) && old(self).tail().region.offset + old(
                self,
            ).tail().region.len + spec_align_up(old(self).align, raw@.len() as usize) <= old(
                self,
            ).region_size,
            !admitted ==> *final(self) == *old(self),
            admitted ==> {
                let aligned = spec_align_up(old(self).align, raw@.len() as usize);
                &&& final(self).buffer@.subrange(0, old(self).buffer@.len() as int) == old(
                    self,
                ).buffer@
                &&& final(self).buffer@.subrange(
                    old(self).buffer@.len() as int,
                    old(self).buffer@.len() + raw@.len() as int,
                ) == raw@
                &&& final(self).buffer@.len() == old(self).buffer@.len() + aligned
                &&& final(self).tail().indices@ == old(self).tail().indices@.push(
                    HashedEntryAddress {
                        hash,
                        address: EntryAddress {
                            region: old(self).tail().region.region,
                            offset: (old(self).tail().region.offset + old(
                                self,
                            ).tail().region.len) as u32,
                            len: raw@.len() as u32,
                            sequence,
                        },
                    },
                )
                &&& final(self).tail().region.len == old(self).tail().region.len + aligned
            },
    {
        if indexer.get(hash).is_none() {
            return false;
        }
        if !self.fits(raw.len()) {
            return false;
        }
        let start = self.buffer.len();
        let n = raw.len();
        let mut t: usize = 0;
        while t < n
            invariant
                0 <= t <= n,
                n == raw@.len(),
                self.buffer@.len() == start + t,
                start == old(self).buffer@.len(),
                self.buffer@.subrange(0, start as int) == old(self).buffer@,
                self.buffer@.subrange(start as int, (start + t) as int) == raw@.subrange(
                    0,
                    t as int,
                ),
                self.groups@ == old(self).groups@,
                self.tombstones@ == old(self).tombstones@,
                self.region_size == old(self).region_size,
                self.align == old(self).align,
                start + n + self.align <= usize::MAX,
            decreases n - t,
        {
            self.buffer.push(raw[t]);
            proof {
                assert(self.buffer@.subrange(0, start as int) =~= old(self).buffer@);
                assert(self.buffer@.subrange(start as int, (start + t + 1) as int)
                    =~= raw@.subrange(0, t + 1));
            }
            t = t + 1;
        }
        let aligned = align_up(self.align, n);
        let mut pad = aligned - n;
        let ghost buf_mid = self.buffer@;
        while pad > 0
            invariant
                pad <= aligned - n,
                buf_mid.len() <= self.buffer@.len(),
                self.buffer@.len() + pad == buf_mid.len() + (aligned - n),
                self.buffer@.subrange(0, buf_mid.len() as int) == buf_mid,
                self.groups@ == old(self).groups@,
                self.tombstones@ == old(self).tombstones@,
                self.region_size == old(self).region_size,
                self.align == old(self).align,
            decreases pad,
        {
            self.buffer.push(0);
            proof {
                assert(self.buffer@.subrange(0, buf_mid.len() as int) =~= buf_mid);
            }
            pad = pad - 1;
        }
        let last = self.groups.len() - 1;
        let g_offset = self.groups[last].region.offset;
        let g_len = self.groups[last].region.len;
        let addr = EntryAddress {
            region: self.groups[last].region.region,
            offset: (g_offset as usize + g_len) as u32,
            len: n as u32,
            sequence,
        };
        self.groups[last].indices.push(HashedEntryAddress { hash, address: addr });
        self.groups[last].region.len = g_len + aligned;
        self.groups[last].range_end = self.groups[last].range_end + aligned;
        proof {
            let bl = buf_mid.len() as int;
            assert forall|u: int| 0 <= u < bl implies #[trigger] self.buffer@[u]
                == buf_mid[u] by {
                assert(self.buffer@.subrange(0, bl)[u] == buf_mid[u]);
            }
            assert(raw@.subrange(0, n as int) =~= raw@);
            assert(buf_mid.subrange(start as int, (start + n) as int) =~= raw@);
            assert(self.buffer@.subrange(0, old(self).buffer@.len() as int) =~= old(
                self,
            ).buffer@);
            assert(self.buffer@.subrange(
                old(self).buffer@.len() as int,
                old(self).buffer@.len() + raw@.len() as int,
            ) =~= raw@);
            crate::bits::lemma_aligned_sum(
                self.align,
                old(self).tail().region.len as int,
                aligned as int,
            );
            assert(self.wf());
        }
        true
    }

    /// Queue a tombstone for this batch.
    pub fn tombstone(&mut self, hash: u64, stats: Option<InvalidStats>)
        requires
            old(self).wf(),
        ensures
            final(self).wf(),
            final(self).buffer@ == old(self).buffer@,
            final(self).groups@ == old(self).groups@,
            final(self).region_size == old(self).region_size,
            final(self).align == old(self).align,
            final(self).tombstones@ == old(self).tombstones@.push(TombstoneInfo { hash, stats }),
    {
        self.tombstones.push(TombstoneInfo { hash, stats });
    }

    /// Whether the batch holds nothing to flush.
    pub fn is_empty(&self) -> (r: bool)
        requires
            self.wf(),
        ensures
            r == (self.buffer@.len() == 0 && self.tombstones@.len() == 0),
    {
        self.buffer.len() == 0 && self.tombstones.len() == 0
    }

    /// Freeze the batch: cut the buffer into one byte run per group, take
    /// the indices and tombstones, and reopen the tail region — advanced
    /// past what was appended — for the next batch. Returns `None` when
    /// there is nothing to flush.
    pub fn rotate(&mut self) -> (r: Option<Batch>)
        requires
            old(self).wf(),
        ensures
            final(self).wf(),
            final(self).region_size == old(self).region_size,
            final(self).align == old(self).align,
            r is None ==> old(self).buffer@.len() == 0 && old(self).tombstones@.len() == 0
                && *final(self) == *old(self),
            r is Some ==> old(self).buffer@.len() > 0 || old(self).tombstones@.len() > 0,
            r is Some ==> {
                let b = r->Some_0;
                &&& b.groups@.len() == old(self).groups@.len()
                &&& forall|j: int|
                    0 <= j < b.groups@.len() ==> {
                        let g = #[trigger] b.groups@[j];
                        let gm = old(self).groups@[j];
                        &&& g.region == gm.region
                        &&& g.indices@ == gm.indices@
                        &&& g.bytes@ == old(self).buffer@.subrange(
                            gm.range_start as int,
                            gm.range_end as int,
                        )
                    }
                &&& b.tombstones@ == old(self).tombstones@
                &&& final(self).buffer@.len() == 0
                &&& final(self).groups@.len() == 1
                &&& final(self).tail().region.region == old(self).tail().region.region
                &&& final(self).tail().region.offset == old(self).tail().region.offset + old(
                    self,
                ).tail().region.len
                &&& final(self).tail().region.len == 0
                &&& final(self).tombstones@.len() == 0
            },
    {
        if self.buffer.len() == 0 && self.tombstones.len() == 0 {
            return None;
        }
        let mut out_groups: Vec<Group> = Vec::new();
        let n = self.groups.len();
        let mut j: usize = 0;
        while j < n
            invariant
                self.wf(),
                *self == *old(self),
                n == self.groups@.len(),
                0 <= j <= n,
                out_groups@.len() == j,
                forall|t: int|
                    0 <= t < j ==> {
                        let g = #[trigger] out_groups@[t];
                        let gm = self.groups@[t];
                        &&& g.region == gm.region
                        &&& g.indices@ == gm.indices@
                        &&& g.bytes@ == self.buffer@.subrange(
                            gm.range_start as int,
                            gm.range_end as int,
                        )
                    },
            decreases n - j,
        {
            let gm = &self.groups[j];
            let mut bytes: Vec<u8> = Vec::new();
            let mut t = gm.range_start;
            proof {
                assert(bytes@ =~= self.buffer@.subrange(
                    gm.range_start as int,
                    gm.range_start as int,
                ));
            }
            while t < gm.range_end
                invariant
                    gm.range_start <= t <= gm.range_end,
                    gm.range_end <= self.buffer@.len(),
                    bytes@ == self.buffer@.subrange(gm.range_start as int, t as int),
                decreases gm.range_end - t,
            {
                bytes.push(self.buffer[t]);
                proof {
                    assert(bytes@ =~= self.buffer@.subrange(gm.range_start as int, t + 1));
                }
                t = t + 1;
            }
            let mut indices: Vec<HashedEntryAddress> = Vec::new();
            let m = gm.indices.len();
            let mut u: usize = 0;
            while u < m
                invariant
                    0 <= u <= m,
                    m == gm.indices@.len(),
                    indices@ == gm.indices@.subrange(0, u as int),
                decreases m - u,
            {
                indices.push(gm.indices[u]);
                proof {
                    assert(indices@ =~= gm.indices@.subrange(0, u + 1));
                }
                u = u + 1;
            }
            proof {
                assert(indices@ =~= gm.indices@);
            }
            out_groups.push(Group { region: gm.region, bytes, indices });
            j = j + 1;
        }
        let tail_region = self.groups[n - 1].region.region;
        let tail_offset = self.groups[n - 1].region.offset;
        let tail_len = self.groups[n - 1].region.len;
        let mut tombstones: Vec<TombstoneInfo> = Vec::new();
        std::mem::swap(&mut tombstones, &mut self.tombstones);
        self.buffer = Vec::new();
        let mut groups: Vec<GroupMut> = Vec::new();
        groups.push(
            GroupMut {
                region: RegionHandle {
                    region: tail_region,
                    offset: tail_offset + tail_len as u64,
                    len: 0,
                    is_full: false,
                },
                indices: Vec::new(),
                range_start: 0,
                range_end: 0,
            },
        );
        self.groups = groups;
        proof {
            vstd::arithmetic::div_mod::lemma_small_mod(0nat, self.align as nat);
            crate::bits::lemma_aligned_sum(self.align, tail_offset as int, tail_len as int);
            assert(self.wf());
        }
        Some(Batch { groups: out_groups, tombstones })
    }
}

} // verus!
