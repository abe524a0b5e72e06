//! Sequential region scanning and index recovery.
//!
//! A scanner walks a region's bytes frame by frame: it decodes the frame at
//! its offset, reports the entry, and advances by the frame's aligned
//! length. A frame that does not decode — a malformed header, a payload out
//! of bounds, or a checksum mismatch — is the logical end of the region.
//! Recovery walks every frame this way and publishes each into the index
//! under its sequence, so that of two frames carrying the same hash the one
//! with the higher sequence wins.

use vstd::prelude::*;

use crate::bits::{spec_align_up, align_up};
use crate::frame::{decode_frame, spec_decode_frame, EntryHeader, HEADER_LEN};
use crate::indexer::{publish_spec, EntryAddress, Indexer};
use crate::region::RegionId;

verus! {

/// One scanned entry: its hash, its sequence, and where it lies.
#[derive(Clone, Copy, Debug, PartialEq, Eq, Structural)]
pub struct EntryInfo {
    /// Hash of the entry's key.
    pub hash: u64,
    /// Publication sequence of the entry.
    pub sequence: u64,
    /// The entry's location.
    pub addr: EntryAddress,
}

/// The offset after a frame at `at`: its aligned length, clamped to the end
/// of the buffer.
pub open spec fn spec_next_offset(buf: Seq<u8>, at: int, h: EntryHeader, align: usize) -> int {
    let step = spec_align_up(align, h.spec_entry_len() as usize);
    let step = if step < HEADER_LEN {
        HEADER_LEN as int
    } else {
        step
    };
    if at + step > buf.len() {
        buf.len() as int
    } else {
        at + step
    }
}

/// The frames of a region's bytes from `at` on: each decodable frame with
/// its offset, until the first position that does not decode.
pub open spec fn spec_frames(buf: Seq<u8>, at: int, align: usize) -> Seq<(int, EntryHeader)>
    recommends
        align > 0,
    decreases buf.len() - at,
    when 0 <= at <= buf.len() && align > 0
    via spec_frames_decreases
{
    match spec_decode_frame(buf, at) {
        None => Seq::empty(),
        Some((k, v, h)) => seq![(at, h)] + spec_frames(buf, spec_next_offset(buf, at, h, align), align),
    }
}

/// Termination of the frame walk: each decoded frame advances the offset.
#[via_fn]
proof fn spec_frames_decreases(buf: Seq<u8>, at: int, align: usize) {
    match spec_decode_frame(buf, at) {
        None => {},
        Some((k, v, h)) => {
            assert(at + h.spec_entry_len() <= buf.len());
            vstd::arithmetic::div_mod::lemma_mod_bound(
                h.spec_entry_len() as usize as int,
                align as int,
            );
            assert(spec_next_offset(buf, at, h, align) > at);
        },
    }
}

/// Walks a region's bytes frame by frame.
pub struct RegionScanner {
    /// The region being scanned.
    pub region: RegionId,
    /// Current byte offset within the region.
    pub offset: usize,
}

impl RegionScanner {
    /// Start a scan of a region at its front.
    pub fn new(region: RegionId) -> (r: RegionScanner)
        ensures
            r.region == region,
            r.offset == 0,
    {
        RegionScanner { region, offset: 0 }
    }

    /// Decode the frame at the current offset of `buf` and step past it.
    /// Returns `None` at the logical end of the region.
    pub fn next(&mut self, buf: &[u8], align: usize) -> (r: Option<EntryInfo>)
        requires
            align > 0,
            old(self).offset <= buf@.len(),
            buf@.len() + align <= usize::MAX,
            buf@.len() <= u32::MAX,
        ensures
            final(self).region == old(self).region,
            r is None <==> spec_decode_frame(buf@, old(self).offset as int) is None,
            r is None ==> final(self).offset == old(self).offset,
            r is Some ==> {
                let (k, v, h) = spec_decode_frame(buf@, old(self).offset as int)->Some_0;
                &&& r == Some(
                    EntryInfo {
                        hash: h.hash,
                        sequence: h.sequence,
                        addr: EntryAddress {
                            region: old(self).region,
                            offset: old(self).offset as u32,
                            len: h.spec_entry_len() as u32,
                            sequence: h.sequence,
                        },
                    },
                )
                &&& final(self).offset == spec_next_offset(
                    buf@,
                    old(self).offset as int,
                    h,
                    align,
                )
                &&& final(self).offset <= buf@.len()
            },
    {
        let decoded = decode_frame(buf, self.offset);
        match decoded {
            None => None,
            Some((_key, _value, h)) => {
                let info = EntryInfo {
                    hash: h.hash,
                    sequence: h.sequence,
                    addr: EntryAddress {
                        region: self.region,
                        offset: self.offset as u32,
                        len: h.entry_len() as u32,
                        sequence: h.sequence,
                    },
                };
                let step = align_up(align, h.entry_len());
                proof {
                    assert(step >= HEADER_LEN);
                }
                let next = if step > buf.len() - self.offset {
                    buf.len()
                } else {
                    self.offset + step
                };
                self.offset = next;
                Some(info)
            },
        }
    }
}

/// The address recovery publishes for a frame.
pub open spec fn spec_frame_addr(at: int, h: EntryHeader, region: RegionId) -> EntryAddress {
    EntryAddress {
        region,
        offset: at as u32,
        len: h.spec_entry_len() as u32,
        sequence: h.sequence,
    }
}

/// The index after publishing a run of frames, in order.
pub open spec fn spec_recover(
    m: Map<u64, EntryAddress>,
    frames: Seq<(int, EntryHeader)>,
    region: RegionId,
) -> Map<u64, EntryAddress>
    decreases frames.len(),
{
    if frames.len() == 0 {
        m
    } else {
        spec_recover(
            publish_spec(m, frames[0].1.hash, spec_frame_addr(frames[0].0, frames[0].1, region)),
            frames.drop_first(),
            region,
        )
    }
}

/// Rebuild the index from one region's bytes: walk its frames in order and
/// publish each, sequence conflicts resolved in favour of the higher
/// sequence. Returns how many frames were published.
pub fn recover_region(
    indexer: &mut Indexer,
    buf: &[u8],
    region: RegionId,
    align: usize,
) -> (count: usize)
    requires
        align > 0,
        buf@.len() + align <= usize::MAX,
        buf@.len() <= u32::MAX,
    ensures
        final(indexer)@ == spec_recover(old(indexer)@, spec_frames(buf@, 0, align), region),
{
    let ghost m0 = indexer@;
    let ghost total = spec_recover(m0, spec_frames(buf@, 0, align), region);
    let mut scanner = RegionScanner::new(region);
    let mut count: usize = 0;
    let mut done: bool = false;
    while !done
        invariant
            align > 0,
            buf@.len() + align <= usize::MAX,
            buf@.len() <= u32::MAX,
            scanner.region == region,
            scanner.offset <= buf@.len(),
            spec_recover(indexer@, spec_frames(buf@, scanner.offset as int, align), region)
                == total,
            done ==> spec_decode_frame(buf@, scanner.offset as int) is None,
        decreases buf@.len() - scanner.offset + (if done {
            0int
        } else {
            1int
        }),
    {
        let ghost off0 = scanner.offset as int;
        match scanner.next(buf, align) {
            None => {
                done = true;
            },
            Some(info) => {
                proof {
                    let fr = spec_frames(buf@, off0, align);
                    assert(fr.drop_first() =~= spec_frames(
                        buf@,
                        scanner.offset as int,
                        align,
                    ));
                }
                indexer.insert(info.hash, info.addr);
                if count < usize::MAX {
                    count = count + 1;
                }
            },
        }
    }
    proof {
        assert(spec_frames(buf@, scanner.offset as int, align) =~= Seq::<(
            int,
            EntryHeader,
        )>::empty());
    }
    count
}

} // verus!
