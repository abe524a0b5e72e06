//! The pure parts of the small-object set store: set placement and the
//! metadata block.
//!
//! A set is a fixed-size slot; sets are packed into regions. The picker maps
//! a hash to a set, skipping set 0, which holds the metadata block: a magic
//! number and a watermark timestamp. Frames older than the watermark are
//! considered invalidated on load.

use vstd::prelude::*;

use crate::codec::{
    get_u128_be, get_u64_be, put_u128_be, put_u64_be, u128_be_bytes, u128_from_be, u64_be_bytes,
    u64_from_be,
};

verus! {

/// Identifier of a set.
pub type SetId = u64;

/// Magic number of the metadata block.
pub const METADATA_MAGIC: u64 = 0x20230512deadbeef;

/// Serialized size of the metadata block.
pub const METADATA_SIZE: usize = 24;

/// Maps a hash to the set that stores it.
#[derive(Debug, Clone, Copy)]
pub struct SetPicker {
    /// Total number of sets, the meta set included.
    pub sets: usize,
}

impl SetPicker {
    /// Build a picker over `sets` sets; set 0 is reserved for metadata.
    pub fn new(sets: usize) -> (r: SetPicker)
        ensures
            r.sets == sets,
    {
        SetPicker { sets }
    }

    /// The set a hash falls into: never the meta set.
    pub fn sid(&self, hash: u64) -> (r: SetId)
        requires
            self.sets >= 2,
        ensures
            r == hash % ((self.sets - 1) as u64) + 1,
            1 <= r < self.sets,
    {
        proof {
            vstd::arithmetic::div_mod::lemma_mod_bound(
                hash as int,
                (self.sets - 1) as int,
            );
        }
        hash % (self.sets as u64 - 1) + 1
    }
}

/// The metadata block: a magic number and a watermark timestamp.
#[derive(Debug, Clone, Copy, PartialEq, Eq, Structural)]
pub struct Metadata {
    /// Watermark timestamp; frames with older sequences are invalidated.
    pub watermark: u128,
}

impl Metadata {
    /// The serialized image of the block.
    pub open spec fn spec_bytes(&self) -> Seq<u8> {
        u64_be_bytes(METADATA_MAGIC) + u128_be_bytes(self.watermark)
    }

    /// Append the serialized block to `out`.
    pub fn write(&self, out: &mut Vec<u8>)
        ensures
            final(out)@ == old(out)@ + self.spec_bytes(),
            self.spec_bytes().len() == METADATA_SIZE,
    {
        let ghost base = out@;
        put_u64_be(out, METADATA_MAGIC);
        put_u128_be(out, self.watermark);
        proof {
            assert(out@ =~= base + self.spec_bytes());
        }
    }

    /// Parse a metadata block. A wrong magic, or a watermark from the
    /// future, yields a fresh block at `now`.
    pub fn read(buf: &[u8], now: u128) -> (r: Metadata)
        requires
            buf@.len() >= METADATA_SIZE,
        ensures
            r == spec_read_metadata(buf@, now),
    {
        let magic = get_u64_be(buf, 0);
        let watermark = get_u128_be(buf, 8);
        if magic != METADATA_MAGIC || watermark > now {
            Metadata { watermark: now }
        } else {
            Metadata { watermark }
        }
    }
}

/// The metadata parsed from a buffer, falling back to a fresh block at
/// `now` when the magic is wrong or the watermark lies in the future.
pub open spec fn spec_read_metadata(buf: Seq<u8>, now: u128) -> Metadata
    recommends
        buf.len() >= METADATA_SIZE,
{
    let magic = u64_from_be(buf.subrange(0, 8));
    let watermark = u128_from_be(buf.subrange(8, 24));
    if magic != METADATA_MAGIC || watermark > now {
        Metadata { watermark: now }
    } else {
        Metadata { watermark }
    }
}

/// A metadata block written and read back, at any later time, parses to
/// itself.
pub proof fn lemma_metadata_round_trip(m: Metadata, now: u128)
    requires
        m.watermark <= now,
    ensures
        spec_read_metadata(m.spec_bytes(), now) == m,
{
    let buf = m.spec_bytes();
    assert(buf.subrange(0, 8) =~= u64_be_bytes(METADATA_MAGIC));
    assert(buf.subrange(8, 24) =~= u128_be_bytes(m.watermark));
    crate::codec::lemma_u64_be_round_trip(METADATA_MAGIC);
    crate::codec::lemma_u128_be_round_trip(m.watermark);
}

/// How many sets fit one region.
pub fn region_sets(region_size: usize, set_size: usize) -> (r: usize)
    requires
        set_size > 0,
    ensures
        r == region_size as int / set_size as int,
{
    region_size / set_size
}

/// Where a set lies on the device: its region and the byte offset within
/// it.
pub fn locate(id: SetId, region_sets: usize, set_size: usize) -> (r: (u32, u64))
    requires
        region_sets > 0,
        set_size > 0,
        id / (region_sets as u64) <= u32::MAX,
        (region_sets as int) * (set_size as int) <= u64::MAX,
    ensures
        r.0 == id / (region_sets as u64),
        r.1 == (id % (region_sets as u64)) * (set_size as u64),
{
    let region = (id / (region_sets as u64)) as u32;
    proof {
        vstd::arithmetic::div_mod::lemma_mod_bound(id as int, region_sets as int);
        assert((id as int % (region_sets as int)) * (set_size as int) <= ((region_sets as int)
            - 1) * (set_size as int) <= u64::MAX) by (nonlinear_arith)
            requires
                region_sets > 0,
                set_size > 0,
                0 <= id as int % (region_sets as int) <= (region_sets as int) - 1,
                (region_sets as int) * (set_size as int) <= u64::MAX,
        ;
    }
    let offset = (id % (region_sets as u64)) * (set_size as u64);
    (region, offset)
}

} // verus!
