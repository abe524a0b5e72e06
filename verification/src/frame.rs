//! The on-disk entry frame.
//!
//! A frame is `| header | value-bytes | key-bytes | padding |`, packed at an
//! aligned offset. The header carries the payload lengths, the key hash, the
//! publication sequence, a checksum over the payload, and the compression
//! marker. Recovery walks frames header by header; a header that does not
//! parse, or a payload whose checksum disagrees, ends the walk.

use vstd::prelude::*;

use crate::codec::{
    get_u32_be, get_u64_be, put_u32_be, put_u64_be, u32_be_bytes, u32_from_be, u64_be_bytes,
    u64_from_be,
};
use crate::hashing::{key_hash, xxhash64, xxhash64_of};

verus! {

/// How many bytes a serialized header takes.
pub const HEADER_LEN: usize = 33;

/// Compression applied to the value bytes; only the marker is framed here.
#[derive(Clone, Copy, Debug, PartialEq, Eq, Structural)]
pub enum Compression {
    /// Stored as given.
    Plain,
    /// Compressed with zstd.
    Zstd,
    /// Compressed with lz4.
    Lz4,
}

/// The byte marking a compression kind.
pub open spec fn spec_compression_byte(c: Compression) -> u8 {
    match c {
        Compression::Plain => 0,
        Compression::Zstd => 1,
        Compression::Lz4 => 2,
    }
}

/// The compression kind of a marker byte, if the byte is valid.
pub open spec fn spec_compression_of(b: u8) -> Option<Compression> {
    if b == 0 {
        Some(Compression::Plain)
    } else if b == 1 {
        Some(Compression::Zstd)
    } else if b == 2 {
        Some(Compression::Lz4)
    } else {
        None
    }
}

/// Turn a compression kind into its marker byte.
pub fn compression_byte(c: Compression) -> (r: u8)
    ensures
        r == spec_compression_byte(c),
{
    match c {
        Compression::Plain => 0,
        Compression::Zstd => 1,
        Compression::Lz4 => 2,
    }
}

/// Parse a marker byte.
pub fn compression_of(b: u8) -> (r: Option<Compression>)
    ensures
        r == spec_compression_of(b),
{
    if b == 0 {
        Some(Compression::Plain)
    } else if b == 1 {
        Some(Compression::Zstd)
    } else if b == 2 {
        Some(Compression::Lz4)
    } else {
        None
    }
}

/// The header of an entry frame.
#[derive(Clone, Copy, Debug, PartialEq, Eq, Structural)]
pub struct EntryHeader {
    /// Length of the key bytes.
    pub key_len: u32,
    /// Length of the value bytes.
    pub value_len: u32,
    /// Hash of the key.
    pub hash: u64,
    /// Publication sequence.
    pub sequence: u64,
    /// Checksum over value bytes followed by key bytes.
    pub checksum: u64,
    /// Compression marker for the value bytes.
    pub compression: Compression,
}

impl EntryHeader {
    /// Total frame length: header plus payload, before padding.
    pub open spec fn spec_entry_len(&self) -> int {
        HEADER_LEN + self.key_len + self.value_len
    }

    /// The serialized image of this header.
    pub open spec fn spec_bytes(&self) -> Seq<u8> {
        u32_be_bytes(self.key_len) + u32_be_bytes(self.value_len) + u64_be_bytes(self.hash)
            + u64_be_bytes(self.sequence) + u64_be_bytes(self.checksum) + seq![
            spec_compression_byte(self.compression),
        ]
    }

    /// How many bytes a serialized header takes.
    pub fn serialized_len() -> (r: usize)
        ensures
            r == HEADER_LEN,
    {
        HEADER_LEN
    }

    /// Total frame length: header plus payload, before padding.
    pub fn entry_len(&self) -> (r: usize)
        requires
            self.spec_entry_len() <= usize::MAX,
        ensures
            r == self.spec_entry_len(),
    {
        HEADER_LEN + self.key_len as usize + self.value_len as usize
    }

    /// Append the serialized header to `out`.
    pub fn write(&self, out: &mut Vec<u8>)
        ensures
            final(out)@ == old(out)@ + self.spec_bytes(),
            self.spec_bytes().len() == HEADER_LEN,
    {
        let ghost base = out@;
        put_u32_be(out, self.key_len);
        put_u32_be(out, self.value_len);
        put_u64_be(out, self.hash);
        put_u64_be(out, self.sequence);
        put_u64_be(out, self.checksum);
        out.push(compression_byte(self.compression));
        proof {
            assert(out@ =~= base + self.spec_bytes());
        }
    }

    /// Parse a header at `at`. Returns `None` if the compression marker is
    /// invalid.
    pub fn read(buf: &[u8], at: usize) -> (r: Option<EntryHeader>)
        requires
            at + HEADER_LEN <= buf@.len(),
        ensures
            r == spec_read_header(buf@, at as int),
    {
        let n = buf.len();
        let key_len = get_u32_be(buf, at);
        let value_len = get_u32_be(buf, at + 4);
        let hash = get_u64_be(buf, at + 8);
        let sequence = get_u64_be(buf, at + 16);
        let checksum = get_u64_be(buf, at + 24);
        let cbyte = buf[at + 32];
        match compression_of(cbyte) {
            None => None,
            Some(compression) => Some(
                EntryHeader { key_len, value_len, hash, sequence, checksum, compression },
            ),
        }
    }
}

/// The header parsed from position `at` of a buffer, if its compression
/// marker is valid.
pub open spec fn spec_read_header(buf: Seq<u8>, at: int) -> Option<EntryHeader>
    recommends
        at + HEADER_LEN <= buf.len(),
{
    match spec_compression_of(buf[at + 32]) {
        None => None,
        Some(compression) => Some(
            EntryHeader {
                key_len: u32_from_be(buf.subrange(at, at + 4)),
                value_len: u32_from_be(buf.subrange(at + 4, at + 8)),
                hash: u64_from_be(buf.subrange(at + 8, at + 16)),
                sequence: u64_from_be(buf.subrange(at + 16, at + 24)),
                checksum: u64_from_be(buf.subrange(at + 24, at + 32)),
                compression,
            },
        ),
    }
}

/// A header whose image sits at `at` in a buffer parses back to itself.
pub proof fn lemma_header_round_trip(h: EntryHeader, buf: Seq<u8>, at: int)
    requires
        0 <= at,
        at + HEADER_LEN <= buf.len(),
        buf.subrange(at, at + HEADER_LEN) == h.spec_bytes(),
    ensures
        spec_read_header(buf, at) == Some(h),
{
    let img = h.spec_bytes();
    assert(buf.subrange(at, at + 4) =~= u32_be_bytes(h.key_len)) by {
        assert forall|t: int| 0 <= t < 4 implies #[trigger] buf.subrange(at, at + 4)[t] == img[t] by {
            assert(buf[at + t] == buf.subrange(at, at + HEADER_LEN)[t]);
        }
    }
    assert(buf.subrange(at + 4, at + 8) =~= u32_be_bytes(h.value_len)) by {
        assert forall|t: int| 0 <= t < 4 implies #[trigger] buf.subrange(at + 4, at + 8)[t] == img[4 + t] by {
            assert(buf[at + 4 + t] == buf.subrange(at, at + HEADER_LEN)[4 + t]);
        }
    }
    assert(buf.subrange(at + 8, at + 16) =~= u64_be_bytes(h.hash)) by {
        assert forall|t: int| 0 <= t < 8 implies #[trigger] buf.subrange(at + 8, at + 16)[t]
            == img[8 + t] by {
            assert(buf[at + 8 + t] == buf.subrange(at, at + HEADER_LEN)[8 + t]);
        }
    }
    assert(buf.subrange(at + 16, at + 24) =~= u64_be_bytes(h.sequence)) by {
        assert forall|t: int| 0 <= t < 8 implies #[trigger] buf.subrange(at + 16, at + 24)[t]
            == img[16 + t] by {
            assert(buf[at + 16 + t] == buf.subrange(at, at + HEADER_LEN)[16 + t]);
        }
    }
    assert(buf.subrange(at + 24, at + 32) =~= u64_be_bytes(h.checksum)) by {
        assert forall|t: int| 0 <= t < 8 implies #[trigger] buf.subrange(at + 24, at + 32)[t]
            == img[24 + t] by {
            assert(buf[at + 24 + t] == buf.subrange(at, at + HEADER_LEN)[24 + t]);
        }
    }
    assert(buf[at + 32] == spec_compression_byte(h.compression)) by {
        assert(buf[at + 32] == buf.subrange(at, at + HEADER_LEN)[32]);
    }
    crate::codec::lemma_u32_be_round_trip(h.key_len);
    crate::codec::lemma_u32_be_round_trip(h.value_len);
    crate::codec::lemma_u64_be_round_trip(h.hash);
    crate::codec::lemma_u64_be_round_trip(h.sequence);
    crate::codec::lemma_u64_be_round_trip(h.checksum);
}

/// The payload of a frame: value bytes followed by the key's eight bytes.
pub open spec fn spec_payload(key: u64, value: Seq<u8>) -> Seq<u8> {
    value + u64_be_bytes(key)
}

/// The full frame for an entry, before padding.
pub open spec fn spec_frame(key: u64, value: Seq<u8>, sequence: u64) -> Seq<u8> {
    spec_frame_header(key, value, sequence).spec_bytes() + spec_payload(key, value)
}

/// The header an encoder builds for an entry.
pub open spec fn spec_frame_header(key: u64, value: Seq<u8>, sequence: u64) -> EntryHeader {
    EntryHeader {
        key_len: 8,
        value_len: value.len() as u32,
        hash: key_hash(key),
        sequence,
        checksum: xxhash64_of(spec_payload(key, value)),
        compression: Compression::Plain,
    }
}

/// Append an entry's frame to `out`: header, value bytes, key bytes.
pub fn encode_frame(out: &mut Vec<u8>, key: u64, value: &Vec<u8>, sequence: u64)
    requires
        value@.len() <= u32::MAX - 8,
        old(out)@.len() + HEADER_LEN + value@.len() + 8 <= usize::MAX,
    ensures
        final(out)@ == old(out)@ + spec_frame(key, value@, sequence),
        final(out)@.len() == old(out)@.len() + HEADER_LEN + value@.len() + 8,
{
    let ghost base = out@;
    let mut payload: Vec<u8> = Vec::new();
    let mut t: usize = 0;
    let n = value.len();
    while t < n
        invariant
            0 <= t <= n,
            n == value@.len(),
            payload@ == value@.subrange(0, t as int),
        decreases n - t,
    {
        payload.push(value[t]);
        proof {
            assert(payload@ =~= value@.subrange(0, t + 1));
        }
        t = t + 1;
    }
    proof {
        assert(payload@ =~= value@);
    }
    put_u64_be(&mut payload, key);
    let checksum = xxhash64(payload.as_slice());
    let header = EntryHeader {
        key_len: 8,
        value_len: value.len() as u32,
        hash: crate::hashing::hash_key(key),
        sequence,
        checksum,
        compression: Compression::Plain,
    };
    header.write(out);
    let mut t2: usize = 0;
    let m = payload.len();
    while t2 < m
        invariant
            0 <= t2 <= m,
            m == payload@.len(),
            out@ == base + header.spec_bytes() + payload@.subrange(0, t2 as int),
        decreases m - t2,
    {
        out.push(payload[t2]);
        proof {
            assert(payload@.subrange(0, t2 + 1) =~= payload@.subrange(0, t2 as int).push(
                payload@[t2 as int],
            ));
            assert(out@ =~= base + header.spec_bytes() + payload@.subrange(0, t2 + 1));
        }
        t2 = t2 + 1;
    }
    proof {
        assert(payload@.subrange(0, m as int) =~= payload@);
        assert(header == spec_frame_header(key, value@, sequence));
        assert(out@ =~= base + spec_frame(key, value@, sequence));
    }
}

/// What decoding a frame at a position yields: the key, the value bytes and
/// the header — provided the header parses, the payload lies within the
/// buffer, and the checksum agrees.
pub open spec fn spec_decode_frame(buf: Seq<u8>, at: int) -> Option<(u64, Seq<u8>, EntryHeader)>
{
    if at < 0 || at + HEADER_LEN > buf.len() {
        None
    } else {
        match spec_read_header(buf, at) {
            None => None,
            Some(h) => {
                if h.key_len != 8 || at + h.spec_entry_len() > buf.len() {
                    None
                } else {
                    let value = buf.subrange(at + HEADER_LEN, at + HEADER_LEN + h.value_len);
                    let key_bytes = buf.subrange(
                        at + HEADER_LEN + h.value_len,
                        at + h.spec_entry_len(),
                    );
                    if h.checksum == xxhash64_of(value + key_bytes) {
                        Some((u64_from_be(key_bytes), value, h))
                    } else {
                        None
                    }
                }
            },
        }
    }
}

/// Decode the frame at `at`: parse the header, bound the payload, and check
/// the checksum. A malformed frame yields `None`.
pub fn decode_frame(buf: &[u8], at: usize) -> (r: Option<(u64, Vec<u8>, EntryHeader)>)
    ensures
        r is Some <==> spec_decode_frame(buf@, at as int) is Some,
        r is Some ==> {
            let (k, v, h) = spec_decode_frame(buf@, at as int)->Some_0;
            r->Some_0.0 == k && r->Some_0.1@ == v && r->Some_0.2 == h
        },
{
    if at > buf.len() || buf.len() - at < HEADER_LEN {
        return None;
    }
    let header = match EntryHeader::read(buf, at) {
        None => {
            return None;
        },
        Some(h) => h,
    };
    if header.key_len != 8 {
        return None;
    }
    if (buf.len() - at - HEADER_LEN) < header.value_len as usize || (buf.len() - at - HEADER_LEN
        - header.value_len as usize) < 8 {
        return None;
    }
    let payload_start = at + HEADER_LEN;
    let payload_end = payload_start + header.value_len as usize + 8;
    let mut payload: Vec<u8> = Vec::new();
    let mut t = payload_start;
    while t < payload_end
        invariant
            payload_start <= t <= payload_end,
            payload_end <= buf@.len(),
            payload@ == buf@.subrange(payload_start as int, t as int),
        decreases payload_end - t,
    {
        payload.push(buf[t]);
        proof {
            assert(payload@ =~= buf@.subrange(payload_start as int, t + 1));
        }
        t = t + 1;
    }
    proof {
        let h = spec_read_header(buf@, at as int)->Some_0;
        assert(payload@ =~= buf@.subrange(at + HEADER_LEN, at + h.spec_entry_len()));
        assert(buf@.subrange(at + HEADER_LEN, at + HEADER_LEN + h.value_len) + buf@.subrange(
            at + HEADER_LEN + h.value_len,
            at + h.spec_entry_len(),
        ) =~= payload@);
    }
    let checksum = xxhash64(payload.as_slice());
    if checksum != header.checksum {
        return None;
    }
    let key = get_u64_be(buf, payload_start + header.value_len as usize);
    let mut value: Vec<u8> = Vec::new();
    let value_end = payload_start + header.value_len as usize;
    let mut t2 = payload_start;
    while t2 < value_end
        invariant
            payload_start <= t2 <= value_end,
            value_end <= buf@.len(),
            value@ == buf@.subrange(payload_start as int, t2 as int),
        decreases value_end - t2,
    {
        value.push(buf[t2]);
        proof {
            assert(value@ =~= buf@.subrange(payload_start as int, t2 + 1));
        }
        t2 = t2 + 1;
    }
    proof {
        let h = spec_read_header(buf@, at as int)->Some_0;
        assert(value@ =~= buf@.subrange(at + HEADER_LEN, at + HEADER_LEN + h.value_len));
        assert(buf@.subrange(payload_start + header.value_len as usize, (payload_start
            + header.value_len as usize) + 8) =~= buf@.subrange(
            at + HEADER_LEN + h.value_len,
            at + h.spec_entry_len(),
        ));
    }
    Some((key, value, header))
}

/// Frame round trip: a frame encoded for `(key, value)` and decoded from the
/// same position yields `(key, value)` again, with the header the encoder
/// built.
pub proof fn lemma_frame_round_trip(base: Seq<u8>, key: u64, value: Seq<u8>, sequence: u64)
    requires
        value.len() <= u32::MAX - 8,
    ensures
        spec_decode_frame(base + spec_frame(key, value, sequence), base.len() as int) == Some(
            (key, value, spec_frame_header(key, value, sequence)),
        ),
{
    let buf = base + spec_frame(key, value, sequence);
    let at = base.len() as int;
    let h = spec_frame_header(key, value, sequence);
    assert(buf.subrange(at, at + HEADER_LEN) =~= h.spec_bytes());
    lemma_header_round_trip(h, buf, at);
    assert(buf.subrange(at + HEADER_LEN, at + HEADER_LEN + h.value_len) =~= value);
    assert(buf.subrange(at + HEADER_LEN + h.value_len, at + h.spec_entry_len())
        =~= u64_be_bytes(key));
    assert(value + u64_be_bytes(key) =~= spec_payload(key, value));
    crate::codec::lemma_u64_be_round_trip(key);
}

} // verus!
