//! Fixed-width integer framing primitives.
//!
//! On-disk structures (entry headers, the region header magic, the metadata
//! block) store their integer fields in big-endian order. Reading and writing
//! go through the `bytes` crate, behind trusted wrappers whose contracts state
//! the exact byte images; round-trip lemmas connect the two directions.

use vstd::prelude::*;

verus! {

/// The big-endian byte image of a `u32`.
pub open spec fn u32_be_bytes(n: u32) -> Seq<u8> {
    seq![
        (n >> 24) as u8,
        (n >> 16) as u8,
        (n >> 8) as u8,
        n as u8,
    ]
}

/// The `u32` read from four big-endian bytes.
pub open spec fn u32_from_be(s: Seq<u8>) -> u32
    recommends
        s.len() >= 4,
{
    (((s[0] as u32) << 24) | ((s[1] as u32) << 16) | ((s[2] as u32) << 8) | (s[3] as u32)) as u32
}

/// The big-endian byte image of a `u64`.
pub open spec fn u64_be_bytes(n: u64) -> Seq<u8> {
    seq![
        (n >> 56) as u8,
        (n >> 48) as u8,
        (n >> 40) as u8,
        (n >> 32) as u8,
        (n >> 24) as u8,
        (n >> 16) as u8,
        (n >> 8) as u8,
        n as u8,
    ]
}

/// The `u64` read from eight big-endian bytes.
pub open spec fn u64_from_be(s: Seq<u8>) -> u64
    recommends
        s.len() >= 8,
{
    (((s[0] as u64) << 56) | ((s[1] as u64) << 48) | ((s[2] as u64) << 40) | ((s[3] as u64) << 32)
        | ((s[4] as u64) << 24) | ((s[5] as u64) << 16) | ((s[6] as u64) << 8) | (s[7] as u64)) as u64
}

/// The big-endian byte image of a `u128`.
pub open spec fn u128_be_bytes(n: u128) -> Seq<u8> {
    u64_be_bytes((n >> 64) as u64) + u64_be_bytes(n as u64)
}

/// The `u128` read from sixteen big-endian bytes.
pub open spec fn u128_from_be(s: Seq<u8>) -> u128
    recommends
        s.len() >= 16,
{
    (((u64_from_be(s.subrange(0, 8)) as u128) << 64) | (u64_from_be(
        s.subrange(8, 16),
    ) as u128)) as u128
}

/// Writing a `u32` and reading it back yields the same value.
pub proof fn lemma_u32_be_round_trip(n: u32)
    ensures
        u32_from_be(u32_be_bytes(n)) == n,
{
    let s = u32_be_bytes(n);
    let (b0, b1, b2, b3) = ((n >> 24) as u8, (n >> 16) as u8, (n >> 8) as u8, n as u8);
    assert(s[0] == b0 && s[1] == b1 && s[2] == b2 && s[3] == b3);
    assert((((b0 as u32) << 24) | ((b1 as u32) << 16) | ((b2 as u32) << 8) | (b3 as u32)) as u32
        == n) by (bit_vector)
        requires
            b0 == (n >> 24) as u8 && b1 == (n >> 16) as u8 && b2 == (n >> 8) as u8 && b3
                == n as u8,
    ;
}

/// Writing a `u64` and reading it back yields the same value.
pub proof fn lemma_u64_be_round_trip(n: u64)
    ensures
        u64_from_be(u64_be_bytes(n)) == n,
{
    let s = u64_be_bytes(n);
    let b0 = (n >> 56) as u8;
    let b1 = (n >> 48) as u8;
    let b2 = (n >> 40) as u8;
    let b3 = (n >> 32) as u8;
    let b4 = (n >> 24) as u8;
    let b5 = (n >> 16) as u8;
    let b6 = (n >> 8) as u8;
    let b7 = n as u8;
    assert(s[0] == b0 && s[1] == b1 && s[2] == b2 && s[3] == b3 && s[4] == b4 && s[5] == b5 && s[6]
        == b6 && s[7] == b7);
    assert((((b0 as u64) << 56) | ((b1 as u64) << 48) | ((b2 as u64) << 40) | ((b3 as u64) << 32)
        | ((b4 as u64) << 24) | ((b5 as u64) << 16) | ((b6 as u64) << 8) | (b7 as u64)) as u64
        == n) by (bit_vector)
        requires
            b0 == (n >> 56) as u8 && b1 == (n >> 48) as u8 && b2 == (n >> 40) as u8 && b3 == (n
                >> 32) as u8 && b4 == (n >> 24) as u8 && b5 == (n >> 16) as u8 && b6 == (n
                >> 8) as u8 && b7 == n as u8,
    ;
}

/// Writing a `u128` and reading it back yields the same value.
pub proof fn lemma_u128_be_round_trip(n: u128)
    ensures
        u128_from_be(u128_be_bytes(n)) == n,
{
    let hi = (n >> 64) as u64;
    let lo = n as u64;
    let s = u128_be_bytes(n);
    assert(s.subrange(0, 8) =~= u64_be_bytes(hi));
    assert(s.subrange(8, 16) =~= u64_be_bytes(lo));
    lemma_u64_be_round_trip(hi);
    lemma_u64_be_round_trip(lo);
    assert((((hi as u128) << 64) | (lo as u128)) as u128 == n) by (bit_vector)
        requires
            hi == (n >> 64) as u64 && lo == n as u64,
    ;
}

/// Relies on `bytes::BufMut::put_u32` for `Vec<u8>`: appends the four
/// big-endian bytes of `n`.
#[verifier::external_body]
pub(crate) fn put_u32_be(out: &mut Vec<u8>, n: u32)
    ensures
        final(out)@ == old(out)@ + u32_be_bytes(n),
{
    bytes::BufMut::put_u32(out, n)
}

/// Relies on `bytes::BufMut::put_u64` for `Vec<u8>`: appends the eight
/// big-endian bytes of `n`.
#[verifier::external_body]
pub(crate) fn put_u64_be(out: &mut Vec<u8>, n: u64)
    ensures
        final(out)@ == old(out)@ + u64_be_bytes(n),
{
    bytes::BufMut::put_u64(out, n)
}

/// Relies on `bytes::BufMut::put_u128` for `Vec<u8>`: appends the sixteen
/// big-endian bytes of `n`.
#[verifier::external_body]
pub(crate) fn put_u128_be(out: &mut Vec<u8>, n: u128)
    ensures
        final(out)@ == old(out)@ + u128_be_bytes(n),
{
    bytes::BufMut::put_u128(out, n)
}

/// Relies on `bytes::Buf::get_u32` for `&[u8]`: reads a big-endian `u32`
/// from the first four bytes.
#[verifier::external_body]
pub(crate) fn get_u32_be(buf: &[u8], at: usize) -> (r: u32)
    requires
        at + 4 <= buf@.len(),
    ensures
        r == u32_from_be(buf@.subrange(at as int, at + 4)),
{
    let mut window: &[u8] = &buf[at..at + 4];
    bytes::Buf::get_u32(&mut window)
}

/// Relies on `bytes::Buf::get_u64` for `&[u8]`: reads a big-endian `u64`
/// from the first eight bytes.
#[verifier::external_body]
pub(crate) fn get_u64_be(buf: &[u8], at: usize) -> (r: u64)
    requires
        at + 8 <= buf@.len(),
    ensures
        r == u64_from_be(buf@.subrange(at as int, at + 8)),
{
    let mut window: &[u8] = &buf[at..at + 8];
    bytes::Buf::get_u64(&mut window)
}

/// Relies on `bytes::Buf::get_u128` for `&[u8]`: reads a big-endian `u128`
/// from the first sixteen bytes.
#[verifier::external_body]
pub(crate) fn get_u128_be(buf: &[u8], at: usize) -> (r: u128)
    requires
        at + 16 <= buf@.len(),
    ensures
        r == u128_from_be(buf@.subrange(at as int, at + 16)),
{
    let mut window: &[u8] = &buf[at..at + 16];
    bytes::Buf::get_u128(&mut window)
}

} // verus!
