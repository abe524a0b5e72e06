//! Hashing for shard selection, the disk index, and frame checksums.
//!
//! Everything is derived from one 64-bit digest over bytes, computed by the
//! `twox_hash` crate with a fixed zero seed, so that the same input yields the
//! same digest in every process. The digest itself is only named, never
//! restated: contracts downstream speak of `xxhash64_of`.

use vstd::prelude::*;

use crate::codec::u64_be_bytes;

verus! {

/// The 64-bit digest that `twox_hash::XxHash64` (seed 0) computes over a byte
/// sequence.
pub uninterp spec fn xxhash64_of(bytes: Seq<u8>) -> u64;

/// Relies on `twox_hash::XxHash64` with seed 0: the digest depends on the
/// written bytes alone, on every machine.
#[verifier::external_body]
pub(crate) fn xxhash64(bytes: &[u8]) -> (r: u64)
    ensures
        r == xxhash64_of(bytes@),
{
    let mut hasher = twox_hash::XxHash64::with_seed(0);
    std::hash::Hasher::write(&mut hasher, bytes);
    std::hash::Hasher::finish(&hasher)
}

/// The hash under which a 64-bit key is stored: the digest of its eight
/// big-endian bytes.
pub open spec fn key_hash(key: u64) -> u64 {
    xxhash64_of(u64_be_bytes(key))
}

/// Compute the hash of a key.
pub fn hash_key(key: u64) -> (r: u64)
    ensures
        r == key_hash(key),
{
    let mut bytes: Vec<u8> = Vec::new();
    crate::codec::put_u64_be(&mut bytes, key);
    xxhash64(bytes.as_slice())
}

} // verus!
