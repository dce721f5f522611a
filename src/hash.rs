//! Hash functions over byte strings, and the fingerprint taken from a digest.
use vstd::prelude::*;

use crate::filter::BucketIndex;
use crate::filter::Fingerprint;
use crate::murmur3::spec_murmur3_x86_128;
use crate::murmur3::spec_murmur3_x86_64;
use crate::murmur3::murmur3_x86_64bit;
use crate::murmur3::Murmur3Hasher;

verus! {

/// A deterministic digest of a byte string, for addressing a filter.
pub trait ByteHash {
    /// The digest of `bytes`.
    spec fn spec_digest(bytes: Seq<u8>) -> u64;

    fn digest(bytes: &[u8]) -> (d: u64)
        ensures
            d == Self::spec_digest(bytes@),
    ;
}

impl ByteHash for Murmur3Hasher {
    open spec fn spec_digest(bytes: Seq<u8>) -> u64 {
        spec_murmur3_x86_64(bytes, 0)
    }

    fn digest(bytes: &[u8]) -> (d: u64) {
        murmur3_x86_64bit(bytes)
    }
}

/// DJB2 with XOR in place of addition: `h = h * 33 ^ byte`, from 5381.
pub open spec fn djb2(s: Seq<u8>) -> u32
    decreases s.len(),
{
    if s.len() == 0 {
        5381
    } else {
        djb2(s.drop_last()).wrapping_mul(33) ^ (s.last() as u32)
    }
}

/// The DJB2 (XOR variant) hash of `input`.
pub fn hash_djb2(input: &[u8]) -> (r: u32)
    ensures
        r == djb2(input@),
{
    let mut hash: u32 = 5381;
    let mut i: usize = 0;
    while i < input.len()
        invariant
            i <= input.len(),
            hash == djb2(input@.subrange(0, i as int)),
        decreases input.len() - i,
    {
        proof {
            let next = input@.subrange(0, i + 1);
            assert(next.drop_last() =~= input@.subrange(0, i as int));
        }
        hash = hash.wrapping_mul(33) ^ (input[i] as u32);
        i = i + 1;
    }
    assert(input@.subrange(0, i as int) =~= input@);
    hash
}

/// Murmur3 x86-128 of `source` under `seed`.
pub fn murmur3_x86_128(source: &[u8], seed: u32) -> (r: u128)
    ensures
        r == spec_murmur3_x86_128(source@, seed),
{
    let mut h = Murmur3Hasher::new();
    h.seed(seed);
    h.write(source);
    assert(h.input() =~= source@);
    h.digest128()
}

/// The fingerprint of a 32-bit hash: its low byte, with zero moved to one
/// because a zero slot means empty.
pub open spec fn fingerprint_of(hash_value: u32) -> u32 {
    if hash_value % 256 == 0 {
        1
    } else {
        hash_value % 256
    }
}

/// The one-byte fingerprint of `hash_value`, widened to 32 bits for mixing
/// into a bucket index.
pub fn byte_fingerprint_long(hash_value: u32) -> (r: BucketIndex)
    ensures
        r == fingerprint_of(hash_value),
        1 <= r <= 255,
{
    let fingerprint = hash_value & 0xff;
    assert(hash_value & 0xff == hash_value % 256) by (bit_vector);
    if fingerprint == 0 {
        1
    } else {
        fingerprint
    }
}

/// The one-byte fingerprint of `hash_value`.
pub fn byte_fingerprint_short(hash_value: u32) -> (r: Fingerprint)
    ensures
        r == fingerprint_of(hash_value),
        r != 0,
{
    byte_fingerprint_long(hash_value) as u8
}

} // verus!
