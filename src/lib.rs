//! A cuckoo filter: approximate set membership with deletion.
//!
//! Items are byte strings. Each is reduced to a 64-bit digest, which gives a
//! one-byte fingerprint and two candidate buckets of four slots; an insert
//! into two full buckets relocates fingerprints along a bounded eviction
//! chain, and the one fingerprint it cannot place is kept in an overflow slot
//! so that no inserted item is ever reported missing.
//!
//! - `filter`: the engine and the model its operations are specified by.
//! - `murmur3`: the streaming Murmur3 x86-128 hash the filter uses by default.
//! - `hash`: one-shot hashes, fingerprints, and the `ByteHash` capability.
//! - `laws`: properties proved of the filter's operations.
pub mod filter;
pub mod hash;
pub mod laws;
pub mod murmur3;

pub use filter::BucketIndex;
pub use filter::CuckooFilter;
pub use filter::CuckooFilterError;
pub use filter::Fingerprint;
pub use filter::ITEM_LIMIT;
pub use hash::byte_fingerprint_long;
pub use hash::byte_fingerprint_short;
pub use hash::hash_djb2;
pub use hash::murmur3_x86_128;
pub use hash::ByteHash;
pub use murmur3::murmur3_x86_64bit;
pub use murmur3::Murmur3Hasher;
