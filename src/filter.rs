//! The cuckoo filter engine: a power-of-two array of four-slot buckets, two
//! candidate buckets per item, a bounded eviction chain, and a one-entry
//! overflow slot that marks the filter practically full.
//!
//! Every operation is specified by a function on `FilterView` (the buckets
//! and the overflow slot) and a digest-derived triple `(bucket_1, bucket_2,
//! fingerprint)`.
use vstd::prelude::*;
use vstd::arithmetic::power2::lemma2_to64;
use vstd::arithmetic::power2::lemma_pow2_pos;
use vstd::arithmetic::power2::lemma_pow2_strictly_increases;
use vstd::arithmetic::power2::lemma_pow2_unfold;
use vstd::arithmetic::power2::pow2;
use vstd::arithmetic::div_mod::lemma_small_mod;
use vstd::bits::lemma_u32_low_bits_mask_is_mod;
use vstd::bits::low_bits_mask;

use core::marker::PhantomData;

use crate::hash::byte_fingerprint_long;
use crate::hash::fingerprint_of;
use crate::hash::ByteHash;

verus! {

pub type BucketIndex = u32;

pub type Fingerprint = u8;

/// Rounds of the eviction chain before an insert gives up.
pub const MAX_EVICTIONS: u16 = 500;

/// Fingerprint slots per bucket.
pub const BUCKET_SIZE: usize = 4;

/// The most items a filter may be sized for: 2^31 buckets (the largest power
/// of two a 32-bit bucket index can address) of four slots each.
pub const ITEM_LIMIT: u64 = 0x2_0000_0000;

/// The odd multiplier that spreads a fingerprint over the bucket-index bits.
pub const MAGIC: u32 = 0x5bd1_e995;

/// `n` is a power of two that fits in 32 bits.
pub open spec fn is_pow2_u32(n: nat) -> bool {
    exists|k: nat| k < 32 && pow2(k) == n
}

/// The smallest power of two that is at least `n` (one for zero).
pub open spec fn pow2_ceil(n: nat) -> nat
    decreases n,
{
    if n <= 1 {
        1
    } else {
        2 * pow2_ceil(((n + 1) / 2) as nat)
    }
}

/// The alternate bucket of a fingerprint that sits in bucket `b`.
pub open spec fn alt_bucket(b: u32, f: u8, len: u32) -> u32 {
    (b ^ (f as u32).wrapping_mul(MAGIC)) % len
}

/// The fingerprint taken from the high half of a digest.
pub open spec fn digest_fingerprint(d: u64) -> u8 {
    fingerprint_of((d >> 32u64) as u32) as u8
}

/// The candidate buckets and fingerprint of a digest in a filter of `len`
/// buckets: the low half of the digest picks the first bucket.
pub open spec fn digest_candidates(d: u64, len: u32) -> (u32, u32, u8) {
    let f = digest_fingerprint(d);
    let b1 = (d as u32) % len;
    (b1, alt_bucket(b1, f, len), f)
}

/// The abstract state of a filter.
pub struct FilterView {
    /// Each bucket is a sequence of four slots; zero marks an empty slot.
    pub buckets: Seq<Seq<u8>>,
    /// The overflow slot: a bucket index and the fingerprint that could not
    /// be placed.
    pub victim: Option<(u32, u8)>,
}

impl FilterView {
    pub open spec fn len(self) -> u32 {
        self.buckets.len() as u32
    }

    pub open spec fn wf(self) -> bool {
        &&& is_pow2_u32(self.buckets.len())
        &&& forall|i: int| 0 <= i < self.buckets.len() ==> (#[trigger] self.buckets[i]).len() == 4
    }
}

/// A filter of `n` empty buckets with a clear overflow slot.
pub open spec fn empty_view(n: nat) -> FilterView {
    FilterView { buckets: Seq::new(n, |i: int| seq![0u8, 0u8, 0u8, 0u8]), victim: None }
}

/// The first empty slot of a bucket, or 4 when it is full.
pub open spec fn first_empty(bucket: Seq<u8>) -> int {
    first_match(bucket, 0)
}

/// The first slot of a bucket that holds `f`, or 4 when none does.
pub open spec fn first_match(bucket: Seq<u8>, f: u8) -> int {
    if bucket[0] == f {
        0
    } else if bucket[1] == f {
        1
    } else if bucket[2] == f {
        2
    } else if bucket[3] == f {
        3
    } else {
        4
    }
}

/// Some slot of the bucket holds `f`.
pub open spec fn holds(bucket: Seq<u8>, f: u8) -> bool {
    first_match(bucket, f) < 4
}

/// Slot `s` of bucket `b` set to `f`.
pub open spec fn set_slot(buckets: Seq<Seq<u8>>, b: int, s: int, f: u8) -> Seq<Seq<u8>> {
    buckets.update(b, buckets[b].update(s, f))
}

/// `f` written into the first empty slot of bucket `b`, if it has one.
pub open spec fn try_place(buckets: Seq<Seq<u8>>, b: u32, f: u8) -> Option<Seq<Seq<u8>>> {
    let s = first_empty(buckets[b as int]);
    if s < 4 {
        Some(set_slot(buckets, b as int, s, f))
    } else {
        None
    }
}

/// The eviction chain from round `kick` on, carrying fingerprint `carried`
/// towards bucket `target`: the final buckets, and the fingerprint left over
/// with the bucket it was headed for when the rounds ran out.
///
/// Every round after the first tries to place the carried fingerprint; failing
/// that, it swaps it into slot `target % 4` and carries the one it displaced
/// on to that fingerprint's alternate bucket.
pub open spec fn kick_chain(
    buckets: Seq<Seq<u8>>,
    len: u32,
    target: u32,
    carried: u8,
    kick: nat,
) -> (Seq<Seq<u8>>, Option<(u32, u8)>)
    decreases MAX_EVICTIONS - kick,
{
    if kick >= MAX_EVICTIONS {
        (buckets, Some((target, carried)))
    } else if kick > 0 && try_place(buckets, target, carried) is Some {
        (try_place(buckets, target, carried)->0, None)
    } else {
        let slot = (target % 4) as int;
        let evicted = buckets[target as int][slot];
        kick_chain(
            set_slot(buckets, target as int, slot, carried),
            len,
            alt_bucket(target, evicted, len),
            evicted,
            kick + 1,
        )
    }
}

/// Inserting fingerprint `f` with candidate buckets `c1` and `c2`.
pub open spec fn insert_model(v: FilterView, c1: u32, c2: u32, f: u8) -> (
    FilterView,
    Result<(), CuckooFilterError>,
) {
    if v.victim is Some {
        (v, Err(CuckooFilterError::OutOfSpace))
    } else if try_place(v.buckets, c1, f) is Some {
        (FilterView { buckets: try_place(v.buckets, c1, f)->0, victim: None }, Ok(()))
    } else if try_place(v.buckets, c2, f) is Some {
        (FilterView { buckets: try_place(v.buckets, c2, f)->0, victim: None }, Ok(()))
    } else {
        let start = if f % 2 == 0 {
            c1
        } else {
            c2
        };
        let (buckets, left) = kick_chain(v.buckets, v.len(), start, f, 0);
        match left {
            None => (FilterView { buckets, victim: None }, Ok(())),
            Some(x) => (FilterView { buckets, victim: Some(x) }, Err(CuckooFilterError::OutOfSpace)),
        }
    }
}

/// The overflow slot holds `f` for one of the buckets `c1`, `c2`.
pub open spec fn victim_matches(v: FilterView, c1: u32, c2: u32, f: u8) -> bool {
    match v.victim {
        Some((i, g)) => g == f && (i == c1 || i == c2),
        None => false,
    }
}

/// Looking up fingerprint `f` with candidate buckets `c1` and `c2`.
pub open spec fn lookup_model(v: FilterView, c1: u32, c2: u32, f: u8) -> bool {
    victim_matches(v, c1, c2, f) || holds(v.buckets[c1 as int], f) || holds(
        v.buckets[c2 as int],
        f,
    )
}

/// Deleting fingerprint `f` with candidate buckets `c1` and `c2`: the overflow
/// slot first, then the first matching slot of `c1`, then of `c2`.
pub open spec fn delete_model(v: FilterView, c1: u32, c2: u32, f: u8) -> (
    FilterView,
    Result<(), CuckooFilterError>,
) {
    if victim_matches(v, c1, c2, f) {
        (FilterView { buckets: v.buckets, victim: None }, Ok(()))
    } else if holds(v.buckets[c1 as int], f) {
        (
            FilterView {
                buckets: set_slot(v.buckets, c1 as int, first_match(v.buckets[c1 as int], f), 0),
                victim: v.victim,
            },
            Ok(()),
        )
    } else if holds(v.buckets[c2 as int], f) {
        (
            FilterView {
                buckets: set_slot(v.buckets, c2 as int, first_match(v.buckets[c2 as int], f), 0),
                victim: v.victim,
            },
            Ok(()),
        )
    } else {
        (v, Err(CuckooFilterError::ItemDoesNotExist))
    }
}

/// Inserting the item with digest `d`.
pub open spec fn insert_digest_model(v: FilterView, d: u64) -> (
    FilterView,
    Result<(), CuckooFilterError>,
) {
    let (c1, c2, f) = digest_candidates(d, v.len());
    insert_model(v, c1, c2, f)
}

/// Looking up the item with digest `d`.
pub open spec fn lookup_digest_model(v: FilterView, d: u64) -> bool {
    let (c1, c2, f) = digest_candidates(d, v.len());
    lookup_model(v, c1, c2, f)
}

/// Deleting the item with digest `d`.
pub open spec fn delete_digest_model(v: FilterView, d: u64) -> (
    FilterView,
    Result<(), CuckooFilterError>,
) {
    let (c1, c2, f) = digest_candidates(d, v.len());
    delete_model(v, c1, c2, f)
}

/// A power of two that fits in 32 bits is between one and 2^31.
pub proof fn lemma_pow2_u32_pos(n: nat)
    requires
        is_pow2_u32(n),
    ensures
        0 < n <= 0x8000_0000,
{
    let k = choose|k: nat| k < 32 && pow2(k) == n;
    lemma_pow2_pos(k);
    lemma2_to64();
    if k < 31 {
        lemma_pow2_strictly_increases(k, 31);
    }
}

proof fn lemma_mod_is_mask(x: u32, n: u32)
    requires
        is_pow2_u32(n as nat),
    ensures
        x % n == x & ((n - 1) as u32),
{
    let k = choose|k: nat| k < 32 && pow2(k) == n;
    lemma_pow2_pos(k);
    lemma_u32_low_bits_mask_is_mod(x, k);
    assert(low_bits_mask(k) == n - 1);
}

/// Bucket reversibility: from either candidate bucket and the fingerprint,
/// the alternate-bucket map gives the other one.
pub proof fn lemma_alt_bucket_involutive(b: u32, f: u8, len: u32)
    requires
        is_pow2_u32(len as nat),
        b < len,
    ensures
        alt_bucket(alt_bucket(b, f, len), f, len) == b,
{
    let x = (f as u32).wrapping_mul(MAGIC);
    let m = (len - 1) as u32;
    let y = (b ^ x) % len;
    lemma_mod_is_mask(b ^ x, len);
    lemma_mod_is_mask(y ^ x, len);
    lemma_mod_is_mask(b, len);
    lemma_pow2_u32_pos(len as nat);
    lemma_small_mod(b as nat, len as nat);
    assert(y == (b ^ x) & m);
    assert(alt_bucket(y, f, len) == (y ^ x) & m);
    assert((((b ^ x) & m) ^ x) & m == b & m) by (bit_vector);
}

/// Bucket reversibility for a digest: applying the alternate-bucket map to
/// its first candidate gives the second, and to the second gives the first.
pub proof fn lemma_digest_buckets_reversible(d: u64, len: u32)
    requires
        is_pow2_u32(len as nat),
    ensures
        ({
            let (b1, b2, f) = digest_candidates(d, len);
            alt_bucket(b1, f, len) == b2 && alt_bucket(b2, f, len) == b1
        }),
{
    let (b1, b2, f) = digest_candidates(d, len);
    lemma_pow2_u32_pos(len as nat);
    lemma_alt_bucket_involutive(b1, f, len);
}

proof fn lemma_pow2_ceil(n: nat, k: nat)
    requires
        n <= pow2(k),
        k == 0 || pow2((k - 1) as nat) < n,
    ensures
        pow2_ceil(n) == pow2(k),
    decreases k,
{
    lemma2_to64();
    if k > 0 {
        lemma_pow2_unfold(k);
        let m = ((n + 1) / 2) as nat;
        if k > 1 {
            lemma_pow2_unfold((k - 1) as nat);
        }
        lemma_pow2_ceil(m, (k - 1) as nat);
    }
}

/// The smallest power of two that is at least `n`.
fn next_power_of_two(n: usize) -> (p: usize)
    requires
        n <= 0x8000_0000,
    ensures
        p == pow2_ceil(n as nat),
        is_pow2_u32(p as nat),
{
    let mut p: usize = 1;
    let ghost mut k: nat = 0;
    proof {
        lemma2_to64();
    }
    while p < n
        invariant
            n <= 0x8000_0000,
            p == pow2(k),
            p >= 1,
            k < 32,
            k == 0 || pow2((k - 1) as nat) < n,
        decreases 32 - k,
    {
        proof {
            lemma2_to64();
            if k >= 31 {
                lemma_pow2_strictly_increases(30, k);
            }
            lemma_pow2_unfold(k + 1);
        }
        p = p * 2;
        proof {
            k = k + 1;
        }
    }
    proof {
        lemma_pow2_ceil(n as nat, k);
    }
    p
}

/// The fingerprint that could not be placed, and the bucket it was headed for.
struct EvictionVictim {
    index: u32,
    fingerprint: Fingerprint,
    used: bool,
}

impl EvictionVictim {
    fn new() -> (v: EvictionVictim)
        ensures
            !v.used,
            v.index == 0,
            v.fingerprint == 0,
    {
        EvictionVictim { index: 0, fingerprint: 0, used: false }
    }

    fn reset(&mut self)
        ensures
            !final(self).used,
            final(self).index == 0,
            final(self).fingerprint == 0,
    {
        self.index = 0;
        self.fingerprint = 0;
        self.used = false;
    }
}

/// What can go wrong with a filter.
#[derive(Debug, Clone, Copy, PartialEq, Eq, Structural)]
pub enum CuckooFilterError {
    /// The requested capacity is over the item limit.
    CapacityExceedsItemLimit,
    /// The eviction chain ran out, or the overflow slot is already taken.
    OutOfSpace,
    /// Reserved for an insert that refuses duplicates.
    ItemAlreadyExists,
    /// No slot for the item's fingerprint in its candidate buckets.
    ItemDoesNotExist,
}

/// A cuckoo filter whose items are byte strings hashed with `H`.
///
/// Not synchronised: mutation needs `&mut`, and lookups need only `&`.
pub struct CuckooFilter<H: ByteHash> {
    eviction_cache: EvictionVictim,
    data: Vec<[Fingerprint; 4]>,
    length_u32: u32,
    hasher: PhantomData<H>,
}

impl<H: ByteHash> View for CuckooFilter<H> {
    type V = FilterView;

    closed spec fn view(&self) -> FilterView {
        FilterView {
            buckets: self.data@.map_values(|a: [u8; 4]| a@),
            victim: if self.eviction_cache.used {
                Some((self.eviction_cache.index, self.eviction_cache.fingerprint))
            } else {
                None
            },
        }
    }
}

/// The first slot of `bucket` that holds `f`, or 4 when none does.
fn first_slot_with(bucket: &[Fingerprint; 4], f: Fingerprint) -> (s: usize)
    ensures
        s == first_match(bucket@, f),
{
    if bucket[0] == f {
        0
    } else if bucket[1] == f {
        1
    } else if bucket[2] == f {
        2
    } else if bucket[3] == f {
        3
    } else {
        4
    }
}

impl<H: ByteHash> CuckooFilter<H> {
    /// The bucket store matches the bucket count, a power of two whose byte
    /// size fits in `usize`.
    pub closed spec fn wf(&self) -> bool {
        &&& self.data@.len() == self.length_u32
        &&& is_pow2_u32(self.length_u32 as nat)
        &&& 4 * self.length_u32 <= usize::MAX
    }

    proof fn lemma_view_wf(&self)
        requires
            self.wf(),
        ensures
            self@.wf(),
            self@.len() == self.length_u32,
            self@.buckets.len() == self.length_u32,
            self.length_u32 > 0,
    {
        lemma_pow2_u32_pos(self.length_u32 as nat);
        assert forall|i: int| 0 <= i < self@.buckets.len() implies (#[trigger] self@.buckets[i]).len()
            == 4 by {
            assert(self@.buckets[i] == self.data@[i]@);
        }
    }

    /// Tries to create a filter sized for `max_items` items: `max_items / 4`
    /// buckets, rounded up to a power of two, all empty.
    ///
    /// A caller that sets `compile_time_check` must stay within the item
    /// limit; the bound is then checked where that caller is verified.
    ///
    /// # Errors
    ///
    /// `CapacityExceedsItemLimit` when `max_items` is over `ITEM_LIMIT`, or
    /// when the bucket store would not fit the address space (possible only
    /// where `usize` has 32 bits).
    pub fn new(max_items: usize, compile_time_check: bool) -> (r: Result<
        CuckooFilter<H>,
        CuckooFilterError,
    >)
        requires
            compile_time_check ==> max_items <= ITEM_LIMIT,
        ensures
            r is Err <==> (max_items > ITEM_LIMIT || 4 * pow2_ceil(max_items as nat / 4)
                > usize::MAX),
            r is Err ==> r->Err_0 == CuckooFilterError::CapacityExceedsItemLimit,
            r is Ok ==> r->Ok_0.wf() && r->Ok_0@ == empty_view(pow2_ceil(max_items as nat / 4)),
    {
        if max_items as u64 > ITEM_LIMIT {
            return Err(CuckooFilterError::CapacityExceedsItemLimit);
        }
        let number_of_buckets_exact: usize = max_items / BUCKET_SIZE;
        let number_of_buckets_actual: usize = next_power_of_two(number_of_buckets_exact);
        if number_of_buckets_actual > usize::MAX / BUCKET_SIZE {
            return Err(CuckooFilterError::CapacityExceedsItemLimit);
        }
        proof {
            lemma_pow2_u32_pos(number_of_buckets_actual as nat);
        }
        let empty: [Fingerprint; 4] = [0u8; 4];
        let data = vec![empty; number_of_buckets_actual];
        let filter = CuckooFilter {
            eviction_cache: EvictionVictim::new(),
            data,
            length_u32: number_of_buckets_actual as u32,
            hasher: PhantomData,
        };
        proof {
            let n = number_of_buckets_actual as nat;
            assert forall|i: int| 0 <= i < n implies #[trigger] filter@.buckets[i] == seq![
                0u8,
                0u8,
                0u8,
                0u8,
            ] by {
                assert(cloned(empty, filter.data@[i]));
                assert(filter.data@[i]@ =~= seq![0u8, 0u8, 0u8, 0u8]);
            }
            assert(filter@.buckets =~= empty_view(n).buckets);
        }
        Ok(filter)
    }

    /// Approximate bytes used by the bucket store: four per bucket.
    pub fn estimate_size(&self) -> (r: usize)
        requires
            self.wf(),
        ensures
            r == 4 * self@.buckets.len(),
    {
        self.data.len() * BUCKET_SIZE
    }

    /// The filter is practically full: the overflow slot is taken.
    pub fn is_full(&self) -> (r: bool)
        ensures
            r == self@.victim is Some,
    {
        self.eviction_cache.used
    }

    /// The candidate buckets and fingerprint of a digest.
    pub fn digest_to_buckets(&self, hash_value: u64) -> (r: (BucketIndex, BucketIndex, Fingerprint))
        requires
            self.wf(),
        ensures
            r == digest_candidates(hash_value, self@.len()),
            r.0 < self@.len(),
            r.1 < self@.len(),
    {
        proof {
            self.lemma_view_wf();
        }
        let upper_bits: u32 = (hash_value >> 32u64) as u32;
        let fingerprint_u32 = byte_fingerprint_long(upper_bits);
        let bucket_1 = (hash_value as u32) % self.length_u32;
        let bucket_2 = (bucket_1 ^ fingerprint_u32.wrapping_mul(MAGIC)) % self.length_u32;
        (bucket_1, bucket_2, fingerprint_u32 as u8)
    }

    /// The alternate bucket of a fingerprint displaced from `old_bucket`.
    pub fn bucket_from_evicted(&self, old_bucket: BucketIndex, fingerprint: Fingerprint) -> (r:
        BucketIndex)
        requires
            self.wf(),
        ensures
            r == alt_bucket(old_bucket, fingerprint, self@.len()),
            r < self@.len(),
    {
        proof {
            self.lemma_view_wf();
        }
        (old_bucket ^ (fingerprint as u32).wrapping_mul(MAGIC)) % self.length_u32
    }

    fn write_slot(&mut self, bucket_index: BucketIndex, slot: usize, fingerprint: Fingerprint)
        requires
            old(self).wf(),
            bucket_index < old(self)@.len(),
            slot < 4,
        ensures
            final(self).wf(),
            final(self).length_u32 == old(self).length_u32,
            final(self)@.victim == old(self)@.victim,
            final(self)@.buckets == set_slot(
                old(self)@.buckets,
                bucket_index as int,
                slot as int,
                fingerprint,
            ),
    {
        proof {
            self.lemma_view_wf();
        }
        let mut bucket = self.data[bucket_index as usize];
        bucket[slot] = fingerprint;
        self.data.set(bucket_index as usize, bucket);
        assert(self@.buckets =~= set_slot(
            old(self)@.buckets,
            bucket_index as int,
            slot as int,
            fingerprint,
        ));
    }

    /// Puts `fingerprint` in the first empty slot of the bucket; false when
    /// the bucket is full, and then nothing changes.
    fn try_insert_at_bucket(&mut self, bucket_index: BucketIndex, fingerprint: Fingerprint) -> (r:
        bool)
        requires
            old(self).wf(),
            bucket_index < old(self)@.len(),
        ensures
            final(self).wf(),
            final(self).length_u32 == old(self).length_u32,
            final(self)@.victim == old(self)@.victim,
            r == try_place(old(self)@.buckets, bucket_index, fingerprint) is Some,
            r ==> final(self)@.buckets == try_place(
                old(self)@.buckets,
                bucket_index,
                fingerprint,
            )->0,
            !r ==> final(self)@ == old(self)@,
    {
        proof {
            self.lemma_view_wf();
        }
        let slot = first_slot_with(&self.data[bucket_index as usize], 0);
        if slot < BUCKET_SIZE {
            self.write_slot(bucket_index, slot, fingerprint);
            true
        } else {
            false
        }
    }

    /// Swaps `fingerprint` into a slot and returns the one it displaced.
    fn swap_at_bucket(&mut self, bucket_index: BucketIndex, fingerprint: Fingerprint, slot: usize) -> (r:
        Fingerprint)
        requires
            old(self).wf(),
            bucket_index < old(self)@.len(),
            slot < 4,
        ensures
            final(self).wf(),
            final(self).length_u32 == old(self).length_u32,
            final(self)@.victim == old(self)@.victim,
            r == old(self)@.buckets[bucket_index as int][slot as int],
            final(self)@.buckets == set_slot(
                old(self)@.buckets,
                bucket_index as int,
                slot as int,
                fingerprint,
            ),
    {
        proof {
            self.lemma_view_wf();
        }
        let evicted_fingerprint = self.data[bucket_index as usize][slot];
        self.write_slot(bucket_index, slot, fingerprint);
        evicted_fingerprint
    }

    /// Places fingerprint `fingerprint` with candidate buckets `candidate_1`
    /// and `candidate_2`, evicting along a chain when both are full.
    fn internal_insert(&mut self, candidate_1: u32, candidate_2: u32, fingerprint: u8) -> (r: Result<
        (),
        CuckooFilterError,
    >)
        requires
            old(self).wf(),
            candidate_1 < old(self)@.len(),
            candidate_2 < old(self)@.len(),
        ensures
            final(self).wf(),
            (final(self)@, r) == insert_model(old(self)@, candidate_1, candidate_2, fingerprint),
    {
        proof {
            self.lemma_view_wf();
        }
        if self.eviction_cache.used {
            return Err(CuckooFilterError::OutOfSpace);
        }
        if self.try_insert_at_bucket(candidate_1, fingerprint) {
            return Ok(());
        }
        if self.try_insert_at_bucket(candidate_2, fingerprint) {
            return Ok(());
        }
        let mut target_bucket_index = if fingerprint % 2 == 0 {
            candidate_1
        } else {
            candidate_2
        };
        let mut carried: Fingerprint = fingerprint;
        let mut kick: u16 = 0;
        let ghost len = self@.len();
        let ghost start = self@.buckets;
        let ghost first_target = target_bucket_index;
        while kick < MAX_EVICTIONS
            invariant
                self.wf(),
                !self.eviction_cache.used,
                self@.len() == len,
                len == old(self)@.len(),
                start == old(self)@.buckets,
                old(self)@.victim is None,
                try_place(start, candidate_1, fingerprint) is None,
                try_place(start, candidate_2, fingerprint) is None,
                first_target == if fingerprint % 2 == 0 {
                    candidate_1
                } else {
                    candidate_2
                },
                kick <= MAX_EVICTIONS,
                target_bucket_index < len,
                kick_chain(self@.buckets, len, target_bucket_index, carried, kick as nat)
                    == kick_chain(start, len, first_target, fingerprint, 0),
            decreases MAX_EVICTIONS - kick,
        {
            if kick > 0 && self.try_insert_at_bucket(target_bucket_index, carried) {
                return Ok(());
            }
            let slot = (target_bucket_index % 4) as usize;
            let evicted = self.swap_at_bucket(target_bucket_index, carried, slot);
            target_bucket_index = self.bucket_from_evicted(target_bucket_index, evicted);
            carried = evicted;
            kick = kick + 1;
        }
        self.eviction_cache.index = target_bucket_index;
        self.eviction_cache.fingerprint = carried;
        self.eviction_cache.used = true;
        Err(CuckooFilterError::OutOfSpace)
    }

    /// Whether fingerprint `fingerprint` is in the overflow slot for one of
    /// the candidates, or in either candidate bucket.
    fn internal_lookup(&self, candidate_1: u32, candidate_2: u32, fingerprint: u8) -> (r: bool)
        requires
            self.wf(),
            candidate_1 < self@.len(),
            candidate_2 < self@.len(),
        ensures
            r == lookup_model(self@, candidate_1, candidate_2, fingerprint),
    {
        proof {
            self.lemma_view_wf();
        }
        if self.eviction_cache.used && fingerprint == self.eviction_cache.fingerprint && (
        self.eviction_cache.index == candidate_1 || self.eviction_cache.index == candidate_2) {
            return true;
        }
        first_slot_with(&self.data[candidate_1 as usize], fingerprint) < BUCKET_SIZE
            || first_slot_with(&self.data[candidate_2 as usize], fingerprint) < BUCKET_SIZE
    }

    /// Clears the overflow slot if it matches, else the first slot holding
    /// `fingerprint` in `candidate_1`, then in `candidate_2`.
    fn internal_delete(&mut self, candidate_1: u32, candidate_2: u32, fingerprint: u8) -> (r: Result<
        (),
        CuckooFilterError,
    >)
        requires
            old(self).wf(),
            candidate_1 < old(self)@.len(),
            candidate_2 < old(self)@.len(),
        ensures
            final(self).wf(),
            (final(self)@, r) == delete_model(old(self)@, candidate_1, candidate_2, fingerprint),
    {
        proof {
            self.lemma_view_wf();
        }
        if self.eviction_cache.used && fingerprint == self.eviction_cache.fingerprint && (
        self.eviction_cache.index == candidate_1 || self.eviction_cache.index == candidate_2) {
            self.eviction_cache.reset();
            return Ok(());
        }
        let slot = first_slot_with(&self.data[candidate_1 as usize], fingerprint);
        if slot < BUCKET_SIZE {
            self.write_slot(candidate_1, slot, 0);
            return Ok(());
        }
        let slot = first_slot_with(&self.data[candidate_2 as usize], fingerprint);
        if slot < BUCKET_SIZE {
            self.write_slot(candidate_2, slot, 0);
            return Ok(());
        }
        Err(CuckooFilterError::ItemDoesNotExist)
    }

    /// Inserts the item whose digest is `digest`.
    ///
    /// # Errors
    ///
    /// `OutOfSpace` when the overflow slot is already taken, or when the
    /// eviction chain runs out; the fingerprint left over then takes the
    /// overflow slot.
    pub fn insert_digest(&mut self, digest: u64) -> (r: Result<(), CuckooFilterError>)
        requires
            old(self).wf(),
        ensures
            final(self).wf(),
            (final(self)@, r) == insert_digest_model(old(self)@, digest),
    {
        let (candidate_1, candidate_2, fingerprint) = self.digest_to_buckets(digest);
        self.internal_insert(candidate_1, candidate_2, fingerprint)
    }

    /// Whether the item whose digest is `digest` may be in the filter.
    pub fn lookup_digest(&self, digest: u64) -> (r: bool)
        requires
            self.wf(),
        ensures
            r == lookup_digest_model(self@, digest),
    {
        let (candidate_1, candidate_2, fingerprint) = self.digest_to_buckets(digest);
        self.internal_lookup(candidate_1, candidate_2, fingerprint)
    }

    /// Deletes one fingerprint of the item whose digest is `digest`.
    ///
    /// # Errors
    ///
    /// `ItemDoesNotExist` when neither the overflow slot nor a candidate
    /// bucket holds its fingerprint.
    pub fn delete_digest(&mut self, digest: u64) -> (r: Result<(), CuckooFilterError>)
        requires
            old(self).wf(),
        ensures
            final(self).wf(),
            (final(self)@, r) == delete_digest_model(old(self)@, digest),
    {
        let (candidate_1, candidate_2, fingerprint) = self.digest_to_buckets(digest);
        self.internal_delete(candidate_1, candidate_2, fingerprint)
    }

    /// Inserts `item`, hashed with `H`.
    ///
    /// # Errors
    ///
    /// `OutOfSpace`, as for `insert_digest`.
    pub fn insert(&mut self, item: &[u8]) -> (r: Result<(), CuckooFilterError>)
        requires
            old(self).wf(),
        ensures
            final(self).wf(),
            (final(self)@, r) == insert_digest_model(old(self)@, H::spec_digest(item@)),
    {
        let digest = H::digest(item);
        self.insert_digest(digest)
    }

    /// Inserts `item`, hashed with `hash_function`.
    ///
    /// # Errors
    ///
    /// `OutOfSpace`, as for `insert_digest`.
    pub fn insert_stateless<F: Fn(&[u8]) -> u64>(&mut self, item: &[u8], hash_function: F) -> (r: Result<
        (),
        CuckooFilterError,
    >)
        requires
            old(self).wf(),
            hash_function.requires((item,)),
        ensures
            final(self).wf(),
            exists|d: u64|
                hash_function.ensures((item,), d) && (final(self)@, r) == insert_digest_model(
                    old(self)@,
                    d,
                ),
    {
        let digest = hash_function(item);
        self.insert_digest(digest)
    }

    /// Whether `item`, hashed with `H`, may be in the filter.
    pub fn lookup(&self, item: &[u8]) -> (r: bool)
        requires
            self.wf(),
        ensures
            r == lookup_digest_model(self@, H::spec_digest(item@)),
    {
        let digest = H::digest(item);
        self.lookup_digest(digest)
    }

    /// Whether `item`, hashed with `hash_function`, may be in the filter.
    pub fn lookup_stateless<F: Fn(&[u8]) -> u64>(&self, item: &[u8], hash_function: F) -> (r: bool)
        requires
            self.wf(),
            hash_function.requires((item,)),
        ensures
            exists|d: u64|
                hash_function.ensures((item,), d) && r == lookup_digest_model(self@, d),
    {
        let digest = hash_function(item);
        self.lookup_digest(digest)
    }

    /// Deletes `item`, hashed with `H`.
    ///
    /// Deletion goes by fingerprint, so it may take the slot of another item
    /// with the same fingerprint and candidate buckets.
    ///
    /// # Errors
    ///
    /// `ItemDoesNotExist`, as for `delete_digest`.
    pub fn delete(&mut self, item: &[u8]) -> (r: Result<(), CuckooFilterError>)
        requires
            old(self).wf(),
        ensures
            final(self).wf(),
            (final(self)@, r) == delete_digest_model(old(self)@, H::spec_digest(item@)),
    {
        let digest = H::digest(item);
        self.delete_digest(digest)
    }

    /// Deletes `item`, hashed with `hash_function`.
    ///
    /// # Errors
    ///
    /// `ItemDoesNotExist`, as for `delete_digest`.
    pub fn delete_stateless<F: Fn(&[u8]) -> u64>(&mut self, item: &[u8], hash_function: F) -> (r: Result<
        (),
        CuckooFilterError,
    >)
        requires
            old(self).wf(),
            hash_function.requires((item,)),
        ensures
            final(self).wf(),
            exists|d: u64|
                hash_function.ensures((item,), d) && (final(self)@, r) == delete_digest_model(
                    old(self)@,
                    d,
                ),
    {
        let digest = hash_function(item);
        self.delete_digest(digest)
    }

    /// The number of buckets.
    pub fn bucket_count(&self) -> (r: u32)
        requires
            self.wf(),
        ensures
            r == self@.len(),
            r == self@.buckets.len(),
    {
        proof {
            self.lemma_view_wf();
        }
        self.length_u32
    }
}

} // verus!
