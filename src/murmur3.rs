//! The Murmur3 x86-128 mixing function, run as a streaming accumulator.
//!
//! Input is cut into 16-byte blocks; each block is split into four
//! little-endian words that are scrambled into four 32-bit lanes. The last
//! 0-15 bytes are only folded in when a digest is taken, together with the
//! total length, so that bytes may be fed in any number of pieces.
use vstd::prelude::*;

verus! {

// Block and tail multipliers and offsets of the x86-128 variant.
pub const C1: u32 = 0x239b_961b;

pub const C2: u32 = 0xab0e_9789;

pub const C3: u32 = 0x38b3_4ae5;

pub const C4: u32 = 0xa1e3_8b93;

pub const C5: u32 = 0x561c_cd1b;

pub const C6: u32 = 0x0bca_a747;

pub const C7: u32 = 0x96cd_1c35;

pub const C8: u32 = 0x32ac_3b17;

pub const M: u32 = 5;

// Multipliers of the final avalanche.
pub const FMIX_C1: u32 = 0x85eb_ca6b;

pub const FMIX_C2: u32 = 0xc2b2_ae35;

/// Bytes per block.
pub const BLOCK_LEN: usize = 16;

/// The four 32-bit accumulators.
pub type Lanes = (u32, u32, u32, u32);

/// `x` rotated left by `r` bits, for `0 < r < 32`.
pub open spec fn rotl(x: u32, r: u32) -> u32 {
    (x << r) | (x >> ((32 - r) as u32))
}

/// Byte `i` of `b`, or zero past its end.
pub open spec fn byte_at(b: Seq<u8>, i: int) -> u8 {
    if 0 <= i < b.len() {
        b[i]
    } else {
        0
    }
}

/// The little-endian word that starts at byte `i` of `b`, padded with zeros.
pub open spec fn word_at(b: Seq<u8>, i: int) -> u32 {
    (byte_at(b, i) as u32) | ((byte_at(b, i + 1) as u32) << 8u32) | ((byte_at(b, i + 2) as u32)
        << 16u32) | ((byte_at(b, i + 3) as u32) << 24u32)
}

/// The multiply-rotate-multiply scramble applied to one input word.
pub open spec fn scramble(k: u32, ca: u32, r: u32, cb: u32) -> u32 {
    rotl(k.wrapping_mul(ca), r).wrapping_mul(cb)
}

/// Mixes one full 16-byte block into the lanes, each lane feeding the next.
pub open spec fn mix_block(h: Lanes, block: Seq<u8>) -> Lanes {
    let h1 = h.0 ^ scramble(word_at(block, 0), C1, 15, C2);
    let h1 = rotl(h1, 19).wrapping_add(h.1).wrapping_mul(M).wrapping_add(C5);
    let h2 = h.1 ^ scramble(word_at(block, 4), C2, 16, C3);
    let h2 = rotl(h2, 17).wrapping_add(h.2).wrapping_mul(M).wrapping_add(C6);
    let h3 = h.2 ^ scramble(word_at(block, 8), C3, 17, C4);
    let h3 = rotl(h3, 15).wrapping_add(h.3).wrapping_mul(M).wrapping_add(C7);
    let h4 = h.3 ^ scramble(word_at(block, 12), C4, 18, C1);
    let h4 = rotl(h4, 13).wrapping_add(h1).wrapping_mul(M).wrapping_add(C8);
    (h1, h2, h3, h4)
}

/// Folds the trailing partial block (fewer than 16 bytes) into the lanes.
///
/// A lane whose bytes are all absent receives a zero word, which scrambles to
/// zero and leaves the lane as it was.
pub open spec fn mix_tail(h: Lanes, tail: Seq<u8>) -> Lanes {
    (
        h.0 ^ scramble(word_at(tail, 0), C1, 15, C2),
        h.1 ^ scramble(word_at(tail, 4), C2, 16, C3),
        h.2 ^ scramble(word_at(tail, 8), C3, 17, C4),
        h.3 ^ scramble(word_at(tail, 12), C4, 18, C1),
    )
}

/// The final avalanche of one lane.
pub open spec fn fmix(k: u32) -> u32 {
    let k = k ^ (k >> 16u32);
    let k = k.wrapping_mul(FMIX_C1);
    let k = k ^ (k >> 13u32);
    let k = k.wrapping_mul(FMIX_C2);
    k ^ (k >> 16u32)
}

/// Adds the other three lanes into the first, then the first into the others.
pub open spec fn cross_add(h: Lanes) -> Lanes {
    let h1 = h.0.wrapping_add(h.1).wrapping_add(h.2).wrapping_add(h.3);
    (h1, h.1.wrapping_add(h1), h.2.wrapping_add(h1), h.3.wrapping_add(h1))
}

/// The finalisation: length into every lane, cross-add, avalanche, cross-add.
pub open spec fn finalize(h: Lanes, len: u32) -> Lanes {
    let h = cross_add((h.0 ^ len, h.1 ^ len, h.2 ^ len, h.3 ^ len));
    cross_add((fmix(h.0), fmix(h.1), fmix(h.2), fmix(h.3)))
}

/// The total length as it enters the finalisation: modulo 2^32.
pub open spec fn length_word(n: nat) -> u32 {
    (n % 0x1_0000_0000) as u32
}

/// The lanes after the first `n` full blocks of `bytes`.
pub open spec fn lanes_after(seed: u32, bytes: Seq<u8>, n: nat) -> Lanes
    decreases n,
{
    if n == 0 {
        (seed, seed, seed, seed)
    } else {
        mix_block(
            lanes_after(seed, bytes, (n - 1) as nat),
            bytes.subrange(16 * (n - 1), 16 * n as int),
        )
    }
}

/// Number of full blocks in a stream of `n` bytes.
pub open spec fn full_blocks(n: nat) -> nat {
    n / 16
}

/// The finalised lanes of the hash of `bytes` under `seed`.
pub open spec fn murmur3_lanes(bytes: Seq<u8>, seed: u32) -> Lanes {
    let n = full_blocks(bytes.len());
    finalize(
        mix_tail(lanes_after(seed, bytes, n), bytes.subrange(16 * n as int, bytes.len() as int)),
        length_word(bytes.len()),
    )
}

/// The lanes concatenated into 128 bits, the first lane lowest.
pub open spec fn lanes_to_u128(h: Lanes) -> u128 {
    ((h.3 as u128) << 96u128) | ((h.2 as u128) << 64u128) | ((h.1 as u128) << 32u128) | (h.0 as u128)
}

/// The two low lanes as 64 bits: the low half of `lanes_to_u128`.
pub open spec fn lanes_to_u64(h: Lanes) -> u64 {
    ((h.1 as u64) << 32u64) | (h.0 as u64)
}

/// Murmur3 x86-128 of `bytes` under `seed`.
pub open spec fn spec_murmur3_x86_128(bytes: Seq<u8>, seed: u32) -> u128 {
    lanes_to_u128(murmur3_lanes(bytes, seed))
}

/// The 64-bit digest: the low half of Murmur3 x86-128.
pub open spec fn spec_murmur3_x86_64(bytes: Seq<u8>, seed: u32) -> u64 {
    lanes_to_u64(murmur3_lanes(bytes, seed))
}

fn rotate_left(x: u32, r: u32) -> (y: u32)
    requires
        0 < r < 32,
    ensures
        y == rotl(x, r),
{
    (x << r) | (x >> (32 - r))
}

/// The final avalanche of one lane.
pub fn fmix32(k: u32) -> (r: u32)
    ensures
        r == fmix(k),
{
    let mut tmp = k;
    tmp = tmp ^ (tmp >> 16u32);
    tmp = tmp.wrapping_mul(FMIX_C1);
    tmp = tmp ^ (tmp >> 13u32);
    tmp = tmp.wrapping_mul(FMIX_C2);
    tmp = tmp ^ (tmp >> 16u32);
    tmp
}

fn scramble_word(k: u32, ca: u32, r: u32, cb: u32) -> (s: u32)
    requires
        0 < r < 32,
    ensures
        s == scramble(k, ca, r, cb),
{
    rotate_left(k.wrapping_mul(ca), r).wrapping_mul(cb)
}

/// The little-endian word at byte `i` of `b`, zero-padded past the end.
fn read_word(b: &[u8], i: usize) -> (w: u32)
    requires
        i + 3 <= usize::MAX,
    ensures
        w == word_at(b@, i as int),
{
    let b0: u8 = if i < b.len() { b[i] } else { 0 };
    let b1: u8 = if i + 1 < b.len() { b[i + 1] } else { 0 };
    let b2: u8 = if i + 2 < b.len() { b[i + 2] } else { 0 };
    let b3: u8 = if i + 3 < b.len() { b[i + 3] } else { 0 };
    (b0 as u32) | ((b1 as u32) << 8u32) | ((b2 as u32) << 16u32) | ((b3 as u32) << 24u32)
}

fn mix_block_exec(h: Lanes, block: &[u8]) -> (r: Lanes)
    ensures
        r == mix_block(h, block@),
{
    let h1 = h.0 ^ scramble_word(read_word(block, 0), C1, 15, C2);
    let h1 = rotate_left(h1, 19).wrapping_add(h.1).wrapping_mul(M).wrapping_add(C5);
    let h2 = h.1 ^ scramble_word(read_word(block, 4), C2, 16, C3);
    let h2 = rotate_left(h2, 17).wrapping_add(h.2).wrapping_mul(M).wrapping_add(C6);
    let h3 = h.2 ^ scramble_word(read_word(block, 8), C3, 17, C4);
    let h3 = rotate_left(h3, 15).wrapping_add(h.3).wrapping_mul(M).wrapping_add(C7);
    let h4 = h.3 ^ scramble_word(read_word(block, 12), C4, 18, C1);
    let h4 = rotate_left(h4, 13).wrapping_add(h1).wrapping_mul(M).wrapping_add(C8);
    (h1, h2, h3, h4)
}

fn mix_tail_exec(h: Lanes, tail: &[u8]) -> (r: Lanes)
    ensures
        r == mix_tail(h, tail@),
{
    (
        h.0 ^ scramble_word(read_word(tail, 0), C1, 15, C2),
        h.1 ^ scramble_word(read_word(tail, 4), C2, 16, C3),
        h.2 ^ scramble_word(read_word(tail, 8), C3, 17, C4),
        h.3 ^ scramble_word(read_word(tail, 12), C4, 18, C1),
    )
}

fn cross_add_exec(h: Lanes) -> (r: Lanes)
    ensures
        r == cross_add(h),
{
    let h1 = h.0.wrapping_add(h.1).wrapping_add(h.2).wrapping_add(h.3);
    (h1, h.1.wrapping_add(h1), h.2.wrapping_add(h1), h.3.wrapping_add(h1))
}

fn finalize_exec(h: Lanes, len: u32) -> (r: Lanes)
    ensures
        r == finalize(h, len),
{
    let h = cross_add_exec((h.0 ^ len, h.1 ^ len, h.2 ^ len, h.3 ^ len));
    cross_add_exec((fmix32(h.0), fmix32(h.1), fmix32(h.2), fmix32(h.3)))
}

proof fn lemma_length_word_step(n: nat)
    ensures
        length_word(n + 1) == length_word(n).wrapping_add(1),
{
    assert((n + 1) % 0x1_0000_0000 == if n % 0x1_0000_0000 == 0xffff_ffff {
        0
    } else {
        n % 0x1_0000_0000 + 1
    }) by (nonlinear_arith);
}

/// Mixing the first `n` blocks reads only the first `16 * n` bytes.
proof fn lemma_lanes_after_prefix(seed: u32, a: Seq<u8>, b: Seq<u8>, n: nat)
    requires
        16 * n <= a.len() <= b.len(),
        a == b.subrange(0, a.len() as int),
    ensures
        lanes_after(seed, a, n) == lanes_after(seed, b, n),
    decreases n,
{
    if n > 0 {
        lemma_lanes_after_prefix(seed, a, b, (n - 1) as nat);
        assert(a.subrange(16 * (n - 1), 16 * n as int) =~= b.subrange(16 * (n - 1), 16 * n as int));
    }
}

proof fn lemma_low_half(h: Lanes)
    ensures
        lanes_to_u128(h) as u64 == lanes_to_u64(h),
{
    let (h1, h2, h3, h4) = h;
    assert((((h4 as u128) << 96u128) | ((h3 as u128) << 64u128) | ((h2 as u128) << 32u128) | (
    h1 as u128)) as u64 == ((h2 as u64) << 32u64) | (h1 as u64)) by (bit_vector);
}

/// A streaming Murmur3 x86-128 accumulator.
///
/// Bytes given to `write` are mixed block by block; the last partial block
/// waits in `pending` until a digest is taken, so the digest depends only on
/// the concatenation of everything written since the hasher was created or
/// last seeded, never on how it was split into calls.
pub struct Murmur3Hasher {
    h1: u32,
    h2: u32,
    h3: u32,
    h4: u32,
    pending: Vec<u8>,
    length: u32,
    seed_value: Ghost<u32>,
    consumed: Ghost<Seq<u8>>,
}

impl Murmur3Hasher {
    /// The seed the lanes started from.
    pub closed spec fn seed_of(&self) -> u32 {
        self.seed_value@
    }

    /// Every byte written since creation or the last `seed`.
    pub closed spec fn input(&self) -> Seq<u8> {
        self.consumed@
    }

    /// The lanes hold the full blocks of the input, `pending` its remainder.
    pub closed spec fn wf(&self) -> bool {
        let input = self.consumed@;
        let n = full_blocks(input.len());
        &&& self.pending@ == input.subrange(16 * n as int, input.len() as int)
        &&& (self.h1, self.h2, self.h3, self.h4) == lanes_after(self.seed_value@, input, n)
        &&& self.length == length_word(input.len())
    }

    /// A fresh accumulator with seed zero and no input.
    pub fn new() -> (h: Self)
        ensures
            h.wf(),
            h.seed_of() == 0,
            h.input() == Seq::<u8>::empty(),
    {
        let h = Murmur3Hasher {
            h1: 0u32,
            h2: 0u32,
            h3: 0u32,
            h4: 0u32,
            pending: Vec::new(),
            length: 0,
            seed_value: Ghost(0u32),
            consumed: Ghost(Seq::<u8>::empty()),
        };
        assert(h.pending@ =~= Seq::<u8>::empty().subrange(0, 0));
        h
    }

    /// Restarts the accumulator from `seed_value`, dropping all input so far.
    pub fn seed(&mut self, seed_value: u32)
        ensures
            final(self).wf(),
            final(self).seed_of() == seed_value,
            final(self).input() == Seq::<u8>::empty(),
    {
        self.h1 = seed_value;
        self.h2 = seed_value;
        self.h3 = seed_value;
        self.h4 = seed_value;
        self.pending.clear();
        self.length = 0;
        self.seed_value = Ghost(seed_value);
        self.consumed = Ghost(Seq::<u8>::empty());
        assert(self.pending@ =~= Seq::<u8>::empty().subrange(0, 0));
    }

    fn push_byte(&mut self, b: u8)
        requires
            old(self).wf(),
        ensures
            final(self).wf(),
            final(self).seed_of() == old(self).seed_of(),
            final(self).input() == old(self).input().push(b),
    {
        let ghost before = self.consumed@;
        let ghost n = full_blocks(before.len());
        self.pending.push(b);
        self.length = self.length.wrapping_add(1);
        self.consumed = Ghost(before.push(b));
        let ghost after = self.consumed@;
        proof {
            lemma_length_word_step(before.len());
            lemma_lanes_after_prefix(self.seed_value@, before, after, n);
            assert(before =~= after.subrange(0, before.len() as int));
            assert(self.pending@ =~= after.subrange(16 * n as int, after.len() as int));
        }
        if self.pending.len() == BLOCK_LEN {
            let h = mix_block_exec((self.h1, self.h2, self.h3, self.h4), self.pending.as_slice());
            self.h1 = h.0;
            self.h2 = h.1;
            self.h3 = h.2;
            self.h4 = h.3;
            self.pending.clear();
            proof {
                assert(full_blocks(after.len()) == n + 1);
                assert(self.pending@ =~= after.subrange(16 * (n + 1) as int, after.len() as int));
            }
        } else {
            proof {
                assert(full_blocks(after.len()) == n);
            }
        }
    }

    /// Feeds `bytes` to the accumulator.
    pub fn write(&mut self, bytes: &[u8])
        requires
            old(self).wf(),
        ensures
            final(self).wf(),
            final(self).seed_of() == old(self).seed_of(),
            final(self).input() == old(self).input() + bytes@,
    {
        let mut i: usize = 0;
        while i < bytes.len()
            invariant
                self.wf(),
                i <= bytes.len(),
                self.seed_of() == old(self).seed_of(),
                self.input() == old(self).input() + bytes@.subrange(0, i as int),
            decreases bytes.len() - i,
        {
            self.push_byte(bytes[i]);
            i = i + 1;
            assert(self.input() =~= old(self).input() + bytes@.subrange(0, i as int));
        }
        assert(bytes@.subrange(0, i as int) =~= bytes@);
    }

    /// The 128-bit digest of the input so far; the accumulator is unchanged.
    pub fn digest128(&self) -> (r: u128)
        requires
            self.wf(),
        ensures
            r == spec_murmur3_x86_128(self.input(), self.seed_of()),
    {
        let h = mix_tail_exec((self.h1, self.h2, self.h3, self.h4), self.pending.as_slice());
        let h = finalize_exec(h, self.length);
        ((h.3 as u128) << 96u128) | ((h.2 as u128) << 64u128) | ((h.1 as u128) << 32u128) | (
        h.0 as u128)
    }

    /// The 64-bit digest of the input so far: the low half of `digest128`.
    pub fn finish(&self) -> (r: u64)
        requires
            self.wf(),
        ensures
            r == spec_murmur3_x86_64(self.input(), self.seed_of()),
    {
        let x = self.digest128();
        proof {
            lemma_low_half(murmur3_lanes(self.input(), self.seed_of()));
        }
        x as u64
    }
}

impl Default for Murmur3Hasher {
    /// A fresh accumulator with seed zero, as `new`.
    fn default() -> (h: Self)
        ensures
            h.wf(),
            h.seed_of() == 0,
            h.input() == Seq::<u8>::empty(),
    {
        Murmur3Hasher::new()
    }
}

/// The 64-bit Murmur3 digest of `bytes` with seed zero, from a fresh accumulator.
pub fn murmur3_x86_64bit(bytes: &[u8]) -> (r: u64)
    ensures
        r == spec_murmur3_x86_64(bytes@, 0),
{
    let mut h = Murmur3Hasher::new();
    h.write(bytes);
    assert(h.input() =~= bytes@);
    h.finish()
}

/// The input of a fresh accumulator after writing `chunks`, one call each.
pub open spec fn written(chunks: Seq<Seq<u8>>) -> Seq<u8> {
    chunks.fold_left(Seq::<u8>::empty(), |acc: Seq<u8>, c: Seq<u8>| acc + c)
}

proof fn lemma_written_is_flatten(chunks: Seq<Seq<u8>>)
    ensures
        written(chunks) == chunks.flatten(),
    decreases chunks.len(),
{
    if chunks.len() > 0 {
        let init = chunks.drop_last();
        lemma_written_is_flatten(init);
        assert(init.push(chunks.last()) =~= chunks);
        init.lemma_flatten_push(chunks.last());
        assert(written(chunks) =~= chunks.flatten());
    }
}

/// Streaming equivalence: writing a sequence of chunks one call at a time
/// gives the same digests as writing their concatenation in a single call.
pub proof fn lemma_streaming_equivalence(chunks: Seq<Seq<u8>>, seed: u32)
    ensures
        spec_murmur3_x86_64(written(chunks), seed) == spec_murmur3_x86_64(chunks.flatten(), seed),
        spec_murmur3_x86_128(written(chunks), seed) == spec_murmur3_x86_128(chunks.flatten(), seed),
{
    lemma_written_is_flatten(chunks);
}

/// Determinism: two accumulators with the same seed and the same input give
/// the same digests, whatever each held before it was last seeded.
pub proof fn lemma_digest_determined(h: Murmur3Hasher, g: Murmur3Hasher)
    requires
        h.wf(),
        g.wf(),
        h.seed_of() == g.seed_of(),
        h.input() == g.input(),
    ensures
        spec_murmur3_x86_64(h.input(), h.seed_of()) == spec_murmur3_x86_64(g.input(), g.seed_of()),
        spec_murmur3_x86_128(h.input(), h.seed_of()) == spec_murmur3_x86_128(
            g.input(),
            g.seed_of(),
        ),
{
}

} // verus!
