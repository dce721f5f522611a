//! Laws of the filter, proved over the operation models of `filter`.
//!
//! An item is seen by the filter only through its key: its unordered pair of
//! candidate buckets and its fingerprint. Because the alternate-bucket map is
//! an involution, two keys that share a bucket and a fingerprint are equal,
//! so the slots of different keys never mix. The proofs count, for each key,
//! the places that hold its fingerprint (slots of its buckets, and the
//! overflow slot), and show that every operation keeps that count at least
//! the number of present items with that key.
use vstd::prelude::*;

use crate::filter::alt_bucket;
use crate::filter::delete_digest_model;
use crate::filter::digest_candidates;
use crate::filter::empty_view;
use crate::filter::first_empty;
use crate::filter::first_match;
use crate::filter::holds;
use crate::filter::insert_digest_model;
use crate::filter::is_pow2_u32;
use crate::filter::kick_chain;
use crate::filter::lemma_alt_bucket_involutive;
use crate::filter::lemma_pow2_u32_pos;
use crate::filter::lookup_digest_model;
use crate::filter::set_slot;
use crate::filter::try_place;
use crate::filter::victim_matches;
use crate::filter::FilterView;
use crate::filter::MAX_EVICTIONS;

verus! {

/// Candidate buckets in order, and fingerprint.
pub type Key = (u32, u32, u8);

/// The key of fingerprint `g` sitting in bucket `t`.
pub open spec fn key_of(t: u32, g: u8, len: u32) -> Key {
    let a = alt_bucket(t, g, len);
    if t <= a {
        (t, a, g)
    } else {
        (a, t, g)
    }
}

/// The key of the item with digest `d`.
pub open spec fn item_key(d: u64, len: u32) -> Key {
    let (c1, c2, f) = digest_candidates(d, len);
    key_of(c1, f, len)
}

/// A key some item can have in a filter of `len` buckets.
pub open spec fn valid_key(k: Key, len: u32) -> bool {
    &&& k.2 != 0
    &&& k.0 <= k.1 < len
    &&& alt_bucket(k.0, k.2, len) == k.1
}

/// Fingerprint `g` in bucket `t` belongs to key `k`.
pub open spec fn in_class(k: Key, t: u32, g: u8) -> bool {
    k.2 == g && (k.0 == t || k.1 == t)
}

pub open spec fn indicator(b: bool) -> nat {
    if b {
        1
    } else {
        0
    }
}

/// Slots of a bucket that hold `g`.
pub open spec fn slot_count(bucket: Seq<u8>, g: u8) -> nat {
    indicator(bucket[0] == g) + indicator(bucket[1] == g) + indicator(bucket[2] == g) + indicator(
        bucket[3] == g,
    )
}

/// Slots of the key's buckets that hold its fingerprint.
pub open spec fn bucket_places(buckets: Seq<Seq<u8>>, k: Key) -> nat {
    slot_count(buckets[k.0 as int], k.2) + if k.1 != k.0 {
        slot_count(buckets[k.1 as int], k.2)
    } else {
        0
    }
}

/// One if the overflow slot holds the key's fingerprint for one of its buckets.
pub open spec fn victim_places(victim: Option<(u32, u8)>, k: Key) -> nat {
    match victim {
        Some((i, g)) => indicator(in_class(k, i, g)),
        None => 0,
    }
}

/// The places in the filter that hold the fingerprint of key `k`.
pub open spec fn occurrences(v: FilterView, k: Key) -> nat {
    bucket_places(v.buckets, k) + victim_places(v.victim, k)
}

/// How many of the digests in `present` have key `k`.
pub open spec fn key_count(present: Seq<u64>, k: Key, len: u32) -> nat
    decreases present.len(),
{
    if present.len() == 0 {
        0
    } else {
        key_count(present.drop_last(), k, len) + indicator(item_key(present.last(), len) == k)
    }
}

/// Every key has at least as many places as present items.
pub open spec fn placed(v: FilterView, present: Seq<u64>) -> bool {
    forall|k: Key|
        valid_key(k, v.len()) ==> #[trigger] key_count(present, k, v.len()) <= occurrences(v, k)
}

pub open spec fn buckets_wf(buckets: Seq<Seq<u8>>, len: u32) -> bool {
    &&& buckets.len() == len
    &&& forall|i: int| 0 <= i < buckets.len() ==> (#[trigger] buckets[i]).len() == 4
}

proof fn lemma_key_of_valid(t: u32, g: u8, len: u32)
    requires
        is_pow2_u32(len as nat),
        t < len,
        g != 0,
    ensures
        valid_key(key_of(t, g, len), len),
        in_class(key_of(t, g, len), t, g),
{
    lemma_pow2_u32_pos(len as nat);
    lemma_alt_bucket_involutive(t, g, len);
}

/// For a valid key, holding bucket `t` and fingerprint `g` is being the key
/// of `g` in `t`.
proof fn lemma_in_class_unique(k: Key, t: u32, g: u8, len: u32)
    requires
        is_pow2_u32(len as nat),
        valid_key(k, len),
        t < len,
        g != 0,
    ensures
        in_class(k, t, g) <==> k == key_of(t, g, len),
{
    lemma_key_of_valid(t, g, len);
    lemma_alt_bucket_involutive(k.0, k.2, len);
}

/// A valid key holds `g` in bucket `t` exactly when it holds it in the
/// alternate bucket.
proof fn lemma_in_class_alt(k: Key, t: u32, g: u8, len: u32)
    requires
        is_pow2_u32(len as nat),
        valid_key(k, len),
        t < len,
    ensures
        in_class(k, alt_bucket(t, g, len), g) == in_class(k, t, g),
{
    lemma_pow2_u32_pos(len as nat);
    if g != 0 {
        let a = alt_bucket(t, g, len);
        lemma_alt_bucket_involutive(t, g, len);
        lemma_in_class_unique(k, t, g, len);
        lemma_in_class_unique(k, a, g, len);
        assert(key_of(a, g, len) == key_of(t, g, len));
    }
}

proof fn lemma_slot_count_update(bucket: Seq<u8>, s: int, c: u8, g: u8)
    requires
        bucket.len() == 4,
        0 <= s < 4,
    ensures
        slot_count(bucket.update(s, c), g) + indicator(bucket[s] == g) == slot_count(bucket, g)
            + indicator(c == g),
{
}

/// Setting one slot moves one place from the key of the old fingerprint to
/// the key of the new one.
proof fn lemma_set_slot_places(buckets: Seq<Seq<u8>>, len: u32, t: u32, s: int, c: u8, k: Key)
    requires
        buckets_wf(buckets, len),
        valid_key(k, len),
        t < len,
        0 <= s < 4,
    ensures
        bucket_places(set_slot(buckets, t as int, s, c), k) + indicator(
            in_class(k, t, buckets[t as int][s]),
        ) == bucket_places(buckets, k) + indicator(in_class(k, t, c)),
{
    lemma_slot_count_update(buckets[t as int], s, c, k.2);
}

proof fn lemma_set_slot_wf(buckets: Seq<Seq<u8>>, len: u32, t: u32, s: int, c: u8)
    requires
        buckets_wf(buckets, len),
        t < len,
        0 <= s < 4,
    ensures
        buckets_wf(set_slot(buckets, t as int, s, c), len),
{
    let b2 = set_slot(buckets, t as int, s, c);
    assert forall|i: int| 0 <= i < b2.len() implies (#[trigger] b2[i]).len() == 4 by {}
}

/// A full bucket: no slot is empty.
proof fn lemma_full_bucket(bucket: Seq<u8>)
    requires
        bucket.len() == 4,
        first_empty(bucket) == 4,
    ensures
        forall|s: int| 0 <= s < 4 ==> bucket[s] != 0,
{
}

/// The eviction chain loses no place: with the carried fingerprint counted
/// as a place of its key, every key keeps at least as many places as present
/// items, and what is left over lands in the overflow slot.
proof fn lemma_chain_keeps_places(
    buckets: Seq<Seq<u8>>,
    len: u32,
    target: u32,
    carried: u8,
    kick: nat,
    present: Seq<u64>,
)
    requires
        is_pow2_u32(len as nat),
        buckets_wf(buckets, len),
        target < len,
        carried != 0,
        kick <= MAX_EVICTIONS,
        kick == 0 ==> try_place(buckets, target, carried) is None,
        forall|k: Key|
            valid_key(k, len) ==> #[trigger] key_count(present, k, len) <= bucket_places(buckets, k)
                + indicator(in_class(k, target, carried)),
    ensures
        ({
            let (b2, left) = kick_chain(buckets, len, target, carried, kick);
            &&& buckets_wf(b2, len)
            &&& forall|k: Key|
                valid_key(k, len) ==> #[trigger] key_count(present, k, len) <= bucket_places(b2, k)
                    + victim_places(left, k)
        }),
    decreases MAX_EVICTIONS - kick,
{
    lemma_pow2_u32_pos(len as nat);
    if kick >= MAX_EVICTIONS {
    } else if kick > 0 && try_place(buckets, target, carried) is Some {
        let s = first_empty(buckets[target as int]);
        assert forall|k: Key| valid_key(k, len) implies #[trigger] key_count(present, k, len)
            <= bucket_places(try_place(buckets, target, carried)->0, k) + victim_places(None, k) by {
            lemma_set_slot_places(buckets, len, target, s, carried, k);
        }
        lemma_set_slot_wf(buckets, len, target, s, carried);
    } else {
        let slot = (target % 4) as int;
        let evicted = buckets[target as int][slot];
        let b1 = set_slot(buckets, target as int, slot, carried);
        let next = alt_bucket(target, evicted, len);
        lemma_full_bucket(buckets[target as int]);
        assert forall|k: Key| valid_key(k, len) implies #[trigger] key_count(present, k, len)
            <= bucket_places(b1, k) + indicator(in_class(k, next, evicted)) by {
            lemma_set_slot_places(buckets, len, target, slot, carried, k);
            lemma_in_class_alt(k, target, evicted, len);
        }
        lemma_set_slot_wf(buckets, len, target, slot, carried);
        lemma_chain_keeps_places(b1, len, next, evicted, kick + 1, present);
    }
}

proof fn lemma_view_buckets_wf(v: FilterView)
    requires
        v.wf(),
    ensures
        buckets_wf(v.buckets, v.len()),
        is_pow2_u32(v.len() as nat),
        v.len() > 0,
{
    lemma_pow2_u32_pos(v.buckets.len());
}

/// The candidates of a digest are in range, with a nonzero fingerprint.
proof fn lemma_candidates(d: u64, len: u32)
    requires
        is_pow2_u32(len as nat),
    ensures
        ({
            let (c1, c2, f) = digest_candidates(d, len);
            &&& c1 < len && c2 < len && f != 0
            &&& valid_key(item_key(d, len), len)
        }),
{
    let (c1, c2, f) = digest_candidates(d, len);
    lemma_pow2_u32_pos(len as nat);
    lemma_key_of_valid(c1, f, len);
}

/// The key of a digest holds its fingerprint in exactly its two candidate
/// buckets.
proof fn lemma_item_key(d: u64, len: u32, k: Key)
    requires
        is_pow2_u32(len as nat),
        valid_key(k, len),
    ensures
        ({
            let (c1, c2, f) = digest_candidates(d, len);
            &&& c1 < len && c2 < len && f != 0
            &&& valid_key(item_key(d, len), len)
            &&& (item_key(d, len) == k <==> in_class(k, c1, f))
            &&& (item_key(d, len) == k <==> in_class(k, c2, f))
        }),
{
    let (c1, c2, f) = digest_candidates(d, len);
    lemma_pow2_u32_pos(len as nat);
    lemma_key_of_valid(c1, f, len);
    lemma_in_class_unique(k, c1, f, len);
    lemma_in_class_alt(k, c1, f, len);
}

proof fn lemma_key_count_push(present: Seq<u64>, d: u64, k: Key, len: u32)
    ensures
        key_count(present.push(d), k, len) == key_count(present, k, len) + indicator(
            item_key(d, len) == k,
        ),
{
    assert(present.push(d).drop_last() =~= present);
}

proof fn lemma_key_count_remove(present: Seq<u64>, i: int, k: Key, len: u32)
    requires
        0 <= i < present.len(),
    ensures
        key_count(present.remove(i), k, len) + indicator(item_key(present[i], len) == k)
            == key_count(present, k, len),
    decreases present.len(),
{
    if i == present.len() - 1 {
        assert(present.remove(i) =~= present.drop_last());
    } else {
        let shorter = present.drop_last();
        lemma_key_count_remove(shorter, i, k, len);
        assert(present.remove(i).drop_last() =~= shorter.remove(i));
        assert(present.remove(i).last() == present.last());
    }
}

proof fn lemma_key_count_contains(present: Seq<u64>, d: u64, len: u32)
    requires
        present.contains(d),
    ensures
        key_count(present, item_key(d, len), len) >= 1,
    decreases present.len(),
{
    if present.last() != d {
        let i = choose|i: int| 0 <= i < present.len() && present[i] == d;
        assert(present.drop_last()[i] == d);
        lemma_key_count_contains(present.drop_last(), d, len);
    }
}

/// A lookup answers yes exactly when some place holds the item's key.
pub proof fn lemma_lookup_iff_occurs(v: FilterView, d: u64)
    requires
        v.wf(),
    ensures
        lookup_digest_model(v, d) <==> occurrences(v, item_key(d, v.len())) > 0,
{
    let len = v.len();
    lemma_view_buckets_wf(v);
    let (c1, c2, f) = digest_candidates(d, len);
    let k = item_key(d, len);
    lemma_key_of_valid(c1, f, len);
    lemma_item_key(d, len, k);
    lemma_alt_bucket_involutive(c1, f, len);
    assert(k.0 == c1 || k.0 == c2);
    assert(k.1 == c1 || k.1 == c2);
    match v.victim {
        Some((i, g)) => {
            lemma_item_key(d, len, k);
            if g == f && (i == c1 || i == c2) {
                assert(in_class(k, i, g));
            }
        },
        None => {},
    }
}

/// Inserting keeps every present item placed, and places the new one when
/// the insert succeeds.
proof fn lemma_insert_keeps_placed(v: FilterView, present: Seq<u64>, d: u64)
    requires
        v.wf(),
        placed(v, present),
    ensures
        ({
            let (v2, r) = insert_digest_model(v, d);
            &&& v2.wf()
            &&& v2.len() == v.len()
            &&& placed(
                v2,
                if r is Ok {
                    present.push(d)
                } else {
                    present
                },
            )
        }),
{
    let len = v.len();
    lemma_view_buckets_wf(v);
    let (c1, c2, f) = digest_candidates(d, len);
    let grown = present.push(d);
    lemma_candidates(d, len);
    if v.victim is Some {
    } else {
        let (v2, r) = insert_digest_model(v, d);
        assert forall|k: Key| valid_key(k, len) implies #[trigger] key_count(grown, k, len)
            <= bucket_places(v.buckets, k) + indicator(in_class(k, c1, f)) && key_count(
            grown,
            k,
            len,
        ) <= bucket_places(v.buckets, k) + indicator(in_class(k, c2, f)) by {
            lemma_key_count_push(present, d, k, len);
            lemma_item_key(d, len, k);
        }
        if try_place(v.buckets, c1, f) is Some {
            let s = first_empty(v.buckets[c1 as int]);
            lemma_set_slot_wf(v.buckets, len, c1, s, f);
            assert forall|k: Key| valid_key(k, len) implies #[trigger] key_count(grown, k, len)
                <= occurrences(v2, k) by {
                lemma_set_slot_places(v.buckets, len, c1, s, f, k);
            }
        } else if try_place(v.buckets, c2, f) is Some {
            let s = first_empty(v.buckets[c2 as int]);
            lemma_set_slot_wf(v.buckets, len, c2, s, f);
            assert forall|k: Key| valid_key(k, len) implies #[trigger] key_count(grown, k, len)
                <= occurrences(v2, k) by {
                lemma_set_slot_places(v.buckets, len, c2, s, f, k);
            }
        } else {
            let start = if f % 2 == 0 {
                c1
            } else {
                c2
            };
            lemma_chain_keeps_places(v.buckets, len, start, f, 0, grown);
            assert forall|k: Key| valid_key(k, len) implies #[trigger] key_count(present, k, len)
                <= key_count(grown, k, len) by {
                lemma_key_count_push(present, d, k, len);
            }
        }
    }
}

/// A delete of an item whose key has a place succeeds and takes exactly one
/// place from that key, and none from any other.
proof fn lemma_delete_takes_one(v: FilterView, d: u64)
    requires
        v.wf(),
        occurrences(v, item_key(d, v.len())) > 0,
    ensures
        ({
            let (v2, r) = delete_digest_model(v, d);
            &&& r is Ok
            &&& v2.wf()
            &&& v2.len() == v.len()
            &&& forall|k: Key|
                valid_key(k, v.len()) ==> #[trigger] occurrences(v2, k) + indicator(
                    k == item_key(d, v.len()),
                ) == occurrences(v, k)
        }),
{
    let len = v.len();
    lemma_view_buckets_wf(v);
    lemma_candidates(d, len);
    lemma_lookup_iff_occurs(v, d);
    let (c1, c2, f) = digest_candidates(d, len);
    let k0 = item_key(d, len);
    let (v2, r) = delete_digest_model(v, d);
    if victim_matches(v, c1, c2, f) {
        assert forall|k: Key| valid_key(k, len) implies #[trigger] occurrences(v2, k) + indicator(
            k == k0,
        ) == occurrences(v, k) by {
            lemma_item_key(d, len, k);
        }
    } else if holds(v.buckets[c1 as int], f) {
        let s = first_match(v.buckets[c1 as int], f);
        lemma_set_slot_wf(v.buckets, len, c1, s, 0);
        assert forall|k: Key| valid_key(k, len) implies #[trigger] occurrences(v2, k) + indicator(
            k == k0,
        ) == occurrences(v, k) by {
            lemma_item_key(d, len, k);
            lemma_set_slot_places(v.buckets, len, c1, s, 0, k);
        }
    } else {
        let s = first_match(v.buckets[c2 as int], f);
        lemma_set_slot_wf(v.buckets, len, c2, s, 0);
        assert forall|k: Key| valid_key(k, len) implies #[trigger] occurrences(v2, k) + indicator(
            k == k0,
        ) == occurrences(v, k) by {
            lemma_item_key(d, len, k);
            lemma_set_slot_places(v.buckets, len, c2, s, 0, k);
        }
    }
}

/// Deleting a present item succeeds and keeps the others placed.
proof fn lemma_delete_keeps_placed(v: FilterView, present: Seq<u64>, d: u64)
    requires
        v.wf(),
        placed(v, present),
        present.contains(d),
    ensures
        ({
            let (v2, r) = delete_digest_model(v, d);
            &&& r is Ok
            &&& v2.wf()
            &&& v2.len() == v.len()
            &&& placed(v2, present.remove(present.index_of(d)))
        }),
{
    let len = v.len();
    lemma_view_buckets_wf(v);
    lemma_candidates(d, len);
    lemma_key_count_contains(present, d, len);
    lemma_delete_takes_one(v, d);
    let (v2, r) = delete_digest_model(v, d);
    let i = present.index_of(d);
    assert forall|k: Key| valid_key(k, len) implies #[trigger] key_count(
        present.remove(i),
        k,
        len,
    ) <= occurrences(v2, k) by {
        lemma_key_count_remove(present, i, k, len);
    }
}

/// Operations on the filter, each naming an item by its digest.
pub enum Op {
    Insert(u64),
    Delete(u64),
}

/// Runs `ops` from state `v` with `present` the items inserted with success
/// and not deleted since: the final state and present items, or `None` when
/// some delete names an item that is not present at that point.
pub open spec fn replay(v: FilterView, present: Seq<u64>, ops: Seq<Op>) -> Option<
    (FilterView, Seq<u64>),
>
    decreases ops.len(),
{
    if ops.len() == 0 {
        Some((v, present))
    } else {
        match ops[0] {
            Op::Insert(d) => {
                let (v2, r) = insert_digest_model(v, d);
                replay(
                    v2,
                    if r is Ok {
                        present.push(d)
                    } else {
                        present
                    },
                    ops.drop_first(),
                )
            },
            Op::Delete(d) => {
                if present.contains(d) {
                    replay(
                        delete_digest_model(v, d).0,
                        present.remove(present.index_of(d)),
                        ops.drop_first(),
                    )
                } else {
                    None
                }
            },
        }
    }
}

proof fn lemma_replay_keeps_placed(v: FilterView, present: Seq<u64>, ops: Seq<Op>)
    requires
        v.wf(),
        placed(v, present),
        replay(v, present, ops) is Some,
    ensures
        ({
            let (v2, kept) = replay(v, present, ops)->0;
            v2.wf() && placed(v2, kept)
        }),
    decreases ops.len(),
{
    if ops.len() > 0 {
        match ops[0] {
            Op::Insert(d) => {
                lemma_insert_keeps_placed(v, present, d);
                let (v2, r) = insert_digest_model(v, d);
                lemma_replay_keeps_placed(
                    v2,
                    if r is Ok {
                        present.push(d)
                    } else {
                        present
                    },
                    ops.drop_first(),
                );
            },
            Op::Delete(d) => {
                lemma_delete_keeps_placed(v, present, d);
                lemma_replay_keeps_placed(
                    delete_digest_model(v, d).0,
                    present.remove(present.index_of(d)),
                    ops.drop_first(),
                );
            },
        }
    }
}

/// No false negatives: start from an empty filter of a power-of-two number of
/// buckets and run any inserts, and deletes of items present at the time.
/// Every item whose insert succeeded and that has not been deleted since is
/// found by a lookup, also once the filter has become full.
pub proof fn lemma_no_false_negatives(n: nat, ops: Seq<Op>, d: u64)
    requires
        is_pow2_u32(n),
        replay(empty_view(n), Seq::empty(), ops) is Some,
    ensures
        ({
            let (v, present) = replay(empty_view(n), Seq::empty(), ops)->0;
            present.contains(d) ==> lookup_digest_model(v, d)
        }),
{
    let v0 = empty_view(n);
    assert forall|i: int| 0 <= i < v0.buckets.len() implies (#[trigger] v0.buckets[i]).len()
        == 4 by {}
    assert forall|k: Key| valid_key(k, v0.len()) implies #[trigger] key_count(
        Seq::<u64>::empty(),
        k,
        v0.len(),
    ) <= occurrences(v0, k) by {}
    lemma_replay_keeps_placed(v0, Seq::empty(), ops);
    let (v, present) = replay(v0, Seq::empty(), ops)->0;
    if present.contains(d) {
        lemma_view_buckets_wf(v);
        lemma_key_count_contains(present, d, v.len());
        lemma_candidates(d, v.len());
        lemma_lookup_iff_occurs(v, d);
    }
}

/// Delete then lookup: deleting an item whose fingerprint had a single place
/// among its candidate buckets and the overflow slot succeeds, and a lookup
/// then answers no. Where another slot also held it (an item sharing the
/// fingerprint and buckets), the lookup still answers yes.
pub proof fn lemma_delete_then_lookup(v: FilterView, d: u64)
    requires
        v.wf(),
        occurrences(v, item_key(d, v.len())) == 1,
    ensures
        delete_digest_model(v, d).1 is Ok,
        !lookup_digest_model(delete_digest_model(v, d).0, d),
{
    lemma_view_buckets_wf(v);
    lemma_candidates(d, v.len());
    lemma_delete_takes_one(v, d);
    let v2 = delete_digest_model(v, d).0;
    lemma_lookup_iff_occurs(v2, d);
}

} // verus!
