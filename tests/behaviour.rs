use cuckoo_filter::hash_djb2;
use cuckoo_filter::murmur3_x86_64bit;
use cuckoo_filter::CuckooFilter;
use cuckoo_filter::CuckooFilterError;
use cuckoo_filter::Murmur3Hasher;

fn djb2_digest(bytes: &[u8]) -> u64 {
    hash_djb2(bytes) as u64
}

#[test]
fn scenario_insert_lookup_delete() {
    let mut cf = CuckooFilter::<Murmur3Hasher>::new(128, false).unwrap();
    assert_eq!(cf.bucket_count(), 32);
    assert_eq!(cf.insert(&[1, 2, 3, 4, 5]), Ok(()));
    assert!(cf.lookup(&[1, 2, 3, 4, 5]));
    assert_eq!(cf.delete(&[1, 2, 3, 4, 5]), Ok(()));
    assert!(!cf.lookup(&[1, 2, 3, 4, 5]));
}

#[test]
fn bucket_count_rounds_up_to_power_of_two() {
    let expected: [(usize, u32); 9] = [
        (0, 1),
        (3, 1),
        (4, 1),
        (5, 1),
        (9, 2),
        (17, 4),
        (20, 8),
        (128, 32),
        (10000, 4096),
    ];
    for (max_items, buckets) in expected.iter() {
        let cf = CuckooFilter::<Murmur3Hasher>::new(*max_items, false).unwrap();
        assert_eq!(cf.bucket_count(), *buckets);
        assert_eq!(cf.estimate_size(), 4 * *buckets as usize);
        assert!(!cf.is_full());
    }
}

#[test]
fn capacity_above_limit_is_refused_even_with_eager_check_off() {
    let r = CuckooFilter::<Murmur3Hasher>::new(usize::MAX, false);
    assert_eq!(r.err(), Some(CuckooFilterError::CapacityExceedsItemLimit));
}

#[test]
fn new_with_eager_check_within_limit() {
    let cf = CuckooFilter::<Murmur3Hasher>::new(64, true).unwrap();
    assert_eq!(cf.bucket_count(), 16);
}

#[test]
fn digest_to_buckets_exact_values() {
    let cf = CuckooFilter::<Murmur3Hasher>::new(128, false).unwrap();
    assert_eq!(cf.digest_to_buckets(0xabcd_1234_0000_0007), (7, 3, 0x34));
    assert_eq!(cf.bucket_from_evicted(7, 0x34), 3);
    assert_eq!(cf.bucket_from_evicted(3, 0x34), 7);
}

#[test]
fn digest_with_zero_fingerprint_byte_gets_one() {
    let cf = CuckooFilter::<Murmur3Hasher>::new(128, false).unwrap();
    assert_eq!(cf.digest_to_buckets(0x0000_0100_0000_0005), (5, 16, 1));
}

#[test]
fn bucket_reversibility_on_many_digests() {
    let cf = CuckooFilter::<Murmur3Hasher>::new(1 << 20, false).unwrap();
    for i in 0u32..2000 {
        let digest = murmur3_x86_64bit(&i.to_le_bytes());
        let (b1, b2, f) = cf.digest_to_buckets(digest);
        assert!(f != 0);
        assert!(b1 < cf.bucket_count() && b2 < cf.bucket_count());
        assert_eq!(cf.bucket_from_evicted(b1, f), b2);
        assert_eq!(cf.bucket_from_evicted(b2, f), b1);
    }
}

#[test]
fn delete_of_absent_item_fails() {
    let mut cf = CuckooFilter::<Murmur3Hasher>::new(128, false).unwrap();
    assert_eq!(
        cf.delete(b"never inserted"),
        Err(CuckooFilterError::ItemDoesNotExist)
    );
    assert_eq!(cf.insert(b"present"), Ok(()));
    assert_eq!(cf.delete(b"present"), Ok(()));
    assert_eq!(
        cf.delete(b"present"),
        Err(CuckooFilterError::ItemDoesNotExist)
    );
}

#[test]
fn equal_items_are_counted_twice() {
    let mut cf = CuckooFilter::<Murmur3Hasher>::new(128, false).unwrap();
    assert_eq!(cf.insert(b"twin"), Ok(()));
    assert_eq!(cf.insert(b"twin"), Ok(()));
    assert_eq!(cf.delete(b"twin"), Ok(()));
    assert!(cf.lookup(b"twin"));
    assert_eq!(cf.delete(b"twin"), Ok(()));
    assert!(!cf.lookup(b"twin"));
}

#[test]
fn full_filter_keeps_every_inserted_item() {
    // One bucket of four slots: the fifth fingerprint cannot be placed.
    let mut cf = CuckooFilter::<Murmur3Hasher>::new(4, false).unwrap();
    assert_eq!(cf.bucket_count(), 1);
    let mut inserted: Vec<[u8; 4]> = Vec::new();
    let mut i: u32 = 0;
    while !cf.is_full() {
        let item = i.to_le_bytes();
        match cf.insert(&item) {
            Ok(()) => inserted.push(item),
            Err(e) => assert_eq!(e, CuckooFilterError::OutOfSpace),
        }
        i += 1;
    }
    assert_eq!(inserted.len(), 4);
    assert!(cf.is_full());
    for item in inserted.iter() {
        assert!(cf.lookup(item));
    }
    // Once full, every insert is refused and nothing changes.
    assert_eq!(cf.insert(b"late"), Err(CuckooFilterError::OutOfSpace));
    for item in inserted.iter() {
        assert!(cf.lookup(item));
    }
}

#[test]
fn deleting_from_a_full_filter() {
    let mut cf = CuckooFilter::<Murmur3Hasher>::new(4, false).unwrap();
    let mut inserted: Vec<[u8; 4]> = Vec::new();
    let mut i: u32 = 0;
    while !cf.is_full() {
        let item = i.to_le_bytes();
        if cf.insert(&item).is_ok() {
            inserted.push(item);
        }
        i += 1;
    }
    for item in inserted.iter() {
        assert_eq!(cf.delete(item), Ok(()));
    }
}

#[test]
fn digest_operations_agree_with_item_operations() {
    let mut cf = CuckooFilter::<Murmur3Hasher>::new(256, false).unwrap();
    let digest = murmur3_x86_64bit(b"apple");
    assert_eq!(cf.insert_digest(digest), Ok(()));
    assert!(cf.lookup(b"apple"));
    assert!(cf.lookup_digest(digest));
    assert_eq!(cf.delete(b"apple"), Ok(()));
    assert!(!cf.lookup_digest(digest));
    assert_eq!(
        cf.delete_digest(digest),
        Err(CuckooFilterError::ItemDoesNotExist)
    );
}

#[test]
fn stateless_operations_with_another_hash() {
    let mut cf = CuckooFilter::<Murmur3Hasher>::new(256, false).unwrap();
    assert_eq!(cf.insert_stateless(b"pear", djb2_digest), Ok(()));
    assert!(cf.lookup_stateless(b"pear", djb2_digest));
    assert!(cf.lookup_digest(hash_djb2(b"pear") as u64));
    assert_eq!(cf.delete_stateless(b"pear", djb2_digest), Ok(()));
    assert!(!cf.lookup_stateless(b"pear", djb2_digest));
    assert_eq!(
        cf.delete_stateless(b"pear", djb2_digest),
        Err(CuckooFilterError::ItemDoesNotExist)
    );
}

#[test]
fn load_test_many_distinct_items() {
    const SIZE: usize = 20_000;
    let mut cf = CuckooFilter::<Murmur3Hasher>::new(SIZE, false).unwrap();
    let mut ok: Vec<u32> = Vec::new();
    for i in 0..SIZE as u32 {
        if cf.insert(&i.to_le_bytes()).is_ok() {
            ok.push(i);
        }
    }
    assert!(ok.len() * 100 >= SIZE * 95);
    for i in ok.iter() {
        assert!(cf.lookup(&i.to_le_bytes()));
    }
}
