use cuckoo_filter::murmur3_x86_64bit;
use cuckoo_filter::CuckooFilter;
use cuckoo_filter::CuckooFilterError;
use cuckoo_filter::Murmur3Hasher;
use cuckoo_filter::ITEM_LIMIT;
use rand::Rng;
use rand::SeedableRng;
use rand_chacha::ChaCha8Rng;

fn get_random_string(rng: &mut ChaCha8Rng, len: usize) -> String {
    rng.sample_iter::<char, _>(&rand::distributions::Standard)
        .take(len)
        .map(char::from)
        .collect()
}

#[test]
fn make_filter_normal_conditions() {
    let filter = CuckooFilter::<Murmur3Hasher>::new(128, false);
    assert!(filter.is_ok());
    let cf = filter.unwrap();
    assert_eq!(cf.bucket_count(), 128 / 4);
    assert_eq!(128 / 4, cf.estimate_size() as u32 / 4);
}

#[test]
fn make_filter_item_limit_boundary() {
    let filter = CuckooFilter::<Murmur3Hasher>::new(ITEM_LIMIT as usize, false);
    assert!(filter.is_ok());
    drop(filter);
    let filter2 = CuckooFilter::<Murmur3Hasher>::new(ITEM_LIMIT as usize + 1, false);
    assert!(filter2.is_err());
    assert_eq!(
        CuckooFilterError::CapacityExceedsItemLimit,
        filter2.err().unwrap()
    );
}

#[test]
fn check_size() {
    let filter = CuckooFilter::<Murmur3Hasher>::new(128, false);
    let cf = filter.unwrap();
    assert_eq!(cf.estimate_size(), 128);
}

#[test]
fn check_bucket_equivalence() {
    let filter = CuckooFilter::<Murmur3Hasher>::new(1, false);
    let cf = filter.unwrap();
    let (b1, b2, f) = cf.digest_to_buckets(murmur3_x86_64bit("test".as_bytes()));
    let b2alt = cf.bucket_from_evicted(b1, f);
    let b1alt = cf.bucket_from_evicted(b2, f);
    assert_eq!(b1, b1alt);
    assert_eq!(b2, b2alt);
}

#[test]
fn insert_bytes() {
    let filter = CuckooFilter::<Murmur3Hasher>::new(128, false);
    let mut cf = filter.unwrap();
    let r = cf.insert(&[1, 2, 3, 4, 5]);
    assert!(r.is_ok());
}

#[test]
fn insert_number() {
    let filter = CuckooFilter::<Murmur3Hasher>::new(128, false);
    let mut cf = filter.unwrap();
    let r = cf.insert(&19384i32.to_ne_bytes());
    assert!(r.is_ok());
}

#[test]
fn insert_string() {
    let filter = CuckooFilter::<Murmur3Hasher>::new(128, false);
    let mut cf = filter.unwrap();
    let r = cf.insert("hello".as_bytes());
    assert!(r.is_ok());
}

#[test]
fn retrieve_item() {
    let filter = CuckooFilter::<Murmur3Hasher>::new(128, false);
    let mut cf = filter.unwrap();
    let item = [1u8, 2, 3, 4, 5];
    let r = cf.insert(&item);
    assert!(r.is_ok());
    let is_found = cf.lookup(&item);
    assert!(is_found);
}

#[test]
fn delete_item() {
    let filter = CuckooFilter::<Murmur3Hasher>::new(128, false);
    let mut cf = filter.unwrap();
    let item = [1u8, 2, 3, 4, 5];
    let r = cf.insert(&item);
    assert!(r.is_ok());
    let is_found = cf.lookup(&item);
    assert!(is_found);
    let d = cf.delete(&item);
    assert!(d.is_ok());
    // Check that the item is no longer present
    assert!(!cf.lookup(&item));
}

#[test]
fn load_test_ten_thousand_str() {
    const SIZE: usize = 10_000;
    let mut rng = ChaCha8Rng::seed_from_u64(42);
    let maybe_filter = CuckooFilter::<Murmur3Hasher>::new(SIZE, false);
    let mut filter = maybe_filter.unwrap();
    let mut success_count: usize = 0;
    let mut cache: Vec<String> = Vec::with_capacity(SIZE);

    for i in 0..SIZE {
        let random_string = get_random_string(&mut rng, (i % 12) + 1);
        let r = filter.insert(random_string.as_bytes());
        if r.is_ok() {
            success_count += 1;
            assert!(filter.lookup(random_string.as_bytes()));
            cache.push(random_string);
        }
    }

    println!("successes: {success_count} / trials: {SIZE}");
    assert!((success_count as f32 / SIZE as f32) > 0.95f32);
    assert_eq!(cache.len(), success_count);

    let mut check_count: usize = 0;
    for i in cache.iter() {
        if filter.lookup(i.as_bytes()) {
            check_count += 1;
        }
    }
    println!("checks: {check_count} / trials: {SIZE}");
    assert_eq!(check_count, cache.len());
}

#[test]
fn load_test_ten_thousand_str_stateless() {
    const SIZE: usize = 10_000;
    let mut rng = ChaCha8Rng::seed_from_u64(42);
    let maybe_filter = CuckooFilter::<Murmur3Hasher>::new(SIZE, false);
    let mut filter = maybe_filter.unwrap();
    let mut success_count: usize = 0;
    let mut cache: Vec<String> = Vec::with_capacity(SIZE);

    for i in 0..SIZE {
        let random_string = get_random_string(&mut rng, (i % 12) + 1);
        let r = filter.insert_stateless(random_string.as_bytes(), murmur3_x86_64bit);
        if r.is_ok() {
            success_count += 1;
            assert!(filter.lookup_stateless(random_string.as_bytes(), murmur3_x86_64bit));
            cache.push(random_string);
        }
    }

    println!("successes: {success_count} / trials: {SIZE}");
    assert!((success_count as f32 / SIZE as f32) > 0.95f32);
    assert_eq!(cache.len(), success_count);

    let mut check_count: usize = 0;
    for (index, i) in cache.iter().enumerate() {
        if filter.lookup_stateless(i.as_bytes(), murmur3_x86_64bit) {
            check_count += 1;
        } else {
            println!("{index}th item not found");
        }
    }
    println!("checks: {check_count} / trials: {SIZE}");
    assert_eq!(check_count, cache.len());
}
