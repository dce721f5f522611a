use cuckoo_filter::byte_fingerprint_long;
use cuckoo_filter::byte_fingerprint_short;
use cuckoo_filter::hash_djb2;
use rand::Rng;
use rand::SeedableRng;
use rand_chacha::ChaCha8Rng;
use std::collections::HashSet;

const NUM_SAMPLES: usize = 10000;
const ACCEPTABLE_COLLISION_RATE: f32 = 0.01;

fn get_random_string(rng: &mut ChaCha8Rng, len: usize) -> String {
    rng.sample_iter::<char, _>(&rand::distributions::Standard)
        .take(len)
        .map(char::from)
        .collect()
}

#[test]
fn basic_hash_test_djb2() {
    let a = hash_djb2("cat".as_bytes());
    let b = hash_djb2("dog".as_bytes());
    assert_ne!(a, b);
}

#[test]
fn collision_rate_dbj2() {
    let mut rng = ChaCha8Rng::seed_from_u64(42);
    let mut input_set: HashSet<String> = HashSet::with_capacity(NUM_SAMPLES);
    let mut output_set: HashSet<u32> = HashSet::with_capacity(NUM_SAMPLES);
    for i in 0..NUM_SAMPLES {
        let random_string = get_random_string(&mut rng, i % 12);
        _ = input_set.insert(random_string.clone());
        _ = output_set.insert(hash_djb2(random_string.as_bytes()));
    }
    println!("inputs {}, outputs {}", input_set.len(), output_set.len());
    assert!(
        input_set.len() - output_set.len()
            < (ACCEPTABLE_COLLISION_RATE * NUM_SAMPLES as f32) as usize
    );
}

#[test]
fn djb2_known_values() {
    assert_eq!(hash_djb2(&[]), 5381);
    assert_eq!(hash_djb2(b"a"), 177604);
    assert_eq!(hash_djb2(b"cat"), 193416115);
    assert_eq!(hash_djb2(b"hello"), 178056679);
}

#[test]
fn fingerprint_is_low_byte() {
    assert_eq!(byte_fingerprint_long(5), 5);
    assert_eq!(byte_fingerprint_long(0x1ff), 0xff);
    assert_eq!(byte_fingerprint_long(0xabcd_1234), 0x34);
    assert_eq!(byte_fingerprint_short(0xabcd_1234), 0x34u8);
}

#[test]
fn fingerprint_zero_becomes_one() {
    assert_eq!(byte_fingerprint_long(0), 1);
    assert_eq!(byte_fingerprint_long(0x100), 1);
    assert_eq!(byte_fingerprint_short(0xffff_ff00), 1u8);
}
