use cuckoo_filter::murmur3_x86_128;
use cuckoo_filter::murmur3_x86_64bit;
use cuckoo_filter::Murmur3Hasher;
use rand::Rng;
use rand::SeedableRng;
use rand_chacha::ChaCha8Rng;
use std::collections::HashSet;

const NUM_SAMPLES: usize = 10000;
const ACCEPTABLE_COLLISION_RATE: f32 = 0.01;

fn get_random_string(rng: &mut ChaCha8Rng, len: usize) -> String {
    rng.sample_iter::<char, _>(&rand::distributions::Standard)
        .take(len)
        .map(char::from)
        .collect()
}

#[test]
fn basic_hash_test_murmur3() {
    let a = murmur3_x86_128("cat".as_bytes(), 0);
    let b = murmur3_x86_128("dog".as_bytes(), 0);
    assert_ne!(a, b);
}

#[test]
fn collision_rate_murmur3() {
    let mut rng = ChaCha8Rng::seed_from_u64(42);
    let mut input_set: HashSet<String> = HashSet::with_capacity(NUM_SAMPLES);
    let mut output_set: HashSet<u64> = HashSet::with_capacity(NUM_SAMPLES);
    let mut hasher = Murmur3Hasher::new();
    for i in 0..NUM_SAMPLES {
        let random_string = get_random_string(&mut rng, i % 12);
        hasher.write(random_string.as_bytes());
        _ = input_set.insert(random_string.clone());
        _ = output_set.insert(hasher.finish());
        hasher = Murmur3Hasher::new();
    }
    println!("inputs {}, outputs {}", input_set.len(), output_set.len());
    assert!(
        input_set.len() - output_set.len()
            < (ACCEPTABLE_COLLISION_RATE * NUM_SAMPLES as f32) as usize
    );
}

#[test]
fn basic_avalanche_check() {
    const NUM_SAMPLES: usize = 10_000;
    let mut output_set: HashSet<u128> = HashSet::with_capacity(NUM_SAMPLES);
    for i in 0..NUM_SAMPLES {
        output_set.insert(murmur3_x86_128(&i.to_le_bytes(), 0));
    }
    assert_eq!(output_set.len(), NUM_SAMPLES);
}

#[test]
fn murmur3_wrapper_avalanche_check() {
    let mut hasher = Murmur3Hasher::new();
    const NUM_SAMPLES: usize = 10_000;
    let mut output_set: HashSet<u64> = HashSet::with_capacity(NUM_SAMPLES);
    for i in 0..NUM_SAMPLES {
        hasher.write(&i.to_ne_bytes());
        output_set.insert(hasher.finish());
    }
    assert_eq!(output_set.len(), NUM_SAMPLES);
}

#[test]
fn murmur3_known_values() {
    assert_eq!(murmur3_x86_128(b"", 0), 0);
    assert_eq!(
        murmur3_x86_128(b"hello", 0),
        0x9adb31b69adb31b6db91def72b2444a0
    );
    assert_eq!(
        murmur3_x86_128(b"The quick brown fox jumps over the lazy dog", 0),
        0xe5e91d2c5d7bf66cecee2c672f1583c3
    );
    let counting: Vec<u8> = (0u8..33).collect();
    assert_eq!(
        murmur3_x86_128(&counting, 0),
        0x220dc78120e7b67076f9913650de15ba
    );
    assert_eq!(
        murmur3_x86_128(b"hello", 42),
        0x886f9b95886f9b95053404f69c4f9a01
    );
}

#[test]
fn murmur3_64bit_is_low_half() {
    assert_eq!(murmur3_x86_64bit(b"hello"), 0xdb91def72b2444a0);
    assert_eq!(murmur3_x86_64bit(b"test"), 0x550c7d686f02ef30);
    let whole = murmur3_x86_128(b"cat", 0);
    assert_eq!(murmur3_x86_64bit(b"cat"), whole as u64);
}

#[test]
fn murmur3_same_input_same_digest() {
    let mut hasher = Murmur3Hasher::new();
    hasher.write(b"cat");
    let h1 = hasher.finish();
    hasher.seed(0);
    hasher.write(b"cat");
    let h2 = hasher.finish();
    assert_eq!(h1, h2);
    assert_eq!(h1, murmur3_x86_64bit(b"cat"));
    assert_ne!(murmur3_x86_64bit(b"cat"), murmur3_x86_64bit(b"dog"));
}

#[test]
fn murmur3_streaming_matches_one_call() {
    let text = b"The quick brown fox jumps over the lazy dog";
    for split in 0..=text.len() {
        let mut hasher = Murmur3Hasher::new();
        hasher.write(&text[..split]);
        hasher.write(&text[split..]);
        assert_eq!(hasher.finish(), 0xecee2c672f1583c3);
        assert_eq!(hasher.digest128(), 0xe5e91d2c5d7bf66cecee2c672f1583c3);
    }
    let mut bytewise = Murmur3Hasher::new();
    for b in text.iter() {
        bytewise.write(&[*b]);
    }
    assert_eq!(bytewise.finish(), murmur3_x86_64bit(text));
}

#[test]
fn murmur3_seed_restarts_the_input() {
    let mut hasher = Murmur3Hasher::new();
    hasher.write(b"some earlier input");
    hasher.seed(42);
    hasher.write(b"hello");
    assert_eq!(hasher.digest128(), murmur3_x86_128(b"hello", 42));
    assert_eq!(hasher.finish(), murmur3_x86_128(b"hello", 42) as u64);
}

#[test]
fn murmur3_writing_without_reset_changes_digest() {
    let mut hasher = Murmur3Hasher::new();
    hasher.write(b"cat");
    let h1 = hasher.finish();
    hasher.write(b"cat");
    let h2 = hasher.finish();
    assert_ne!(h1, h2);
    assert_eq!(h2, murmur3_x86_64bit(b"catcat"));
}

#[test]
fn murmur3_default_is_fresh() {
    let mut hasher = Murmur3Hasher::default();
    hasher.write(b"hello");
    assert_eq!(hasher.finish(), 0xdb91def72b2444a0);
}
