use bloom_spell::configuration::Tolerance;
use bloom_spell::hashing::{
    calculate_number_of_hash_functions_based_on_tolerance, DefaultHashingStrategy, HashManager,
    Hashing, Seed,
};
use std::hash::Hasher;

fn expected_position(seed: u64, idx: usize, total_bits: usize, entry: &str) -> usize {
    let hm = fasthash::murmur::hash32(entry) as u64;
    let mut hasher = fnv::FnvHasher::with_key(seed);
    hasher.write(entry.as_bytes());
    let hf = hasher.finish();
    let i = idx as u128;
    let sum = (hm as u128 + i * hf as u128 + i * i) % (1u128 << 64);
    (sum % total_bits as u128) as usize
}

#[test]
fn create_with_default_seed_if_none() {
    let seed = Seed::default();

    assert_eq!(seed.get_seed(), Seed::DEFAULT_SEED);
}

#[test]
fn create_with_customized_seed_if_passed() {
    let seed = Seed::from(37);

    assert_eq!(seed.get_seed(), 37);
}

#[test]
fn should_provide_correct_number_of_hash_functions() {
    let test_cases: Vec<(f32, usize)> = vec![(0.01, 7), (0.1, 4), (0.2, 3), (0.3, 2), (0.001, 10)];

    for (tolerance, expected_number_of_hash_functions) in test_cases {
        let tolerance = Tolerance::try_from(tolerance.to_bits()).unwrap();
        let number_of_hash_functions =
            calculate_number_of_hash_functions_based_on_tolerance(&tolerance);
        assert_eq!(number_of_hash_functions, expected_number_of_hash_functions);
    }
}

#[test]
fn hash_count_at_powers_of_two_and_extremes() {
    let cases: Vec<(f32, usize)> = vec![
        (0.5, 1),
        (0.25, 2),
        (0.99, 1),
        (0.75, 1),
        (f32::MIN_POSITIVE, 126),
        (1.0e-45, 149),
    ];
    for (p, k) in cases {
        let t = Tolerance::try_from(p.to_bits()).unwrap();
        assert_eq!(calculate_number_of_hash_functions_based_on_tolerance(&t), k, "p = {}", p);
    }
}

#[test]
fn murmur_base_hash_matches_the_crate() {
    assert_eq!(fasthash::murmur::hash32("hello"), 1773990585);
    let strategy = DefaultHashingStrategy::from(Seed::default());
    // Index 0 gives the MurmurHash alone, reduced modulo the bit length.
    assert_eq!(strategy.hash(0, 1 << 40, "hello"), 1773990585);
}

#[test]
fn default_strategy_follows_the_double_hash_formula() {
    let strategy = DefaultHashingStrategy::from(Seed::default());
    for entry in ["hello", "world", "", "catastrophic", "naïve"] {
        for idx in 0..12 {
            for total_bits in [1usize, 7, 9_585_058, usize::MAX] {
                let got = strategy.hash(idx, total_bits, entry);
                assert_eq!(got, expected_position(29, idx, total_bits, entry));
                assert!(got < total_bits);
            }
        }
    }
}

#[test]
fn seed_changes_the_fnv_hash() {
    let a = DefaultHashingStrategy::from(Seed::from(29));
    let b = DefaultHashingStrategy::from(Seed::from(37));
    assert_eq!(a.hash(1, 1 << 40, "hello"), expected_position(29, 1, 1 << 40, "hello"));
    assert_eq!(b.hash(1, 1 << 40, "hello"), expected_position(37, 1, 1 << 40, "hello"));
    assert_ne!(a.hash(1, 1 << 40, "hello"), b.hash(1, 1 << 40, "hello"));
}

#[test]
fn positions_repeat_across_managers() {
    let t = Tolerance::try_from(0.01f32.to_bits()).unwrap();
    let first = HashManager::try_from(&t, 9_585_058, DefaultHashingStrategy::from(Seed::default())).unwrap();
    let second = HashManager::try_from(&t, 9_585_058, DefaultHashingStrategy::from(Seed::default())).unwrap();
    let a = first.compute("hello");
    assert_eq!(a.len(), 7);
    assert_eq!(a, second.compute("hello"));
    for (i, p) in a.iter().enumerate() {
        assert!(*p < 9_585_058);
        assert_eq!(*p, expected_position(29, i, 9_585_058, "hello"));
    }
}

#[test]
fn hash_manager_refuses_zero_bits() {
    let t = Tolerance::try_from(0.01f32.to_bits()).unwrap();
    assert!(HashManager::try_from(&t, 0, DefaultHashingStrategy::from(Seed::default())).is_err());
    let m = HashManager::try_from(&t, 1, DefaultHashingStrategy::from(Seed::default())).unwrap();
    assert_eq!(m.get_hash_count(), 7);
    assert_eq!(m.compute("x"), vec![0; 7]);
}

fn fnv1a_by_hand(key: u64, bytes: &[u8]) -> u64 {
    let mut h = key;
    for b in bytes {
        h ^= *b as u64;
        h = h.wrapping_mul(0x100_0000_01b3);
    }
    h
}

#[test]
fn fnv_base_hash_is_fnv1a_from_the_seed() {
    let strategy = DefaultHashingStrategy::from(Seed::from(29));
    for entry in ["", "hello", "naïve"] {
        let hm = fasthash::murmur::hash32(entry) as u128;
        let hf = fnv1a_by_hand(29, entry.as_bytes()) as u128;
        // Index 1 adds the FNV hash once and 1 for the square.
        let expected = ((hm + hf + 1) % (1u128 << 64)) as u64;
        assert_eq!(strategy.hash(1, usize::MAX, entry) as u64, expected % (usize::MAX as u64));
    }
}
