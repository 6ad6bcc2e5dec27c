use bloom_spell::configuration::{
    Capacity, ConfigError, Configuration, StorageBits, Tolerance, DEFAULT_MAX_SIZE,
    DEFAULT_MAX_TOLERANCE_BITS, MAXIMUM_CAPACITY_ALLOWED,
};

#[test]
fn should_return_err_when_capacity_is_invalid() {
    let expected_capacities = vec![
        0,
        MAXIMUM_CAPACITY_ALLOWED + 1,
        MAXIMUM_CAPACITY_ALLOWED + 100,
    ];

    for expected_capacity in expected_capacities {
        let maybe_capacity = Capacity::try_from(expected_capacity);

        assert!(maybe_capacity.is_err());
    }
}

#[test]
fn should_accept_capcity_if_smaller_than_maximum_threshold() {
    let expected_capacities = vec![
        1,
        100,
        MAXIMUM_CAPACITY_ALLOWED / 2,
        MAXIMUM_CAPACITY_ALLOWED,
    ];

    for expected_capacity in expected_capacities {
        let maybe_capacity = Capacity::try_from(expected_capacity);

        assert!(maybe_capacity.is_ok());

        let capacity = maybe_capacity.unwrap();

        assert_eq!(capacity.get_capacity(), expected_capacity);
        assert_eq!(capacity.get_actual_size(), 0);
    }
}

#[test]
fn should_have_size_increased_by_one() {
    let expected_capacities = vec![
        1,
        100,
        MAXIMUM_CAPACITY_ALLOWED / 2,
        MAXIMUM_CAPACITY_ALLOWED,
    ];

    for expected_capacity in expected_capacities {
        let maybe_capacity = Capacity::try_from(expected_capacity);

        assert!(maybe_capacity.is_ok());

        let mut capacity = maybe_capacity.unwrap();

        assert_eq!(capacity.get_capacity(), expected_capacity);
        assert_eq!(capacity.get_actual_size(), 0);

        capacity.increase_size_by_one();
        assert_eq!(capacity.get_actual_size(), 1);

        capacity.increase_size_by_one();
        assert_eq!(capacity.get_actual_size(), 2);
    }
}

#[test]
fn should_return_ok_when_bits_needed_not_maximum_allowed() {
    // The bit length derived for a capacity of 1_000_000 at tolerance 0.01.
    let maybe_storage_bits = StorageBits::try_from(9_585_058);
    assert!(maybe_storage_bits.is_ok());
}

#[test]
fn storage_bits_refused_from_the_limit_on() {
    let limit: u64 = 512 * 1024 * 1024 * 1024;
    assert!(StorageBits::try_from((limit - 1) as usize).is_ok());
    assert!(StorageBits::try_from(limit as usize).is_err());
    assert!(StorageBits::try_from((limit + 1) as usize).is_err());
}

#[test]
fn should_return_err_when_tolerance_is_invalid() {
    let invalid_tolerances: Vec<f32> = vec![-0.1, 1.1, 2.0, 0.0];

    for invalid_tolerance in invalid_tolerances {
        let maybe_tolerance = Tolerance::try_from(invalid_tolerance.to_bits());

        assert!(maybe_tolerance.is_err());
    }
}

#[test]
fn should_accept_tolerance_if_within_valid_range() {
    let valid_tolerances: Vec<f32> = vec![0.01, 0.1, 0.5, 0.99];

    for valid_tolerance in valid_tolerances {
        let maybe_tolerance = Tolerance::try_from(valid_tolerance.to_bits());

        assert!(maybe_tolerance.is_ok());
    }
}

#[test]
fn tolerance_edges_refused() {
    for p in [1.0f32, -0.0, f32::NAN, f32::INFINITY, -1.0, f32::NEG_INFINITY] {
        assert!(Tolerance::try_from(p.to_bits()).is_err(), "{} accepted", p);
    }
    for p in [f32::MIN_POSITIVE, 1.0e-45f32, 0.999_999_94f32] {
        let t = Tolerance::try_from(p.to_bits()).unwrap();
        assert_eq!(t.get_maximum_tolerance(), p.to_bits());
    }
}

#[test]
fn configuration_checks_capacity_then_tolerance_then_bits() {
    let p = 0.01f32.to_bits();
    assert!(matches!(
        Configuration::try_from(0.0f32.to_bits(), 0, 10),
        Err(ConfigError::Dependency(_))
    ));
    assert!(matches!(
        Configuration::try_from(0.0f32.to_bits(), 100, 10),
        Err(ConfigError::Validation(_))
    ));
    assert!(matches!(
        Configuration::try_from(p, 100, 1usize << 39),
        Err(ConfigError::Dependency(_))
    ));
    let mut c = Configuration::try_from(p, 100, 959).unwrap();
    assert_eq!(c.get_total_bits(), 959);
    assert_eq!(c.get_max_tolerance(), p);
    assert_eq!(c.get_unique_entry_count(), 0);
    c.increase_unique_entry_count();
    assert_eq!(c.get_unique_entry_count(), 1);
}

#[test]
fn defaults_are_a_million_entries_at_one_percent() {
    assert_eq!(DEFAULT_MAX_SIZE, 1_000_000);
    assert_eq!(DEFAULT_MAX_TOLERANCE_BITS, 0.01f32.to_bits());
}
