use bloom_spell::storage::{
    calculate_storage_capacity_based_on_total_bits, read_bit_coordinates, Storage,
};

#[test]
fn should_return_err_when_total_bits_is_zero() {
    let storage = Storage::try_from(0);
    assert!(storage.is_err());
}

#[test]
fn should_return_storage_when_total_bits_is_positive() {
    let storage = Storage::try_from(1);
    assert!(storage.is_ok());
}

#[test]
fn should_write_bit_at_given_index() {
    let mut storage = Storage::try_from(8).unwrap();
    let is_written = storage.write_bit_at(0);
    assert!(is_written);
}

#[test]
fn should_not_write_bit_at_given_index_if_already_written() {
    let mut storage = Storage::try_from(8).unwrap();
    storage.write_bit_at(0);
    let is_written = storage.write_bit_at(0);
    assert!(!is_written);
}

#[test]
fn should_read_bit_at_given_index() {
    let mut storage = Storage::try_from(8).unwrap();
    storage.write_bit_at(0);
    let bit = storage.read_bit_at(0);
    assert_eq!(bit, 1);
    let bit = storage.read_bit_at(1);
    assert_eq!(bit, 0);
}

#[test]
fn read_returns_the_masked_byte() {
    let mut storage = Storage::try_from(17).unwrap();
    assert!(storage.write_bit_at(11));
    assert_eq!(storage.read_bit_at(11), 1 << 3);
    assert_eq!(storage.read_bit_at(3), 0);
    assert!(storage.write_bit_at(16));
    assert_eq!(storage.read_bit_at(16), 1);
    assert!(!storage.write_bit_at(16));
    for i in 0..17 {
        assert_eq!(storage.read_bit_at(i) != 0, i == 11 || i == 16);
    }
}

#[test]
fn should_provide_correct_capacity() {
    let test_cases = vec![(1, 1), (8, 1), (9, 2), (16, 2), (17, 3), (24, 3)];

    for (total_bits, expected_capacity) in test_cases {
        let capacity = calculate_storage_capacity_based_on_total_bits(total_bits);
        assert_eq!(capacity, expected_capacity);
    }
}

#[test]
fn capacity_of_the_largest_size() {
    assert_eq!(calculate_storage_capacity_based_on_total_bits(0), 0);
    assert_eq!(calculate_storage_capacity_based_on_total_bits(usize::MAX), usize::MAX / 8 + 1);
}

#[test]
fn should_provide_correct_coordinates() {
    let test_cases = vec![
        (0, (0, 0)),
        (1, (0, 1)),
        (7, (0, 7)),
        (8, (1, 0)),
        (9, (1, 1)),
        (15, (1, 7)),
        (16, (2, 0)),
        (17, (2, 1)),
        (23, (2, 7)),
    ];

    for (idx, expected_coordinates) in test_cases {
        let coordinates = read_bit_coordinates(idx);
        assert_eq!(coordinates, expected_coordinates);
    }
}
