use bitscan::bitset::{convert_to_bit_array, decode, BIT_ARRAY_SIZE, UNIVERSE_SIZE};
use bitscan::sampler::{generate_random_nums, sample_unique, SampleError, SAMPLE_COUNT};
use bitscan::scan::{missing_bits, missing_numbers};
use std::collections::HashSet;

fn all_but(absent: &[u16]) -> Vec<u16> {
    (0..=u16::MAX).filter(|v| !absent.contains(v)).collect()
}

#[test]
fn missing_bits_works() {
    assert_eq!((Some(0), Some(7), 8), missing_bits(0b0000_0000u8));
    assert_eq!((Some(2), Some(7), 6), missing_bits(0b0000_0011u8));
    assert_eq!((Some(1), Some(7), 6), missing_bits(0b0001_0001u8));
    assert_eq!((Some(5), Some(7), 2), missing_bits(0b0101_1111u8));
    assert_eq!((Some(7), Some(7), 1), missing_bits(0b0111_1111u8));
    assert_eq!((None, None, 0), missing_bits(0b1111_1111u8));
    assert_eq!((Some(0), Some(6), 5), missing_bits(0b1001_1000u8));
    assert_eq!((Some(3), Some(5), 3), missing_bits(0b1100_0111u8));
}

#[test]
fn missing_numbers_works() {
    assert_eq!(
        (Some(5), Some(13), 5),
        missing_numbers(&[0b1111_1111, 0b1100_0111, 0b0101_1111])
    );
    assert_eq!(
        (Some(16), Some(23), 3),
        missing_numbers(&[0b0111_1100, 0b1111_1111, 0b1111_1111])
    );
    assert_eq!(
        (None, None, 0),
        missing_numbers(&[0b1111_1111, 0b1111_1111, 0b1111_1111])
    );
    assert_eq!(
        (Some(0), Some(23), 5),
        missing_numbers(&[0b0111_1111, 0b1010_1011, 0b1111_1110])
    );
    assert_eq!(
        (Some(12), Some(12), 1),
        missing_numbers(&[0b1111_1111, 0b1110_1111, 0b1111_1111])
    );
}

#[test]
fn byte_scan_extremes() {
    assert_eq!(missing_bits(0xFF), (None, None, 0));
    assert_eq!(missing_bits(0x00), (Some(0), Some(7), 8));
    assert_eq!(missing_bits(0b1111_1110), (Some(0), Some(0), 1));
}

#[test]
fn empty_bitset_has_nothing_missing() {
    assert_eq!(missing_numbers(&[]), (None, None, 0));
}

#[test]
fn encoding_layout_is_reversed_lsb_first() {
    let bits = convert_to_bit_array(&vec![0]);
    assert_eq!(bits[BIT_ARRAY_SIZE - 1], 0b0000_0001);
    assert!(bits[..BIT_ARRAY_SIZE - 1].iter().all(|b| *b == 0));

    let bits = convert_to_bit_array(&vec![65535, 9]);
    assert_eq!(bits[0], 0b1000_0000);
    assert_eq!(bits[BIT_ARRAY_SIZE - 2], 0b0000_0010);
    assert_eq!(bits.iter().filter(|b| **b != 0).count(), 2);
}

#[test]
fn encoding_twice_is_encoding_once() {
    assert_eq!(convert_to_bit_array(&vec![7, 7, 300]), convert_to_bit_array(&vec![300, 7]));
}

#[test]
fn decode_inverts_encode() {
    let values: Vec<u16> = vec![65535, 0, 8, 7, 4096, 12345];
    let decoded = decode(&convert_to_bit_array(&values));
    assert_eq!(decoded, vec![0, 7, 8, 4096, 12345, 65535]);
    assert_eq!(decode(&[0u8; BIT_ARRAY_SIZE]), Vec::<u16>::new());
    assert_eq!(decode(&[0xFFu8; BIT_ARRAY_SIZE]).len(), UNIVERSE_SIZE);
}

#[test]
fn present_and_missing_add_up() {
    let values: Vec<u16> = vec![1, 2, 3, 1000, 65535];
    let (_, _, total) = missing_numbers(&convert_to_bit_array(&values));
    assert_eq!(values.len() + total, UNIVERSE_SIZE);
    let (_, _, total) = missing_numbers(&convert_to_bit_array(&Vec::new()));
    assert_eq!(total, UNIVERSE_SIZE);
}

#[test]
fn single_absent_value_is_first_and_last() {
    for absent in [0u16, 1, 8, 4095, 65534, 65535] {
        let bits = convert_to_bit_array(&all_but(&[absent]));
        assert_eq!(
            missing_numbers(&bits),
            (Some(absent as usize), Some(absent as usize), 1)
        );
    }
}

#[test]
fn full_universe_has_nothing_missing() {
    let bits = convert_to_bit_array(&all_but(&[]));
    assert_eq!(missing_numbers(&bits), (None, None, 0));
}

#[test]
fn only_zero_present() {
    let bits = convert_to_bit_array(&vec![0]);
    assert_eq!(missing_numbers(&bits), (Some(1), Some(65535), 65535));
}

#[test]
fn lowest_and_highest_are_numeric() {
    let bits = convert_to_bit_array(&all_but(&[3, 40000, 17]));
    assert_eq!(missing_numbers(&bits), (Some(3), Some(40000), 3));
}

#[test]
fn sampled_values_leave_fixed_remainder() {
    let values = sample_unique(64000, 65536, Some(42)).unwrap();
    let (_, _, total) = missing_numbers(&convert_to_bit_array(&values));
    assert_eq!(total, 1536);
}

#[test]
fn generated_numbers_are_distinct() {
    let values = generate_random_nums();
    assert_eq!(values.len(), SAMPLE_COUNT);
    let distinct: HashSet<u16> = values.iter().copied().collect();
    assert_eq!(distinct.len(), SAMPLE_COUNT);
    let (_, _, total) = missing_numbers(&convert_to_bit_array(&values));
    assert_eq!(total, 1536);
}

#[test]
fn sample_is_distinct_and_in_range() {
    let values = sample_unique(50, 60, Some(7)).unwrap();
    assert_eq!(values.len(), 50);
    let distinct: HashSet<u16> = values.iter().copied().collect();
    assert_eq!(distinct.len(), 50);
    assert!(values.iter().all(|v| *v < 60));
}

#[test]
fn whole_universe_sample_is_a_permutation() {
    let mut values = sample_unique(UNIVERSE_SIZE, UNIVERSE_SIZE, Some(1)).unwrap();
    values.sort();
    assert_eq!(values, all_but(&[]));
}

#[test]
fn seeded_sample_is_reproducible() {
    assert_eq!(
        sample_unique(100, 1000, Some(9)).unwrap(),
        sample_unique(100, 1000, Some(9)).unwrap()
    );
    let unseeded = sample_unique(10, 20, None).unwrap();
    assert_eq!(unseeded.len(), 10);
}

#[test]
fn sample_edge_sizes() {
    assert_eq!(sample_unique(0, 0, Some(3)), Ok(Vec::new()));
    assert_eq!(sample_unique(1, 1, Some(3)), Ok(vec![0]));
}

#[test]
fn sample_rejects_impossible_requests() {
    assert_eq!(sample_unique(11, 10, Some(3)), Err(SampleError::InvalidArgument));
    assert_eq!(
        sample_unique(1, UNIVERSE_SIZE + 1, Some(3)),
        Err(SampleError::InvalidArgument)
    );
}
