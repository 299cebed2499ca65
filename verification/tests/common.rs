use gumbel_estimation::common::{hash_value, register_count, split_hash, GumbelError};
use gumbel_estimation::{MAX_PRECISION, MIN_PRECISION};
use std::collections::hash_map::DefaultHasher;
use std::hash::{BuildHasher, BuildHasherDefault};

#[test]
fn precision_bounds_are_4_and_16() {
    assert_eq!(MIN_PRECISION, 4);
    assert_eq!(MAX_PRECISION, 16);
}

#[test]
fn register_count_is_two_to_the_precision() {
    for precision in 4..=16u8 {
        match register_count(precision) {
            Ok(count) => assert_eq!(count, 1usize << precision),
            Err(_) => panic!("precision {} was refused", precision),
        }
    }
    assert!(matches!(register_count(4), Ok(16)));
    assert!(matches!(register_count(12), Ok(4096)));
    assert!(matches!(register_count(16), Ok(65536)));
}

#[test]
fn register_count_refuses_other_precisions() {
    for precision in (0..4u8).chain(17..=255u8) {
        assert!(matches!(register_count(precision), Err(GumbelError::InvalidPrecision)));
    }
}

#[test]
fn split_hash_takes_the_top_bits_as_index() {
    assert_eq!(split_hash(0xf000_0001, 4), (15, 0x0000_0010));
    assert_eq!(split_hash(0xf000_0001, 16), (0xf000, 0x0001_0000));
    assert_eq!(split_hash(0x1234_5678, 8), (0x12, 0x3456_7800));
    assert_eq!(split_hash(0x1234_5678, 12), (0x123, 0x4567_8000));
    assert_eq!(split_hash(0xffff_ffff, 16), (0xffff, 0xffff_0000));
    assert_eq!(split_hash(0, 12), (0, 0));
    assert_eq!(split_hash(0x8000_0000, 1), (1, 0));
    assert_eq!(split_hash(0x7fff_ffff, 31), (0x3fff_ffff, 0x8000_0000));
}

#[test]
fn split_hash_ignores_the_high_word() {
    assert_eq!(split_hash(0xdead_beef_f000_0001, 4), (15, 0x0000_0010));
    assert_eq!(split_hash(0xffff_ffff_0000_0000, 12), (0, 0));
    assert_eq!(split_hash(0x0123_4567_89ab_cdef, 16), (0x89ab, 0xcdef_0000));
}

#[test]
fn split_hash_loses_no_bit() {
    let mut word: u32 = 0x9e37_79b9;
    for _ in 0..1000 {
        word = word.wrapping_mul(1_664_525).wrapping_add(1_013_904_223);
        for precision in 4..=16u8 {
            let (index, residual) = split_hash(word as u64, precision);
            assert!(index < (1usize << precision));
            let joined = ((index as u32) << (32 - precision)) | (residual >> precision);
            assert_eq!(joined, word);
        }
    }
}

#[test]
fn hash_value_splits_the_hash_of_the_builder() {
    let builder = BuildHasherDefault::<DefaultHasher>::default();
    for value in 0..500u64 {
        for precision in [4u8, 8, 12, 16] {
            let expected = split_hash(builder.hash_one(&value), precision);
            assert_eq!(hash_value(&value, &builder, precision), expected);
        }
    }
    let text = "a string slice";
    assert_eq!(hash_value(text, &builder, 10), split_hash(builder.hash_one(text), 10));
}

#[test]
fn hash_value_is_the_same_for_the_same_element() {
    let builder = BuildHasherDefault::<DefaultHasher>::default();
    let first = hash_value(&77u64, &builder, 12);
    let second = hash_value(&77u64, &builder, 12);
    assert_eq!(first, second);
    assert!(first.0 < 4096);
}

#[test]
fn error_can_be_shown() {
    assert_eq!(format!("{:?}", GumbelError::InvalidPrecision), "InvalidPrecision");
}
