use blockchainlib::encoding::push_le_bytes;
use blockchainlib::hashable::{same_bytes, zero_hash_bytes};
use blockchainlib::text::push_decimal;
use blockchainlib::{check_difficulty, difficulty_bytes_as_u128, u128_bytes, u32_bytes, u64_bytes};

fn hash_with_prefix(prefix: [u8; 16]) -> Vec<u8> {
    let mut hash: Vec<u8> = prefix.to_vec();
    hash.extend_from_slice(&[0xee; 16]);
    hash
}

#[test]
fn u32_is_encoded_least_significant_byte_first() {
    assert_eq!(u32_bytes(0x0102_0304), vec![4u8, 3, 2, 1]);
    assert_eq!(u32_bytes(0), vec![0u8; 4]);
    assert_eq!(u32_bytes(u32::MAX), vec![0xffu8; 4]);
}

#[test]
fn u64_is_encoded_in_eight_bytes() {
    assert_eq!(u64_bytes(50), vec![50u8, 0, 0, 0, 0, 0, 0, 0]);
    assert_eq!(u64_bytes(0x0102_0304_0506_0708), vec![8u8, 7, 6, 5, 4, 3, 2, 1]);
    assert_eq!(u64_bytes(u64::MAX), vec![0xffu8; 8]);
}

#[test]
fn u128_is_encoded_in_sixteen_bytes() {
    let mut expected: Vec<u8> = vec![0u8; 16];
    expected[0] = 0xe8;
    expected[1] = 0x03;
    assert_eq!(u128_bytes(1000), expected);
    assert_eq!(u128_bytes(u128::MAX), vec![0xffu8; 16]);
    assert_eq!(u128_bytes(1u128 << 120)[15], 1);
}

#[test]
fn encodings_agree_with_the_standard_library() {
    assert_eq!(u32_bytes(3_000_000_000), 3_000_000_000u32.to_le_bytes().to_vec());
    assert_eq!(u64_bytes(12_345_678_901_234), 12_345_678_901_234u64.to_le_bytes().to_vec());
    assert_eq!(u128_bytes(u128::MAX - 77), (u128::MAX - 77).to_le_bytes().to_vec());
}

#[test]
fn push_le_bytes_appends_and_truncates() {
    let mut out: Vec<u8> = vec![9u8];
    push_le_bytes(&mut out, 0x0001_0203, 2);
    assert_eq!(out, vec![9u8, 3, 2]);
    push_le_bytes(&mut out, 7, 0);
    assert_eq!(out, vec![9u8, 3, 2]);
}

#[test]
fn hash_value_reads_the_first_sixteen_bytes() {
    let mut prefix: [u8; 16] = [0; 16];
    prefix[0] = 5;
    assert_eq!(difficulty_bytes_as_u128(&hash_with_prefix(prefix)), 5);
    prefix[1] = 1;
    assert_eq!(difficulty_bytes_as_u128(&hash_with_prefix(prefix)), 261);
    prefix[15] = 0x80;
    assert_eq!(difficulty_bytes_as_u128(&hash_with_prefix(prefix)), (1u128 << 127) + 261);
    assert_eq!(difficulty_bytes_as_u128(&hash_with_prefix([0xff; 16])), u128::MAX);
}

#[test]
fn hash_value_ignores_the_trailing_bytes() {
    let mut low: Vec<u8> = vec![0u8; 32];
    low[16] = 0xff;
    low[31] = 0xff;
    assert_eq!(difficulty_bytes_as_u128(&low), 0);
    assert_eq!(difficulty_bytes_as_u128(&vec![1u8; 16]), 0x0101_0101_0101_0101_0101_0101_0101_0101);
}

#[test]
fn hash_value_inverts_the_sixteen_byte_encoding() {
    let value: u128 = 0x0123_4567_89ab_cdef_0011_2233_4455_6677;
    let mut hash: Vec<u8> = u128_bytes(value);
    hash.extend_from_slice(&[0u8; 16]);
    assert_eq!(difficulty_bytes_as_u128(&hash), value);
}

#[test]
fn check_difficulty_holds_exactly_below_the_target() {
    let mut prefix: [u8; 16] = [0; 16];
    prefix[0] = 5;
    let hash: Vec<u8> = hash_with_prefix(prefix);
    assert!(check_difficulty(&hash, 6));
    assert!(check_difficulty(&hash, u128::MAX));
    assert!(!check_difficulty(&hash, 5));
    assert!(!check_difficulty(&hash, 4));
    assert!(!check_difficulty(&hash, 0));
}

#[test]
fn check_difficulty_zero_target_accepts_nothing() {
    assert!(!check_difficulty(&vec![0u8; 32], 0));
    assert!(check_difficulty(&vec![0u8; 32], 1));
}

#[test]
fn check_difficulty_largest_value_is_never_accepted() {
    let hash: Vec<u8> = hash_with_prefix([0xff; 16]);
    assert!(!check_difficulty(&hash, u128::MAX));
}

#[test]
fn placeholder_hash_is_thirty_two_zero_bytes() {
    assert_eq!(zero_hash_bytes(), vec![0u8; 32]);
}

#[test]
fn same_bytes_compares_contents() {
    assert!(same_bytes(&vec![1u8, 2, 3], &vec![1u8, 2, 3]));
    assert!(same_bytes(&Vec::new(), &Vec::new()));
    assert!(!same_bytes(&vec![1u8, 2, 3], &vec![1u8, 2, 4]));
    assert!(!same_bytes(&vec![1u8, 2, 3], &vec![1u8, 2]));
    assert!(!same_bytes(&vec![1u8, 2], &vec![1u8, 2, 3]));
}

#[test]
fn push_decimal_renders_without_leading_zeros() {
    let mut text: String = String::from("n=");
    push_decimal(&mut text, 0);
    assert_eq!(text, "n=0");
    push_decimal(&mut text, 9);
    push_decimal(&mut text, 10);
    push_decimal(&mut text, 12_345);
    assert_eq!(text, "n=091012345");
    let mut largest: String = String::new();
    push_decimal(&mut largest, u128::MAX);
    assert_eq!(largest, format!("{}", u128::MAX));
}
