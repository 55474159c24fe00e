use cerberus::hashing::{hash_eq, hash_le, hash_pair, leaf_hash};
use cerberus::pubkey::Pubkey;

const ALICE_100: [u8; 32] = [
    181, 117, 235, 127, 159, 29, 169, 237, 70, 152, 16, 123, 42, 233, 8, 69, 9, 28, 132, 161, 67,
    12, 34, 34, 64, 244, 113, 166, 227, 127, 183, 65,
];

const ALICE_101: [u8; 32] = [
    64, 112, 213, 221, 179, 164, 174, 55, 15, 53, 73, 35, 58, 161, 23, 50, 83, 1, 169, 147, 7, 74,
    212, 246, 151, 224, 152, 36, 51, 164, 39, 129,
];

const ALICE_WIDE: [u8; 32] = [
    35, 102, 200, 142, 243, 248, 170, 62, 186, 9, 119, 245, 45, 21, 107, 38, 176, 29, 213, 39,
    199, 127, 188, 2, 255, 130, 120, 156, 121, 177, 65, 136,
];

const ZEROS_THEN_ONES: [u8; 32] = [
    34, 221, 175, 175, 82, 20, 18, 179, 158, 51, 152, 55, 16, 2, 190, 49, 98, 8, 87, 234, 11, 82,
    112, 96, 16, 19, 183, 117, 224, 204, 107, 173,
];

const ONES_THEN_ZEROS: [u8; 32] = [
    187, 214, 231, 221, 221, 67, 38, 221, 124, 130, 120, 65, 171, 151, 51, 198, 227, 252, 223, 56,
    165, 22, 55, 75, 209, 15, 238, 200, 246, 116, 234, 138,
];

#[test]
fn leaf_hash_is_keccak_of_address_and_little_endian_amount() {
    let alice = Pubkey::new_from_array([1u8; 32]);
    assert_eq!(leaf_hash(&alice, 100), ALICE_100);
    assert_eq!(leaf_hash(&alice, 101), ALICE_101);
    assert_eq!(leaf_hash(&alice, 0x0102030405060708), ALICE_WIDE);
}

#[test]
fn leaf_hash_agrees_with_the_hash_function() {
    for seed in 0..20u8 {
        let who = Pubkey::new_from_array([seed; 32]);
        let amount = (seed as u64) * 0x0101_0101_0101 + 7;
        let expected = solana_program::keccak::hashv(&[&[seed; 32], &amount.to_le_bytes()]).0;
        assert_eq!(leaf_hash(&who, amount), expected);
        assert_ne!(leaf_hash(&who, amount), who.to_bytes());
    }
}

#[test]
fn leaf_hash_depends_on_claimant_and_amount() {
    let alice = Pubkey::new_from_array([1u8; 32]);
    let bob = Pubkey::new_from_array([2u8; 32]);
    assert_ne!(leaf_hash(&alice, 100), leaf_hash(&bob, 100));
    assert_ne!(leaf_hash(&alice, 100), leaf_hash(&alice, 101));
    assert_eq!(leaf_hash(&alice, 100), leaf_hash(&alice, 100));
}

#[test]
fn hash_pair_puts_the_smaller_value_first() {
    let zeros = [0u8; 32];
    let ones = [255u8; 32];
    assert_eq!(hash_pair(&zeros, &ones), ZEROS_THEN_ONES);
    assert_eq!(hash_pair(&ones, &zeros), ZEROS_THEN_ONES);
    assert_ne!(hash_pair(&ones, &zeros), ONES_THEN_ZEROS);
}

#[test]
fn hash_pair_does_not_depend_on_the_side() {
    for seed in 0..16u8 {
        let mut a = [seed; 32];
        let mut b = [seed; 32];
        a[(seed as usize) % 32] = 7u8.wrapping_mul(seed).wrapping_add(1);
        b[31 - (seed as usize) % 32] = 13u8.wrapping_mul(seed).wrapping_add(2);
        assert_eq!(hash_pair(&a, &b), hash_pair(&b, &a));
        let (low, high) = if a <= b { (a, b) } else { (b, a) };
        assert_eq!(hash_pair(&a, &b), solana_program::keccak::hashv(&[&low, &high]).0);
    }
}

#[test]
fn hash_pair_of_equal_values() {
    let a = [9u8; 32];
    assert_eq!(hash_pair(&a, &a), solana_program::keccak::hashv(&[&a, &a]).0);
}

#[test]
fn hash_le_is_lexicographic() {
    let zeros = [0u8; 32];
    let mut first_high = [0u8; 32];
    first_high[0] = 1;
    let mut last_high = [0u8; 32];
    last_high[31] = 1;
    let mut rest_high = [255u8; 32];
    rest_high[0] = 0;
    assert!(hash_le(&zeros, &zeros));
    assert!(hash_le(&zeros, &last_high));
    assert!(!hash_le(&last_high, &zeros));
    assert!(hash_le(&last_high, &first_high));
    assert!(!hash_le(&first_high, &last_high));
    assert!(hash_le(&rest_high, &first_high));
    assert!(!hash_le(&first_high, &rest_high));
}

#[test]
fn hash_le_agrees_with_the_array_order() {
    let mut values: Vec<[u8; 32]> = Vec::new();
    for seed in 0..12u8 {
        let mut v = [seed / 3; 32];
        v[(seed as usize * 5) % 32] = seed.wrapping_mul(37);
        values.push(v);
    }
    for a in values.iter() {
        for b in values.iter() {
            assert_eq!(hash_le(a, b), a <= b);
            assert!(hash_le(a, b) || hash_le(b, a));
            assert_eq!(hash_le(a, b) && hash_le(b, a), a == b);
        }
    }
}

#[test]
fn hash_eq_compares_every_byte() {
    let a = [5u8; 32];
    assert!(hash_eq(&a, &a));
    for position in 0..32 {
        let mut b = a;
        b[position] ^= 1;
        assert!(!hash_eq(&a, &b));
        assert!(!hash_eq(&b, &a));
    }
}

#[test]
fn pubkey_equals_compares_the_bytes() {
    let a = Pubkey::new_from_array([5u8; 32]);
    let mut other = [5u8; 32];
    other[31] = 6;
    let b = Pubkey::new_from_array(other);
    assert!(a.equals(&a));
    assert!(a.equals(&Pubkey { bytes: [5u8; 32] }));
    assert!(!a.equals(&b));
    assert_eq!(a.to_bytes(), [5u8; 32]);
    assert_eq!(b.to_bytes(), other);
}
