use nonnative::arith::{add_witness, sub_witness, neg_witness, mul_witness, inv_witness};
use nonnative::facade::connect_nonnative;
use nonnative::gadgets::add_many;
use nonnative::params::FieldParameters;
use nonnative::schema::{check_add_schema, check_sub_schema, check_mul_schema, check_inv_schema, check_multi_add_schema};

use num::BigUint;

fn secp_params() -> FieldParameters {
    let limbs: Vec<u32> = vec![
        0xFFFF_FC2F,
        0xFFFF_FFFE,
        0xFFFF_FFFF,
        0xFFFF_FFFF,
        0xFFFF_FFFF,
        0xFFFF_FFFF,
        0xFFFF_FFFF,
        0xFFFF_FFFF,
    ];
    FieldParameters::new(limbs).unwrap()
}

fn modulus() -> BigUint {
    BigUint::from_slice(&secp_params().limbs)
}

fn to_limbs(x: &BigUint) -> Vec<u32> {
    x.to_u32_digits()
}

/// A fixed pseudorandom 256-bit element, reduced modulo the field order.
fn sample(seed: u32) -> BigUint {
    let mut bytes: Vec<u8> = Vec::new();
    let mut state = seed.wrapping_mul(0x9E37_79B9).wrapping_add(1);
    for _ in 0..32 {
        state = state.wrapping_mul(1_664_525).wrapping_add(1_013_904_223);
        bytes.push((state >> 24) as u8);
    }
    BigUint::from_bytes_le(&bytes) % modulus()
}

#[test]
fn test_nonnative_add() {
    let p = secp_params();
    let x = sample(1);
    let y = sample(2);
    let sum_expected = (&x + &y) % modulus();

    let (sum, overflow) = add_witness(&to_limbs(&x), &to_limbs(&y), &p);
    assert!(connect_nonnative(&sum, &to_limbs(&sum_expected)));
    assert!(check_add_schema(&to_limbs(&x), &to_limbs(&y), &sum, overflow, &p));
}

#[test]
fn test_nonnative_many_adds() {
    let p = secp_params();
    let values: Vec<BigUint> = (1u32..=8u32).map(sample).collect();
    let mut sum_expected = BigUint::from(0u32);
    for v in values.iter() {
        sum_expected = (&sum_expected + v) % modulus();
    }

    let summands: Vec<Vec<u32>> = values.iter().map(to_limbs).collect();
    let sum = add_many(&summands, &p);
    assert!(connect_nonnative(&sum, &to_limbs(&sum_expected)));
}

#[test]
fn test_nonnative_sub() {
    let p = secp_params();
    let mut x = sample(3);
    let mut y = sample(4);
    if y > x {
        std::mem::swap(&mut x, &mut y);
    }
    let diff_expected = &x - &y;

    let (diff, overflow) = sub_witness(&to_limbs(&x), &to_limbs(&y), &p);
    assert!(!overflow);
    assert!(connect_nonnative(&diff, &to_limbs(&diff_expected)));
    assert!(check_sub_schema(&to_limbs(&x), &to_limbs(&y), &diff, overflow, &p));
}

#[test]
fn test_nonnative_mul() {
    let p = secp_params();
    let x = sample(5);
    let y = sample(6);
    let product_expected = (&x * &y) % modulus();

    let (product, overflow) = mul_witness(&to_limbs(&x), &to_limbs(&y), &p);
    assert!(connect_nonnative(&product, &to_limbs(&product_expected)));
    assert!(check_mul_schema(&to_limbs(&x), &to_limbs(&y), &product, &overflow, &p));
}

#[test]
fn test_nonnative_neg() {
    let p = secp_params();
    let x = sample(7);
    let neg_expected = modulus() - &x;

    let (neg, borrowed) = neg_witness(&to_limbs(&x), &p);
    assert!(borrowed);
    assert!(connect_nonnative(&neg, &to_limbs(&neg_expected)));
}

#[test]
fn test_nonnative_inv() {
    let p = secp_params();
    let x = sample(8);
    let inv_expected = x.modinv(&modulus()).unwrap();

    let (inv, quotient) = inv_witness(&to_limbs(&x), &p).unwrap();
    assert!(connect_nonnative(&inv, &to_limbs(&inv_expected)));
    assert!(check_inv_schema(&to_limbs(&x), &inv, &quotient, &p));
    let (one, _overflow) = mul_witness(&to_limbs(&x), &inv, &p);
    assert_eq!(one, vec![1u32]);
}

// Soundness: a witness that lies about the overflow, hands back an unreduced
// sum, or supplies a zero inverse falsifies the schema it must satisfy.

#[test]
fn test_add_overflow_zero_rejected() {
    let p = secp_params();
    let a = modulus() - BigUint::from(1u32);
    let b = BigUint::from(1u32);
    // The honest witness wraps; claiming `overflow = 0` with the honest sum,
    // or with the raw unreduced total, satisfies nothing.
    let (sum, overflow) = add_witness(&to_limbs(&a), &to_limbs(&b), &p);
    assert!(overflow);
    assert!(!check_add_schema(&to_limbs(&a), &to_limbs(&b), &sum, false, &p));
    let raw_total = to_limbs(&(&a + &b));
    assert!(!check_add_schema(&to_limbs(&a), &to_limbs(&b), &raw_total, false, &p));
}

#[test]
fn test_add_unreduced_sum_rejected() {
    let p = secp_params();
    let a = sample(9);
    let b = sample(10);
    // An unreduced result (the value plus the modulus) fails the range side
    // of the schema even though the algebraic identity is adjusted.
    let unreduced = (&a + &b) % modulus() + modulus();
    assert!(!check_add_schema(&to_limbs(&a), &to_limbs(&b), &to_limbs(&unreduced), true, &p));
}

#[test]
fn test_inv_zero_witness_rejected() {
    let p = secp_params();
    let x = sample(11);
    let zero: Vec<u32> = Vec::new();
    let quotient: Vec<u32> = Vec::new();
    assert!(!check_inv_schema(&to_limbs(&x), &zero, &quotient, &p));
    // And no witness at all closes the constraint for `x = 0`.
    assert!(inv_witness(&zero, &p).is_none());
}

// Concrete end-to-end scenarios over the secp256k1 base field.

#[test]
fn test_add_rollover() {
    let p = secp_params();
    let a = modulus() - BigUint::from(1u32);
    let b = BigUint::from(1u32);
    let (sum, overflow) = add_witness(&to_limbs(&a), &to_limbs(&b), &p);
    assert!(overflow);
    assert_eq!(sum.len(), 0);
    assert!(check_add_schema(&to_limbs(&a), &to_limbs(&b), &sum, overflow, &p));
}

#[test]
fn test_sub_borrow() {
    let p = secp_params();
    let a: Vec<u32> = Vec::new();
    let b = BigUint::from(1u32);
    let (diff, overflow) = sub_witness(&a, &to_limbs(&b), &p);
    assert!(overflow);
    let expected = modulus() - BigUint::from(1u32);
    assert!(connect_nonnative(&diff, &to_limbs(&expected)));
}

#[test]
fn test_mul_power_of_two() {
    let p = secp_params();
    let a = BigUint::from(1u64 << 32);
    let (product, _overflow) = mul_witness(&to_limbs(&a), &to_limbs(&a), &p);
    let expected = (&a * &a) % modulus();
    assert_eq!(expected, BigUint::from(1u128 << 64));
    assert!(connect_nonnative(&product, &to_limbs(&expected)));
}

#[test]
fn test_inv_two() {
    let p = secp_params();
    let two = BigUint::from(2u32);
    let (inv, _quotient) = inv_witness(&to_limbs(&two), &p).unwrap();
    let expected = (modulus() + BigUint::from(1u32)) / BigUint::from(2u32);
    assert!(connect_nonnative(&inv, &to_limbs(&expected)));
}

#[test]
fn test_many_adds_eighths() {
    let p = secp_params();
    // (p - 1) / 8 in the field: (p - 1) times the inverse of 8.
    let p_minus_one = modulus() - BigUint::from(1u32);
    let eighth = (&p_minus_one * BigUint::from(8u32).modinv(&modulus()).unwrap()) % modulus();
    let summands: Vec<Vec<u32>> = (0..8).map(|_| to_limbs(&eighth)).collect();
    let sum = add_many(&summands, &p);
    assert!(connect_nonnative(&sum, &to_limbs(&p_minus_one)));
    let (sum2, overflow) = nonnative::arith::multi_add_witness(&summands, &p);
    assert_eq!(sum, sum2);
    assert!(check_multi_add_schema(&summands, &sum2, overflow, &p));
}

#[test]
fn test_random_access_all_indices() {
    let elements: Vec<Vec<u32>> = (20u32..28u32).map(|s| to_limbs(&sample(s))).collect();
    for i in 0..8 {
        let selected = nonnative::gadgets::random_access(i, &elements);
        assert_eq!(selected, elements[i]);
    }
}
