use nonnative::arith::{add_witness, mul_witness};
use nonnative::facade::{connect_nonnative, elements, from_elements, is_reduced, constant_nonnative, zero_nonnative};
use nonnative::gadgets::{mul_by_bool, if_nonnative, conditional_neg, mul_many, split_to_bits, bool_to_nonnative};
use nonnative::generator::{
    NonNativeGenerator, NonNativeAdditionGenerator, NonNativeMultipleAddsGenerator,
    NonNativeSubtractionGenerator, NonNativeMultiplicationGenerator, NonNativeInverseGenerator,
};
use nonnative::params::{FieldParameters, num_nonnative_limbs};
use nonnative::serial::{serialize_generator, deserialize_generator, Buffer, write_u64, read_u64};
use nonnative::target::{
    U32Target, BoolTarget, BigUintTarget, NonNativeTarget, PartitionWitness, GeneratedValues,
};

use num::BigUint;

fn secp_params() -> FieldParameters {
    let limbs: Vec<u32> = vec![
        0xFFFF_FC2F,
        0xFFFF_FFFE,
        0xFFFF_FFFF,
        0xFFFF_FFFF,
        0xFFFF_FFFF,
        0xFFFF_FFFF,
        0xFFFF_FFFF,
        0xFFFF_FFFF,
    ];
    FieldParameters::new(limbs).unwrap()
}

fn modulus() -> BigUint {
    BigUint::from_slice(&secp_params().limbs)
}

fn sample(seed: u32) -> BigUint {
    let mut bytes: Vec<u8> = Vec::new();
    let mut state = seed.wrapping_mul(0x9E37_79B9).wrapping_add(1);
    for _ in 0..32 {
        state = state.wrapping_mul(1_664_525).wrapping_add(1_013_904_223);
        bytes.push((state >> 24) as u8);
    }
    BigUint::from_bytes_le(&bytes) % modulus()
}

fn to_limbs(x: &BigUint) -> Vec<u32> {
    x.to_u32_digits()
}

#[test]
fn test_if_nonnative_selects() {
    let p = secp_params();
    let a = to_limbs(&sample(30));
    let b = to_limbs(&sample(31));
    let picked_a = if_nonnative(true, &a, &b, &p);
    let picked_b = if_nonnative(false, &a, &b, &p);
    assert!(connect_nonnative(&picked_a, &a));
    assert!(connect_nonnative(&picked_b, &b));
}

#[test]
fn test_mul_by_bool() {
    let a = to_limbs(&sample(32));
    let kept = mul_by_bool(&a, true);
    let dropped = mul_by_bool(&a, false);
    assert_eq!(kept, a);
    assert_eq!(dropped.len(), a.len());
    assert!(dropped.iter().all(|&l| l == 0));
}

#[test]
fn test_conditional_neg() {
    let p = secp_params();
    let x = sample(33);
    let negated = conditional_neg(&to_limbs(&x), true, &p);
    let kept = conditional_neg(&to_limbs(&x), false, &p);
    let expected_neg = modulus() - &x;
    assert!(connect_nonnative(&negated, &to_limbs(&expected_neg)));
    assert!(connect_nonnative(&kept, &to_limbs(&x)));
    let zero: Vec<u32> = Vec::new();
    let negated_zero = conditional_neg(&zero, true, &p);
    assert!(connect_nonnative(&negated_zero, &zero));
}

#[test]
fn test_mul_many_fold() {
    let p = secp_params();
    let values: Vec<BigUint> = (40u32..44u32).map(sample).collect();
    let mut expected = BigUint::from(1u32);
    for v in values.iter() {
        expected = (&expected * v) % modulus();
    }
    let factors: Vec<Vec<u32>> = values.iter().map(to_limbs).collect();
    let product = mul_many(&factors, &p);
    assert!(connect_nonnative(&product, &to_limbs(&expected)));

    let single = mul_many(&factors[..1].to_vec(), &p);
    assert!(connect_nonnative(&single, &factors[0]));
}

#[test]
fn test_split_to_bits_recombines() {
    let p = secp_params();
    let x = sample(45);
    let limbs = nonnative::limbs::pad_limbs(&to_limbs(&x), num_nonnative_limbs(&p));
    let bits = split_to_bits(&limbs);
    assert_eq!(bits.len(), 32 * limbs.len());
    let mut recombined = BigUint::from(0u32);
    for (i, bit) in bits.iter().enumerate() {
        if *bit {
            recombined += BigUint::from(1u32) << i;
        }
    }
    assert_eq!(recombined, x);
}

#[test]
fn test_split_to_bits_concrete() {
    let limbs: Vec<u32> = vec![0b1011, 1];
    let bits = split_to_bits(&limbs);
    assert_eq!(bits.len(), 64);
    assert!(bits[0] && bits[1] && !bits[2] && bits[3]);
    assert!(bits[4..32].iter().all(|&b| !b));
    assert!(bits[32]);
    assert!(bits[33..].iter().all(|&b| !b));
}

#[test]
fn test_bool_to_nonnative() {
    assert_eq!(bool_to_nonnative(true), vec![1u32]);
    assert_eq!(bool_to_nonnative(false), vec![0u32]);
}

#[test]
fn test_elements_round_trip() {
    let p = secp_params();
    let x = sample(50);
    let digits = elements(&to_limbs(&x), &p);
    assert_eq!(digits.len(), num_nonnative_limbs(&p));
    let back = from_elements(&digits, &p).unwrap();
    assert!(connect_nonnative(&back, &to_limbs(&x)));

    let too_wide: Vec<u64> = vec![1u64 << 32];
    assert!(from_elements(&too_wide, &p).is_none());
}

#[test]
fn test_constant_and_zero() {
    let p = secp_params();
    let over = modulus() + BigUint::from(5u32);
    let reduced = constant_nonnative(&to_limbs(&over), &p);
    assert!(connect_nonnative(&reduced, &to_limbs(&BigUint::from(5u32))));
    assert!(is_reduced(&reduced, &p));
    let zero = zero_nonnative();
    assert!(is_reduced(&zero, &p));
    assert!(!is_reduced(&p.limbs, &p));
}

fn element_over(wires: std::ops::Range<usize>) -> NonNativeTarget {
    NonNativeTarget {
        value: BigUintTarget { limbs: wires.map(U32Target).collect() },
    }
}

fn witness_with(assignments: &[(usize, u64)], size: usize) -> PartitionWitness {
    let mut values: Vec<Option<u64>> = vec![None; size];
    for &(t, v) in assignments {
        values[t] = Some(v);
    }
    PartitionWitness { values }
}

#[test]
fn test_addition_generator_run_once() {
    let p = secp_params();
    let a_val = sample(60);
    let b_val = sample(61);
    let a = element_over(0..8);
    let b = element_over(8..16);
    let sum = element_over(16..24);
    let overflow = BoolTarget(24);

    let mut assignments: Vec<(usize, u64)> = Vec::new();
    let a_limbs = nonnative::limbs::pad_limbs(&to_limbs(&a_val), 8);
    let b_limbs = nonnative::limbs::pad_limbs(&to_limbs(&b_val), 8);
    for i in 0..8 {
        assignments.push((i, a_limbs[i] as u64));
        assignments.push((8 + i, b_limbs[i] as u64));
    }
    let witness = witness_with(&assignments, 25);

    let generator = NonNativeAdditionGenerator { a, b, sum, overflow };
    let deps = generator.dependencies();
    assert_eq!(deps, (0..16).collect::<Vec<usize>>());

    let mut out = GeneratedValues::new();
    generator.run_once(&witness, &p, &mut out);
    assert_eq!(out.pairs.len(), 9);
    let written: Vec<u32> = out.pairs[..8].iter().map(|&(_, v)| v as u32).collect();
    let expected = (&a_val + &b_val) % modulus();
    assert_eq!(BigUint::from_slice(&written), expected);
    for i in 0..8 {
        assert_eq!(out.pairs[i].0, 16 + i);
    }
    assert_eq!(out.pairs[8].0, 24);
}

#[test]
fn test_inverse_generator_fails_on_zero() {
    let p = secp_params();
    let x = element_over(0..8);
    let inv = BigUintTarget { limbs: (8..16).map(U32Target).collect() };
    let div = BigUintTarget { limbs: (16..24).map(U32Target).collect() };
    let witness = witness_with(&(0..8).map(|i| (i, 0u64)).collect::<Vec<_>>(), 24);
    let generator = NonNativeInverseGenerator { x, inv, div };
    let mut out = GeneratedValues::new();
    assert!(!generator.run_once(&witness, &p, &mut out));
    assert!(out.pairs.is_empty());
}

#[test]
fn test_generator_ids() {
    assert_eq!(NonNativeAdditionGenerator::id(), "NonNativeAdditionGenerator");
    assert_eq!(NonNativeMultipleAddsGenerator::id(), "NonNativeMultipleAddsGenerator");
    assert_eq!(NonNativeSubtractionGenerator::id(), "NonNativeSubtractionGenerator");
    assert_eq!(NonNativeMultiplicationGenerator::id(), "NonNativeMultiplicationGenerator");
    assert_eq!(NonNativeInverseGenerator::id(), "NonNativeInverseGenerator");
}

#[test]
fn test_u64_round_trip() {
    let mut bytes: Vec<u8> = Vec::new();
    write_u64(&mut bytes, 0x0123_4567_89AB_CDEF);
    write_u64(&mut bytes, u64::MAX);
    write_u64(&mut bytes, 0);
    assert_eq!(bytes.len(), 24);
    assert_eq!(&bytes[..8], &[0xEF, 0xCD, 0xAB, 0x89, 0x67, 0x45, 0x23, 0x01]);
    let mut buffer = Buffer::new(bytes);
    assert_eq!(read_u64(&mut buffer).unwrap(), 0x0123_4567_89AB_CDEF);
    assert_eq!(read_u64(&mut buffer).unwrap(), u64::MAX);
    assert_eq!(read_u64(&mut buffer).unwrap(), 0);
    assert!(read_u64(&mut buffer).is_err());
}

fn indices(b: &BigUintTarget) -> Vec<usize> {
    b.limbs.iter().map(|t| t.0).collect()
}

#[test]
fn test_generator_serialization_round_trip() {
    let generator = NonNativeGenerator::Subtraction(NonNativeSubtractionGenerator {
        a: element_over(0..8),
        b: element_over(8..16),
        diff: element_over(16..24),
        overflow: BoolTarget(24),
    });
    let mut bytes: Vec<u8> = Vec::new();
    serialize_generator(&generator, &mut bytes).unwrap();
    // The wire format starts with the identifier string, verbatim.
    assert_eq!(&bytes[8..8 + 29], "NonNativeSubtractionGenerator".as_bytes());
    let mut buffer = Buffer::new(bytes);
    match deserialize_generator(&mut buffer).unwrap() {
        NonNativeGenerator::Subtraction(restored) => {
            assert_eq!(indices(&restored.a.value), (0..8).collect::<Vec<usize>>());
            assert_eq!(indices(&restored.b.value), (8..16).collect::<Vec<usize>>());
            assert_eq!(indices(&restored.diff.value), (16..24).collect::<Vec<usize>>());
            assert_eq!(restored.overflow.0, 24);
        },
        _ => panic!("wrong generator kind restored"),
    }
}

#[test]
fn test_multiple_adds_serialization_round_trip() {
    let generator = NonNativeGenerator::MultipleAdds(NonNativeMultipleAddsGenerator {
        summands: vec![element_over(0..8), element_over(8..16), element_over(16..24)],
        sum: element_over(24..32),
        overflow: U32Target(32),
    });
    let mut bytes: Vec<u8> = Vec::new();
    serialize_generator(&generator, &mut bytes).unwrap();
    let mut buffer = Buffer::new(bytes);
    match deserialize_generator(&mut buffer).unwrap() {
        NonNativeGenerator::MultipleAdds(restored) => {
            assert_eq!(restored.summands.len(), 3);
            assert_eq!(indices(&restored.summands[2].value), (16..24).collect::<Vec<usize>>());
            assert_eq!(indices(&restored.sum.value), (24..32).collect::<Vec<usize>>());
            assert_eq!(restored.overflow.0, 32);
        },
        _ => panic!("wrong generator kind restored"),
    }
}

#[test]
fn test_deserialize_unknown_id() {
    let mut bytes: Vec<u8> = Vec::new();
    write_u64(&mut bytes, 7);
    bytes.extend_from_slice(b"Unknown");
    let mut buffer = Buffer::new(bytes);
    assert!(deserialize_generator(&mut buffer).is_err());
}

#[test]
fn test_multiplication_generator_run_once() {
    let p = secp_params();
    let a_val = sample(70);
    let b_val = sample(71);
    let a = element_over(0..8);
    let b = element_over(8..16);
    let prod = element_over(16..24);
    let overflow = BigUintTarget { limbs: (24..32).map(U32Target).collect() };

    let mut assignments: Vec<(usize, u64)> = Vec::new();
    let a_limbs = nonnative::limbs::pad_limbs(&to_limbs(&a_val), 8);
    let b_limbs = nonnative::limbs::pad_limbs(&to_limbs(&b_val), 8);
    for i in 0..8 {
        assignments.push((i, a_limbs[i] as u64));
        assignments.push((8 + i, b_limbs[i] as u64));
    }
    let witness = witness_with(&assignments, 32);
    let generator = NonNativeGenerator::Multiplication(NonNativeMultiplicationGenerator {
        a,
        b,
        prod,
        overflow,
    });
    let mut out = GeneratedValues::new();
    assert!(generator.run_once(&witness, &p, &mut out));
    assert_eq!(out.pairs.len(), 16);
    let written: Vec<u32> = out.pairs[..8].iter().map(|&(_, v)| v as u32).collect();
    let expected = (&a_val * &b_val) % modulus();
    assert_eq!(BigUint::from_slice(&written), expected);
}

#[test]
fn test_addition_serialization_round_trip() {
    let generator = NonNativeGenerator::Addition(NonNativeAdditionGenerator {
        a: element_over(0..8),
        b: element_over(8..16),
        sum: element_over(16..24),
        overflow: BoolTarget(24),
    });
    let mut bytes: Vec<u8> = Vec::new();
    serialize_generator(&generator, &mut bytes).unwrap();
    assert_eq!(&bytes[8..8 + 26], "NonNativeAdditionGenerator".as_bytes());
    let mut buffer = Buffer::new(bytes);
    match deserialize_generator(&mut buffer).unwrap() {
        NonNativeGenerator::Addition(restored) => {
            assert_eq!(indices(&restored.a.value), (0..8).collect::<Vec<usize>>());
            assert_eq!(indices(&restored.b.value), (8..16).collect::<Vec<usize>>());
            assert_eq!(indices(&restored.sum.value), (16..24).collect::<Vec<usize>>());
            assert_eq!(restored.overflow.0, 24);
        },
        _ => panic!("wrong generator kind restored"),
    }
}

#[test]
fn test_multiplication_serialization_round_trip() {
    let generator = NonNativeGenerator::Multiplication(NonNativeMultiplicationGenerator {
        a: element_over(0..8),
        b: element_over(8..16),
        prod: element_over(16..24),
        overflow: BigUintTarget { limbs: (24..32).map(U32Target).collect() },
    });
    let mut bytes: Vec<u8> = Vec::new();
    serialize_generator(&generator, &mut bytes).unwrap();
    let mut buffer = Buffer::new(bytes);
    match deserialize_generator(&mut buffer).unwrap() {
        NonNativeGenerator::Multiplication(restored) => {
            assert_eq!(indices(&restored.a.value), (0..8).collect::<Vec<usize>>());
            assert_eq!(indices(&restored.b.value), (8..16).collect::<Vec<usize>>());
            assert_eq!(indices(&restored.prod.value), (16..24).collect::<Vec<usize>>());
            assert_eq!(indices(&restored.overflow), (24..32).collect::<Vec<usize>>());
        },
        _ => panic!("wrong generator kind restored"),
    }
}

#[test]
fn test_inverse_serialization_round_trip() {
    let generator = NonNativeGenerator::Inverse(NonNativeInverseGenerator {
        x: element_over(0..8),
        inv: BigUintTarget { limbs: (8..16).map(U32Target).collect() },
        div: BigUintTarget { limbs: (16..24).map(U32Target).collect() },
    });
    let mut bytes: Vec<u8> = Vec::new();
    serialize_generator(&generator, &mut bytes).unwrap();
    assert_eq!(&bytes[8..8 + 25], "NonNativeInverseGenerator".as_bytes());
    let mut buffer = Buffer::new(bytes);
    match deserialize_generator(&mut buffer).unwrap() {
        NonNativeGenerator::Inverse(restored) => {
            assert_eq!(indices(&restored.x.value), (0..8).collect::<Vec<usize>>());
            assert_eq!(indices(&restored.inv), (8..16).collect::<Vec<usize>>());
            assert_eq!(indices(&restored.div), (16..24).collect::<Vec<usize>>());
        },
        _ => panic!("wrong generator kind restored"),
    }
}

#[test]
fn test_deserialize_truncated_buffer() {
    let generator = NonNativeGenerator::Addition(NonNativeAdditionGenerator {
        a: element_over(0..8),
        b: element_over(8..16),
        sum: element_over(16..24),
        overflow: BoolTarget(24),
    });
    let mut bytes: Vec<u8> = Vec::new();
    serialize_generator(&generator, &mut bytes).unwrap();
    bytes.truncate(bytes.len() - 1);
    let mut buffer = Buffer::new(bytes);
    assert!(deserialize_generator(&mut buffer).is_err());
}
