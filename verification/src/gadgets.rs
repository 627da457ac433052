//! Higher-level combinators over the per-operation witness arithmetic:
//! multiplication by a boolean, conditional select, conditional negation,
//! many-operand sum and product, bit decomposition, and array indexing.

use vstd::prelude::*;
use vstd::arithmetic::div_mod::{lemma_small_mod, lemma_mul_mod_noop_left};
use vstd::arithmetic::power2::{pow2, lemma_pow2_adds, lemma2_to64};
use crate::limbs::{limbs_value, normalized, lemma_limbs_value_concat};
use crate::params::{FieldParameters, copy_limbs};
use crate::arith::{
    add_witness, neg_witness, mul_witness, multi_add_witness, sum_values, prod_values,
    lemma_prod_values_push,
};

verus! {

/// The integer value of a little-endian sequence of bits.
pub open spec fn bits_value(s: Seq<bool>) -> nat
    decreases s.len(),
{
    if s.len() == 0 {
        0
    } else {
        (if s[0] {
            1nat
        } else {
            0nat
        }) + 2 * bits_value(s.skip(1))
    }
}

/// Concatenation splits a bit value into a low and a shifted high part.
pub proof fn lemma_bits_value_concat(a: Seq<bool>, b: Seq<bool>)
    ensures
        bits_value(a + b) == bits_value(a) + pow2(a.len()) * bits_value(b),
    decreases a.len(),
{
    if a.len() == 0 {
        assert(a + b =~= b);
        lemma2_to64();
    } else {
        assert((a + b).skip(1) =~= a.skip(1) + b);
        lemma_bits_value_concat(a.skip(1), b);
        lemma_pow2_adds(1, (a.len() - 1) as nat);
        lemma2_to64();
        assert(bits_value(a + b) == bits_value(a) + pow2(a.len()) * bits_value(b))
            by (nonlinear_arith)
            requires
                bits_value(a + b) == (if a[0] {
                    1nat
                } else {
                    0nat
                }) + 2 * bits_value(a.skip(1) + b),
                bits_value(a.skip(1) + b) == bits_value(a.skip(1)) + pow2((a.len() - 1) as nat)
                    * bits_value(b),
                bits_value(a) == (if a[0] {
                    1nat
                } else {
                    0nat
                }) + 2 * bits_value(a.skip(1)),
                pow2(a.len()) == 2 * pow2((a.len() - 1) as nat),
        {}
    }
}

/// A sequence of zero limbs stands for zero.
pub proof fn lemma_limbs_value_zero(s: Seq<u32>)
    requires
        forall|i: int| 0 <= i < s.len() ==> s[i] == 0,
    ensures
        limbs_value(s) == 0,
    decreases s.len(),
{
    if s.len() > 0 {
        lemma_limbs_value_zero(s.skip(1));
    }
}

/// Multiply an element limb-wise by a boolean: the element itself or zero,
/// over the same limb span.
pub fn mul_by_bool(x: &Vec<u32>, b: bool) -> (r: Vec<u32>)
    ensures
        r@.len() == x@.len(),
        limbs_value(r@) == (if b {
            limbs_value(x@)
        } else {
            0nat
        }),
        b ==> r@ =~= x@,
{
    let mut r: Vec<u32> = Vec::new();
    let mut i: usize = 0;
    while i < x.len()
        invariant
            i <= x.len(),
            r@.len() == i,
            forall|j: int| 0 <= j < i ==> r@[j] == (if b {
                x@[j]
            } else {
                0u32
            }),
        decreases x.len() - i,
    {
        if b {
            r.push(x[i]);
        } else {
            r.push(0);
        }
        i = i + 1;
    }
    proof {
        if b {
            assert(r@ =~= x@);
        } else {
            lemma_limbs_value_zero(r@);
        }
    }
    r
}

/// Conditional select: the first element when the bit is set, else the
/// second, built as `mul_by_bool(x, b) + mul_by_bool(y, !b)`.
pub fn if_nonnative(b: bool, x: &Vec<u32>, y: &Vec<u32>, p: &FieldParameters) -> (r: Vec<u32>)
    requires
        p.wf(),
        limbs_value(x@) < p.modulus(),
        limbs_value(y@) < p.modulus(),
    ensures
        normalized(r@),
        limbs_value(r@) < p.modulus(),
        limbs_value(r@) == (if b {
            limbs_value(x@)
        } else {
            limbs_value(y@)
        }),
{
    let mx = mul_by_bool(x, b);
    let my = mul_by_bool(y, !b);
    let (sum, _overflow) = add_witness(&mx, &my, p);
    proof {
        if b {
            lemma_small_mod(limbs_value(x@), p.modulus());
        } else {
            lemma_small_mod(limbs_value(y@), p.modulus());
        }
    }
    sum
}

/// Conditional negation: `-x` when the bit is set, else `x` unchanged.
pub fn conditional_neg(x: &Vec<u32>, b: bool, p: &FieldParameters) -> (r: Vec<u32>)
    requires
        p.wf(),
        limbs_value(x@) < p.modulus(),
    ensures
        normalized(r@),
        limbs_value(r@) < p.modulus(),
        limbs_value(r@) == (if b {
            ((p.modulus() - limbs_value(x@)) % (p.modulus() as int)) as nat
        } else {
            limbs_value(x@)
        }),
        b && limbs_value(x@) != 0 ==> limbs_value(r@) == p.modulus() - limbs_value(x@),
        b && limbs_value(x@) == 0 ==> limbs_value(r@) == 0,
{
    let (neg, _borrow) = neg_witness(x, p);
    let mneg = mul_by_bool(&neg, b);
    let mx = mul_by_bool(x, !b);
    let (sum, _overflow) = add_witness(&mneg, &mx, p);
    proof {
        if b {
            lemma_small_mod(limbs_value(neg@), p.modulus());
        } else {
            lemma_small_mod(limbs_value(x@), p.modulus());
        }
    }
    sum
}

/// Many-operand sum: a single summand passes through unchanged; otherwise the
/// many-operand witness arithmetic reduces the total.
pub fn add_many(summands: &Vec<Vec<u32>>, p: &FieldParameters) -> (r: Vec<u32>)
    requires
        p.wf(),
        1 <= summands@.len() <= 0x1_0000_0000,
        forall|i: int| 0 <= i < summands@.len() ==> crate::params::reduced(
            #[trigger] summands@[i]@,
            *p,
        ),
    ensures
        normalized(r@),
        limbs_value(r@) < p.modulus(),
        limbs_value(r@) == sum_values(summands@) % p.modulus(),
{
    if summands.len() == 1 {
        let r = copy_limbs(&summands[0]);
        proof {
            assert(summands@[0]@ =~= r@);
            assert(summands@.skip(1) =~= Seq::<Vec<u32>>::empty());
            assert(sum_values(summands@) == limbs_value(summands@[0]@) + sum_values(
                summands@.skip(1),
            ));
            lemma_small_mod(limbs_value(r@), p.modulus());
        }
        r
    } else {
        let (sum, _overflow) = multi_add_witness(summands, p);
        sum
    }
}

/// Many-operand product: a left fold of binary modular multiplication.
pub fn mul_many(factors: &Vec<Vec<u32>>, p: &FieldParameters) -> (r: Vec<u32>)
    requires
        p.wf(),
        factors@.len() >= 1,
        forall|i: int| 0 <= i < factors@.len() ==> crate::params::reduced(
            #[trigger] factors@[i]@,
            *p,
        ),
    ensures
        normalized(r@),
        limbs_value(r@) < p.modulus(),
        limbs_value(r@) == prod_values(factors@) % p.modulus(),
{
    let mut acc = copy_limbs(&factors[0]);
    proof {
        assert(acc@ =~= factors@[0]@);
        assert(factors@.take(1).skip(1) =~= Seq::<Vec<u32>>::empty());
        assert(factors@.take(1)[0] == factors@[0]);
        assert(prod_values(factors@.take(1)) == limbs_value(factors@.take(1)[0]@) * prod_values(
            factors@.take(1).skip(1),
        ));
        assert(limbs_value(factors@[0]@) * 1 == limbs_value(factors@[0]@)) by (nonlinear_arith);
        lemma_small_mod(limbs_value(acc@), p.modulus());
    }
    let mut i: usize = 1;
    while i < factors.len()
        invariant
            1 <= i <= factors@.len(),
            p.wf(),
            forall|k: int| 0 <= k < factors@.len() ==> crate::params::reduced(
                #[trigger] factors@[k]@,
                *p,
            ),
            normalized(acc@),
            limbs_value(acc@) < p.modulus(),
            limbs_value(acc@) == prod_values(factors@.take(i as int)) % p.modulus(),
        decreases factors@.len() - i,
    {
        let (prod, _overflow) = mul_witness(&acc, &factors[i], p);
        proof {
            assert(factors@.take(i + 1) =~= factors@.take(i as int).push(factors@[i as int]));
            lemma_prod_values_push(factors@.take(i as int), factors@[i as int]);
            lemma_mul_mod_noop_left(
                prod_values(factors@.take(i as int)) as int,
                limbs_value(factors@[i as int]@) as int,
                p.modulus() as int,
            );
        }
        acc = prod;
        i = i + 1;
    }
    proof {
        assert(factors@.take(factors@.len() as int) =~= factors@);
    }
    acc
}

/// Split one 32-bit limb into its 32 bits, least significant first.
pub fn limb_to_bits(limb: u32) -> (r: Vec<bool>)
    ensures
        r@.len() == 32,
        bits_value(r@) == limb as nat,
{
    let mut bits: Vec<bool> = Vec::new();
    let mut cur: u32 = limb;
    let mut i: usize = 0;
    proof {
        lemma2_to64();
    }
    while i < 32
        invariant
            i <= 32,
            bits@.len() == i,
            limb as nat == bits_value(bits@) + (cur as nat) * pow2(i as nat),
        decreases 32 - i,
    {
        let bit = cur % 2 == 1;
        let ghost prev_bits = bits@;
        let ghost prev_cur = cur as nat;
        proof {
            assert(bits@.push(bit) =~= bits@ + seq![bit]);
            lemma_bits_value_concat(bits@, seq![bit]);
            assert(seq![bit].skip(1) =~= Seq::<bool>::empty());
            assert(bits_value(seq![bit]) == (if bit {
                1nat
            } else {
                0nat
            }) + 2 * bits_value(seq![bit].skip(1)));
            lemma_pow2_adds(i as nat, 1);
            lemma2_to64();
        }
        bits.push(bit);
        cur = cur / 2;
        i = i + 1;
        proof {
            assert(limb as nat == bits_value(bits@) + (cur as nat) * pow2(i as nat))
                by (nonlinear_arith)
                requires
                    limb as nat == bits_value(prev_bits) + prev_cur * pow2((i - 1) as nat),
                    bits_value(bits@) == bits_value(prev_bits) + pow2((i - 1) as nat) * (if bit {
                        1nat
                    } else {
                        0nat
                    }),
                    bit == (prev_cur % 2 == 1),
                    cur as nat == prev_cur / 2,
                    pow2(i as nat) == pow2((i - 1) as nat) * 2,
            {}
        }
    }
    proof {
        assert(pow2(32) == 0x1_0000_0000);
        assert(cur == 0) by (nonlinear_arith)
            requires
                limb as nat == bits_value(bits@) + (cur as nat) * pow2(32),
                limb < 0x1_0000_0000,
                pow2(32) == 0x1_0000_0000,
        {}
    }
    bits
}

/// Decompose an element into `32 * L` bits: little-endian within each limb,
/// limbs concatenated low to high. The recombined bits carry the element's
/// value.
pub fn split_to_bits(x: &Vec<u32>) -> (r: Vec<bool>)
    ensures
        r@.len() == 32 * x@.len(),
        bits_value(r@) == limbs_value(x@),
{
    let mut result: Vec<bool> = Vec::new();
    let mut i: usize = 0;
    proof {
        assert(x@.take(0) =~= Seq::<u32>::empty());
    }
    while i < x.len()
        invariant
            i <= x@.len(),
            result@.len() == 32 * i,
            bits_value(result@) == limbs_value(x@.take(i as int)),
        decreases x@.len() - i,
    {
        let mut limb_bits = limb_to_bits(x[i]);
        let ghost prev = result@;
        let ghost lb = limb_bits@;
        result.append(&mut limb_bits);
        proof {
            lemma_bits_value_concat(prev, lb);
            assert(x@.take(i + 1) =~= x@.take(i as int) + seq![x@[i as int]]);
            lemma_limbs_value_concat(x@.take(i as int), seq![x@[i as int]]);
            assert(seq![x@[i as int]].skip(1) =~= Seq::<u32>::empty());
            assert(limbs_value(seq![x@[i as int]]) == seq![x@[i as int]][0] as nat + 0x1_0000_0000
                * limbs_value(seq![x@[i as int]].skip(1)));
        }
        i = i + 1;
    }
    proof {
        assert(x@.take(x@.len() as int) =~= x@);
    }
    result
}

/// A boolean as a one-limb element: `1` or `0`.
pub fn bool_to_nonnative(b: bool) -> (r: Vec<u32>)
    ensures
        r@.len() == 1,
        limbs_value(r@) == (if b {
            1nat
        } else {
            0nat
        }),
{
    let r: Vec<u32> = if b {
        vec![1u32]
    } else {
        vec![0u32]
    };
    proof {
        assert(r@.skip(1) =~= Seq::<u32>::empty());
        assert(limbs_value(r@) == r@[0] as nat + 0x1_0000_0000 * limbs_value(r@.skip(1)));
    }
    r
}

/// Select the element at the access index out of a list of elements.
pub fn random_access(access_index: usize, v: &Vec<Vec<u32>>) -> (r: Vec<u32>)
    requires
        access_index < v@.len(),
    ensures
        r@ =~= v@[access_index as int]@,
{
    copy_limbs(&v[access_index])
}

} // verus!
