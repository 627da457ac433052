//! Constraint schemas: for each operation, the algebraic identity that the
//! circuit enforces over the operation's targets, as a predicate on the
//! witnessed integer values. A satisfying witness pins the result down to the
//! unique reduced representative (soundness lemmas), and a witness that lies
//! about the overflow or hands back an unreduced result falsifies the
//! predicate.

use vstd::prelude::*;
use vstd::arithmetic::div_mod::{
    lemma_fundamental_div_mod_converse_mod, lemma_fundamental_div_mod_converse_div,
};
use crate::limbs::limbs_value;
use crate::bigint::{big_add, big_mul, big_lt};
use crate::params::{FieldParameters, copy_limbs};
use crate::arith::sum_values;

verus! {

/// The addition constraints: `a + b = sum + overflow * m`, `overflow` is
/// boolean, and `sum` is reduced.
pub open spec fn add_schema_holds(a: nat, b: nat, sum: nat, overflow: bool, m: nat) -> bool {
    &&& a + b == sum + (if overflow { m } else { 0nat })
    &&& sum < m
}

/// The many-operand addition constraints: `total = sum + overflow * m` with a
/// reduced `sum` and the overflow held by one range-checked 32-bit limb.
pub open spec fn multi_add_schema_holds(total: nat, sum: nat, overflow: nat, m: nat) -> bool {
    &&& total == sum + overflow * m
    &&& sum < m
    &&& overflow < 0x1_0000_0000
}

/// The subtraction constraints: `diff + b = a + overflow * m`, `overflow` is
/// boolean, and `diff` is reduced.
pub open spec fn sub_schema_holds(a: nat, b: nat, diff: nat, overflow: bool, m: nat) -> bool {
    &&& diff + b == a + (if overflow { m } else { 0nat })
    &&& diff < m
}

/// The multiplication constraints: `a * b = prod + overflow * m` with a
/// reduced `prod`.
pub open spec fn mul_schema_holds(a: nat, b: nat, prod: nat, overflow: nat, m: nat) -> bool {
    &&& a * b == prod + overflow * m
    &&& prod < m
}

/// The inversion constraint: `x * inv = quotient * m + 1`.
pub open spec fn inv_schema_holds(x: nat, inv: nat, quotient: nat, m: nat) -> bool {
    x * inv == quotient * m + 1
}

/// Soundness of addition: any witness satisfying the schema carries the
/// reduced representative of `a + b`.
pub proof fn lemma_add_schema_sound(a: nat, b: nat, sum: nat, overflow: bool, m: nat)
    requires
        m >= 2,
        add_schema_holds(a, b, sum, overflow, m),
    ensures
        sum == (a + b) % m,
{
    lemma_fundamental_div_mod_converse_mod(
        (a + b) as int,
        m as int,
        if overflow { 1int } else { 0int },
        sum as int,
    );
}

/// A witness that claims no overflow while `a + b` wrapped cannot satisfy the
/// addition schema: the schema forces `overflow = 1` there.
pub proof fn lemma_add_overflow_required(a: nat, b: nat, sum: nat, overflow: bool, m: nat)
    requires
        m >= 2,
        a + b >= m,
        add_schema_holds(a, b, sum, overflow, m),
    ensures
        overflow,
{
}

/// A witness that hands back an unreduced sum cannot satisfy the addition
/// schema.
pub proof fn lemma_add_unreduced_rejected(a: nat, b: nat, sum: nat, overflow: bool, m: nat)
    requires
        sum >= m,
    ensures
        !add_schema_holds(a, b, sum, overflow, m),
{
}

/// Soundness of the many-operand addition: the witnessed sum and overflow are
/// the remainder and quotient of the total by the modulus.
pub proof fn lemma_multi_add_schema_sound(total: nat, sum: nat, overflow: nat, m: nat)
    requires
        m >= 2,
        multi_add_schema_holds(total, sum, overflow, m),
    ensures
        sum == total % m,
        overflow == total / m,
{
    lemma_fundamental_div_mod_converse_mod(total as int, m as int, overflow as int, sum as int);
    lemma_fundamental_div_mod_converse_div(total as int, m as int, overflow as int, sum as int);
}

/// Soundness of subtraction: for reduced inputs, a satisfying witness carries
/// the reduced representative of `a - b`, and the overflow is exactly the
/// borrow bit.
pub proof fn lemma_sub_schema_sound(a: nat, b: nat, diff: nat, overflow: bool, m: nat)
    requires
        m >= 2,
        a < m,
        b < m,
        sub_schema_holds(a, b, diff, overflow, m),
    ensures
        diff == (a + m - b) % (m as int),
        overflow == (a < b),
{
    lemma_fundamental_div_mod_converse_mod(
        (a + m - b) as int,
        m as int,
        if overflow { 0int } else { 1int },
        diff as int,
    );
}

/// Soundness of multiplication: a satisfying witness carries the reduced
/// representative of `a * b`, and the overflow is the quotient by the modulus.
pub proof fn lemma_mul_schema_sound(a: nat, b: nat, prod: nat, overflow: nat, m: nat)
    requires
        m >= 2,
        mul_schema_holds(a, b, prod, overflow, m),
    ensures
        prod == (a * b) % m,
        overflow == (a * b) / m,
{
    lemma_fundamental_div_mod_converse_mod((a * b) as int, m as int, overflow as int, prod as int);
    lemma_fundamental_div_mod_converse_div((a * b) as int, m as int, overflow as int, prod as int);
}

/// Soundness of inversion: a satisfying witness carries a modular inverse of
/// `x`, which in particular forces `x` and `inv` away from zero.
pub proof fn lemma_inv_schema_sound(x: nat, inv: nat, quotient: nat, m: nat)
    requires
        m >= 2,
        inv_schema_holds(x, inv, quotient, m),
    ensures
        (x * inv) % m == 1,
        x != 0,
        inv != 0,
{
    lemma_fundamental_div_mod_converse_mod(
        (x * inv) as int,
        m as int,
        quotient as int,
        1int,
    );
    if x == 0 || inv == 0 {
        assert(x * inv == 0) by (nonlinear_arith)
            requires
                x == 0 || inv == 0,
        {}
        assert(quotient * m + 1 >= 1) by (nonlinear_arith)
            requires
                m >= 2,
        {}
    }
}

/// A witness that supplies `inv = 0` (for any `x`), or any witness for
/// `x = 0`, cannot satisfy the inversion schema.
pub proof fn lemma_inv_zero_rejected(x: nat, inv: nat, quotient: nat, m: nat)
    requires
        m >= 2,
        x == 0 || inv == 0,
    ensures
        !inv_schema_holds(x, inv, quotient, m),
{
    if inv_schema_holds(x, inv, quotient, m) {
        lemma_inv_schema_sound(x, inv, quotient, m);
    }
}

/// Whether two limb vectors stand for the same integer.
pub fn value_eq(a: &Vec<u32>, b: &Vec<u32>) -> (r: bool)
    ensures
        r == (limbs_value(a@) == limbs_value(b@)),
{
    !big_lt(a, b) && !big_lt(b, a)
}

/// Evaluate the addition schema on concrete witness values.
pub fn check_add_schema(a: &Vec<u32>, b: &Vec<u32>, sum: &Vec<u32>, overflow: bool, p: &FieldParameters) -> (r: bool)
    requires
        p.wf(),
    ensures
        r == add_schema_holds(limbs_value(a@), limbs_value(b@), limbs_value(sum@), overflow, p.modulus()),
{
    let lhs = big_add(a, b);
    let rhs = if overflow {
        big_add(sum, &p.limbs)
    } else {
        copy_limbs(sum)
    };
    let eq = value_eq(&lhs, &rhs);
    let red = big_lt(sum, &p.limbs);
    eq && red
}

/// Evaluate the subtraction schema on concrete witness values.
pub fn check_sub_schema(a: &Vec<u32>, b: &Vec<u32>, diff: &Vec<u32>, overflow: bool, p: &FieldParameters) -> (r: bool)
    requires
        p.wf(),
    ensures
        r == sub_schema_holds(limbs_value(a@), limbs_value(b@), limbs_value(diff@), overflow, p.modulus()),
{
    let lhs = big_add(diff, b);
    let rhs = if overflow {
        big_add(a, &p.limbs)
    } else {
        copy_limbs(a)
    };
    let eq = value_eq(&lhs, &rhs);
    let red = big_lt(diff, &p.limbs);
    eq && red
}

/// Evaluate the multiplication schema on concrete witness values.
pub fn check_mul_schema(a: &Vec<u32>, b: &Vec<u32>, prod: &Vec<u32>, overflow: &Vec<u32>, p: &FieldParameters) -> (r: bool)
    requires
        p.wf(),
    ensures
        r == mul_schema_holds(limbs_value(a@), limbs_value(b@), limbs_value(prod@), limbs_value(overflow@), p.modulus()),
{
    let lhs = big_mul(a, b);
    let shifted = big_mul(overflow, &p.limbs);
    let rhs = big_add(prod, &shifted);
    let eq = value_eq(&lhs, &rhs);
    let red = big_lt(prod, &p.limbs);
    eq && red
}

/// Evaluate the inversion schema on concrete witness values.
pub fn check_inv_schema(x: &Vec<u32>, inv: &Vec<u32>, quotient: &Vec<u32>, p: &FieldParameters) -> (r: bool)
    requires
        p.wf(),
    ensures
        r == inv_schema_holds(limbs_value(x@), limbs_value(inv@), limbs_value(quotient@), p.modulus()),
{
    let lhs = big_mul(x, inv);
    let shifted = big_mul(quotient, &p.limbs);
    let one: Vec<u32> = vec![1u32];
    proof {
        assert(one@.skip(1) =~= Seq::<u32>::empty());
        assert(limbs_value(one@) == one@[0] as nat + 0x1_0000_0000 * limbs_value(one@.skip(1)));
    }
    let rhs = big_add(&shifted, &one);
    value_eq(&lhs, &rhs)
}

/// Evaluate the many-operand addition schema on concrete witness values.
pub fn check_multi_add_schema(summands: &Vec<Vec<u32>>, sum: &Vec<u32>, overflow: u32, p: &FieldParameters) -> (r: bool)
    requires
        p.wf(),
    ensures
        r == multi_add_schema_holds(sum_values(summands@), limbs_value(sum@), overflow as nat, p.modulus()),
{
    let mut total: Vec<u32> = Vec::new();
    let mut i: usize = 0;
    proof {
        assert(summands@.take(0) =~= Seq::<Vec<u32>>::empty());
    }
    while i < summands.len()
        invariant
            i <= summands@.len(),
            limbs_value(total@) == sum_values(summands@.take(i as int)),
        decreases summands@.len() - i,
    {
        total = big_add(&total, &summands[i]);
        proof {
            assert(summands@.take(i + 1) =~= summands@.take(i as int).push(summands@[i as int]));
            crate::arith::lemma_sum_values_push(summands@.take(i as int), summands@[i as int]);
        }
        i = i + 1;
    }
    proof {
        assert(summands@.take(summands@.len() as int) =~= summands@);
    }
    let overflow_limbs: Vec<u32> = vec![overflow];
    proof {
        assert(overflow_limbs@.skip(1) =~= Seq::<u32>::empty());
        assert(limbs_value(overflow_limbs@) == overflow_limbs@[0] as nat + 0x1_0000_0000
            * limbs_value(overflow_limbs@.skip(1)));
    }
    let shifted = big_mul(&overflow_limbs, &p.limbs);
    let rhs = big_add(sum, &shifted);
    let eq = value_eq(&total, &rhs);
    let red = big_lt(sum, &p.limbs);
    eq && red
}

} // verus!
