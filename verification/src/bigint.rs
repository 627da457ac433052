//! Trusted bridge to `num`'s unsigned big integers.
//!
//! Every multi-precision number crossing this boundary travels as a vector of
//! little-endian 32-bit limbs; `limbs_value` says which integer it stands for.

use vstd::prelude::*;
use crate::limbs::{limbs_value, normalized};

verus! {

/// Relies on `num::BigUint`: `from_slice` reads little-endian base-2^32
/// digits, `+` adds the two integers, and `to_u32_digits` writes the result
/// back as little-endian digits with no leading zero digit.
#[verifier::external_body]
pub(crate) fn big_add(a: &Vec<u32>, b: &Vec<u32>) -> (r: Vec<u32>)
    ensures
        normalized(r@),
        limbs_value(r@) == limbs_value(a@) + limbs_value(b@),
{
    (num::BigUint::from_slice(a) + num::BigUint::from_slice(b)).to_u32_digits()
}

/// Relies on `num::BigUint`: `-` subtracts the two integers and panics when
/// the subtrahend is larger, which the precondition rules out.
#[verifier::external_body]
pub(crate) fn big_sub(a: &Vec<u32>, b: &Vec<u32>) -> (r: Vec<u32>)
    requires
        limbs_value(b@) <= limbs_value(a@),
    ensures
        normalized(r@),
        limbs_value(r@) == limbs_value(a@) - limbs_value(b@),
{
    (num::BigUint::from_slice(a) - num::BigUint::from_slice(b)).to_u32_digits()
}

/// Relies on `num::BigUint`: `*` multiplies the two integers.
#[verifier::external_body]
pub(crate) fn big_mul(a: &Vec<u32>, b: &Vec<u32>) -> (r: Vec<u32>)
    ensures
        normalized(r@),
        limbs_value(r@) == limbs_value(a@) * limbs_value(b@),
{
    (num::BigUint::from_slice(a) * num::BigUint::from_slice(b)).to_u32_digits()
}

/// Relies on `num::Integer::div_rem` for `BigUint`: Euclidean division,
/// returning quotient and remainder; it panics on a zero divisor, which the
/// precondition rules out.
#[verifier::external_body]
pub(crate) fn big_div_rem(a: &Vec<u32>, m: &Vec<u32>) -> (r: (Vec<u32>, Vec<u32>))
    requires
        limbs_value(m@) > 0,
    ensures
        normalized(r.0@),
        normalized(r.1@),
        limbs_value(a@) == limbs_value(r.0@) * limbs_value(m@) + limbs_value(r.1@),
        limbs_value(r.1@) < limbs_value(m@),
{
    let (q, rem) = num::Integer::div_rem(
        &num::BigUint::from_slice(a),
        &num::BigUint::from_slice(m),
    );
    (q.to_u32_digits(), rem.to_u32_digits())
}

/// Relies on `num::BigUint`'s `Ord`, which orders by integer value.
#[verifier::external_body]
pub(crate) fn big_lt(a: &Vec<u32>, b: &Vec<u32>) -> (r: bool)
    ensures
        r == (limbs_value(a@) < limbs_value(b@)),
{
    num::BigUint::from_slice(a) < num::BigUint::from_slice(b)
}

/// Relies on `num::BigUint::modinv`: it solves for `i` in `[0, modulus)` with
/// `x * i = 1 (mod modulus)` and returns `Some` exactly when such an inverse
/// exists; it panics on a zero modulus, which the precondition rules out.
#[verifier::external_body]
pub(crate) fn big_modinv(x: &Vec<u32>, m: &Vec<u32>) -> (r: Option<Vec<u32>>)
    requires
        limbs_value(m@) >= 2,
    ensures
        (r.is_some() ==> normalized(r.unwrap()@) && limbs_value(r.unwrap()@) < limbs_value(m@)),
        (r.is_some() ==> (limbs_value(x@) * limbs_value(r.unwrap()@)) % limbs_value(m@) == 1),
        (r.is_none() ==> forall|j: nat| j < limbs_value(m@) ==> #[trigger] ((limbs_value(x@) * j) % limbs_value(m@)) != 1),
{
    match num::BigUint::from_slice(x).modinv(&num::BigUint::from_slice(m)) {
        Some(i) => Some(i.to_u32_digits()),
        None => None,
    }
}

} // verus!
