//! Out-of-circuit arithmetic for the witness generators: for each operation,
//! compute the reduced result together with the overflow hint that makes the
//! operation's constraint equation close.

use vstd::prelude::*;
use vstd::arithmetic::div_mod::{
    lemma_small_mod, lemma_fundamental_div_mod_converse_mod, lemma_fundamental_div_mod_converse_div,
    lemma_mod_self_0,
};
use vstd::arithmetic::power2::{pow2, lemma2_to64};
use crate::limbs::{
    limbs_value, normalized, lemma_limbs_value_bound, lemma_normalized_len_bound,
};
use crate::bigint::{big_add, big_sub, big_mul, big_div_rem, big_lt, big_modinv};
use crate::params::FieldParameters;

verus! {

/// The sum of the integer values of a sequence of limb vectors.
pub open spec fn sum_values(s: Seq<Vec<u32>>) -> nat
    decreases s.len(),
{
    if s.len() == 0 {
        0
    } else {
        limbs_value(s[0]@) + sum_values(s.skip(1))
    }
}

/// The product of the integer values of a sequence of limb vectors.
pub open spec fn prod_values(s: Seq<Vec<u32>>) -> nat
    decreases s.len(),
{
    if s.len() == 0 {
        1
    } else {
        limbs_value(s[0]@) * prod_values(s.skip(1))
    }
}

/// Appending a limb vector adds its value to the running sum.
pub proof fn lemma_sum_values_push(s: Seq<Vec<u32>>, x: Vec<u32>)
    ensures
        sum_values(s.push(x)) == sum_values(s) + limbs_value(x@),
    decreases s.len(),
{
    if s.len() == 0 {
        assert(s.push(x)[0] == x);
        assert(s.push(x).skip(1) =~= Seq::<Vec<u32>>::empty());
        assert(sum_values(Seq::<Vec<u32>>::empty()) == 0);
        assert(sum_values(s.push(x)) == limbs_value(s.push(x)[0]@) + sum_values(s.push(x).skip(1)));
        assert(sum_values(s) == 0);
    } else {
        assert(s.push(x).skip(1) =~= s.skip(1).push(x));
        lemma_sum_values_push(s.skip(1), x);
        assert(s.push(x)[0] == s[0]);
        assert(sum_values(s.push(x)) == limbs_value(s.push(x)[0]@) + sum_values(s.push(x).skip(1)));
        assert(sum_values(s) == limbs_value(s[0]@) + sum_values(s.skip(1)));
    }
}

/// Appending a limb vector multiplies the running product by its value.
pub proof fn lemma_prod_values_push(s: Seq<Vec<u32>>, x: Vec<u32>)
    ensures
        prod_values(s.push(x)) == prod_values(s) * limbs_value(x@),
    decreases s.len(),
{
    if s.len() == 0 {
        assert(s.push(x)[0] == x);
        assert(s.push(x).skip(1) =~= Seq::<Vec<u32>>::empty());
        assert(prod_values(Seq::<Vec<u32>>::empty()) == 1);
        assert(prod_values(s.push(x)) == limbs_value(s.push(x)[0]@) * prod_values(
            s.push(x).skip(1),
        ));
        assert(prod_values(s) == 1);
        assert(prod_values(s.push(x)) == limbs_value(x@) * 1);
    } else {
        assert(s.push(x).skip(1) =~= s.skip(1).push(x));
        lemma_prod_values_push(s.skip(1), x);
        assert(s.push(x)[0] == s[0]);
        assert(prod_values(s.push(x)) == limbs_value(s.push(x)[0]@) * prod_values(
            s.push(x).skip(1),
        ));
        assert(prod_values(s) == limbs_value(s[0]@) * prod_values(s.skip(1)));
        assert(limbs_value(s[0]@) * (prod_values(s.skip(1)) * limbs_value(x@)) == (limbs_value(
            s[0]@,
        ) * prod_values(s.skip(1))) * limbs_value(x@)) by (nonlinear_arith);
    }
}

/// Witness arithmetic for addition: the reduced sum of two reduced elements,
/// and whether one subtraction of the modulus was needed.
pub fn add_witness(a: &Vec<u32>, b: &Vec<u32>, p: &FieldParameters) -> (r: (Vec<u32>, bool))
    requires
        p.wf(),
        limbs_value(a@) < p.modulus(),
        limbs_value(b@) < p.modulus(),
    ensures
        normalized(r.0@),
        limbs_value(r.0@) < p.modulus(),
        limbs_value(r.0@) == (limbs_value(a@) + limbs_value(b@)) % p.modulus(),
        limbs_value(r.0@) + (if r.1 { p.modulus() } else { 0nat }) == limbs_value(a@) + limbs_value(b@),
        r.1 == (limbs_value(a@) + limbs_value(b@) >= p.modulus()),
{
    let s = big_add(a, b);
    if big_lt(&s, &p.limbs) {
        proof {
            lemma_small_mod(limbs_value(s@), p.modulus());
        }
        (s, false)
    } else {
        let reduced_sum = big_sub(&s, &p.limbs);
        proof {
            lemma_fundamental_div_mod_converse_mod(
                (limbs_value(a@) + limbs_value(b@)) as int,
                p.modulus() as int,
                1,
                limbs_value(reduced_sum@) as int,
            );
        }
        (reduced_sum, true)
    }
}

/// Witness arithmetic for subtraction: the reduced difference of two reduced
/// elements, and whether the modulus had to be borrowed.
pub fn sub_witness(a: &Vec<u32>, b: &Vec<u32>, p: &FieldParameters) -> (r: (Vec<u32>, bool))
    requires
        p.wf(),
        limbs_value(a@) < p.modulus(),
        limbs_value(b@) < p.modulus(),
    ensures
        normalized(r.0@),
        limbs_value(r.0@) < p.modulus(),
        limbs_value(r.0@) + limbs_value(b@) == limbs_value(a@) + (if r.1 { p.modulus() } else { 0nat }),
        r.1 == (limbs_value(a@) < limbs_value(b@)),
        limbs_value(r.0@) == (limbs_value(a@) + p.modulus() - limbs_value(b@)) % (p.modulus() as int),
        limbs_value(b@) <= limbs_value(a@) ==> limbs_value(r.0@) == limbs_value(a@) - limbs_value(b@),
{
    if big_lt(a, b) {
        let t = big_add(a, &p.limbs);
        let d = big_sub(&t, b);
        proof {
            lemma_small_mod(limbs_value(d@), p.modulus());
        }
        (d, true)
    } else {
        let d = big_sub(a, b);
        proof {
            lemma_fundamental_div_mod_converse_mod(
                (limbs_value(a@) + p.modulus() - limbs_value(b@)) as int,
                p.modulus() as int,
                1,
                limbs_value(d@) as int,
            );
        }
        (d, false)
    }
}

/// Witness arithmetic for negation: `sub(0, x)`, so `0` stays `0` and any
/// other reduced element maps to `modulus - x`.
pub fn neg_witness(x: &Vec<u32>, p: &FieldParameters) -> (r: (Vec<u32>, bool))
    requires
        p.wf(),
        limbs_value(x@) < p.modulus(),
    ensures
        normalized(r.0@),
        limbs_value(r.0@) < p.modulus(),
        limbs_value(r.0@) == (p.modulus() - limbs_value(x@)) % (p.modulus() as int),
        limbs_value(x@) == 0 ==> limbs_value(r.0@) == 0,
        limbs_value(x@) != 0 ==> limbs_value(r.0@) == p.modulus() - limbs_value(x@),
        r.1 == (limbs_value(x@) != 0),
{
    let zero: Vec<u32> = Vec::new();
    let r = sub_witness(&zero, x, p);
    proof {
        if limbs_value(x@) == 0 {
            lemma_mod_self_0(p.modulus() as int);
        } else {
            lemma_small_mod((p.modulus() - limbs_value(x@)) as nat, p.modulus());
        }
    }
    r
}

/// Witness arithmetic for multiplication: the reduced product of two reduced
/// elements, and the quotient by the modulus as the overflow hint. The
/// overflow is itself below the modulus and so fits in the modulus' limb span.
pub fn mul_witness(a: &Vec<u32>, b: &Vec<u32>, p: &FieldParameters) -> (r: (Vec<u32>, Vec<u32>))
    requires
        p.wf(),
        limbs_value(a@) < p.modulus(),
        limbs_value(b@) < p.modulus(),
    ensures
        normalized(r.0@),
        normalized(r.1@),
        limbs_value(r.0@) < p.modulus(),
        limbs_value(r.0@) == (limbs_value(a@) * limbs_value(b@)) % p.modulus(),
        limbs_value(r.1@) == (limbs_value(a@) * limbs_value(b@)) / p.modulus(),
        limbs_value(a@) * limbs_value(b@) == limbs_value(r.0@) + limbs_value(r.1@) * p.modulus(),
        limbs_value(r.1@) < p.modulus(),
        r.1@.len() <= p.limbs@.len(),
{
    let prod_full = big_mul(a, b);
    let (q, rem) = big_div_rem(&prod_full, &p.limbs);
    proof {
        let va = limbs_value(a@);
        let vb = limbs_value(b@);
        let m = p.modulus();
        let vq = limbs_value(q@);
        let vr = limbs_value(rem@);
        lemma_fundamental_div_mod_converse_mod((va * vb) as int, m as int, vq as int, vr as int);
        lemma_fundamental_div_mod_converse_div((va * vb) as int, m as int, vq as int, vr as int);
        assert(vq < m) by (nonlinear_arith)
            requires
                vq * m + vr == va * vb,
                va < m,
                vb < m,
                vr >= 0,
                m >= 2,
        {}
        lemma_limbs_value_bound(p.limbs@);
        lemma_normalized_len_bound(q@, p.limbs@.len());
    }
    (rem, q)
}

/// Witness arithmetic for inversion: the modular inverse of a reduced element
/// together with the quotient hint `div` such that `x * inv = div * p + 1`.
/// `None` exactly when no inverse exists; in particular `0` has none.
pub fn inv_witness(x: &Vec<u32>, p: &FieldParameters) -> (r: Option<(Vec<u32>, Vec<u32>)>)
    requires
        p.wf(),
        limbs_value(x@) < p.modulus(),
    ensures
        (r.is_some() ==> normalized(r.unwrap().0@) && limbs_value(r.unwrap().0@) < p.modulus()),
        (r.is_some() ==> (limbs_value(x@) * limbs_value(r.unwrap().0@)) % p.modulus() == 1),
        (r.is_some() ==> limbs_value(x@) * limbs_value(r.unwrap().0@) == limbs_value(r.unwrap().1@) * p.modulus() + 1),
        (r.is_some() ==> normalized(r.unwrap().1@) && limbs_value(r.unwrap().1@) < p.modulus() && r.unwrap().1@.len() <= p.limbs@.len()),
        (r.is_none() ==> forall|j: nat| j < p.modulus() ==> #[trigger] ((limbs_value(x@) * j) % p.modulus()) != 1),
        ((exists|j: nat| j < p.modulus() && #[trigger] ((limbs_value(x@) * j) % p.modulus()) == 1) ==> r.is_some()),
        (limbs_value(x@) == 0 ==> r.is_none()),
{
    match big_modinv(x, &p.limbs) {
        None => None,
        Some(i) => {
            let prod = big_mul(x, &i);
            let (d, rem) = big_div_rem(&prod, &p.limbs);
            proof {
                let vx = limbs_value(x@);
                let vi = limbs_value(i@);
                let m = p.modulus();
                let vd = limbs_value(d@);
                let vr = limbs_value(rem@);
                lemma_fundamental_div_mod_converse_mod(
                    (vx * vi) as int,
                    m as int,
                    vd as int,
                    vr as int,
                );
                assert(vr == (vx * vi) % m);
                assert(vr == 1);
                assert(vd < m) by (nonlinear_arith)
                    requires
                        vd * m + vr == vx * vi,
                        vx < m,
                        vi < m,
                        vr >= 0,
                        m >= 2,
                {}
                lemma_limbs_value_bound(p.limbs@);
                lemma_normalized_len_bound(d@, p.limbs@.len());
                if vx == 0 {
                    assert(vx * vi == 0) by (nonlinear_arith)
                        requires
                            vx == 0,
                    {}
                    lemma_small_mod(0, m);
                    assert(false);
                }
            }
            Some((i, d))
        },
    }
}

/// Witness arithmetic for the many-operand sum: the reduced sum of up to
/// `2^32` reduced summands, with the quotient by the modulus materialized in
/// a single 32-bit overflow limb.
pub fn multi_add_witness(summands: &Vec<Vec<u32>>, p: &FieldParameters) -> (r: (Vec<u32>, u32))
    requires
        p.wf(),
        summands@.len() <= 0x1_0000_0000,
        forall|i: int| 0 <= i < summands@.len() ==> limbs_value(#[trigger] summands@[i]@) < p.modulus(),
    ensures
        normalized(r.0@),
        limbs_value(r.0@) < p.modulus(),
        limbs_value(r.0@) == sum_values(summands@) % p.modulus(),
        r.1 as nat == sum_values(summands@) / p.modulus(),
        limbs_value(r.0@) + (r.1 as nat) * p.modulus() == sum_values(summands@),
{
    let mut acc: Vec<u32> = Vec::new();
    let mut i: usize = 0;
    proof {
        assert(summands@.take(0) =~= Seq::<Vec<u32>>::empty());
    }
    while i < summands.len()
        invariant
            i <= summands@.len(),
            p.wf(),
            summands@.len() <= 0x1_0000_0000,
            forall|k: int| 0 <= k < summands@.len() ==> limbs_value(#[trigger] summands@[k]@) < p.modulus(),
            limbs_value(acc@) == sum_values(summands@.take(i as int)),
            limbs_value(acc@) + i <= i * p.modulus(),
        decreases summands@.len() - i,
    {
        let ghost prev = limbs_value(acc@);
        acc = big_add(&acc, &summands[i]);
        proof {
            assert(summands@.take(i + 1) =~= summands@.take(i as int).push(summands@[i as int]));
            lemma_sum_values_push(summands@.take(i as int), summands@[i as int]);
            assert(limbs_value(acc@) + (i + 1) <= (i + 1) * p.modulus()) by (nonlinear_arith)
                requires
                    limbs_value(acc@) == prev + limbs_value(summands@[i as int]@),
                    limbs_value(summands@[i as int]@) < p.modulus(),
                    prev + i <= i * p.modulus(),
            {}
        }
        i = i + 1;
    }
    proof {
        assert(summands@.take(summands@.len() as int) =~= summands@);
    }
    let (q, rem) = big_div_rem(&acc, &p.limbs);
    proof {
        let s = limbs_value(acc@);
        let m = p.modulus();
        let vq = limbs_value(q@);
        let vr = limbs_value(rem@);
        lemma_fundamental_div_mod_converse_mod(s as int, m as int, vq as int, vr as int);
        lemma_fundamental_div_mod_converse_div(s as int, m as int, vq as int, vr as int);
        assert(vq < 0x1_0000_0000) by (nonlinear_arith)
            requires
                vq * m + vr == s,
                vr >= 0,
                s + summands@.len() <= summands@.len() * m,
                summands@.len() <= 0x1_0000_0000,
                m >= 2,
        {}
        lemma2_to64();
        assert(pow2(32) == 0x1_0000_0000);
        lemma_normalized_len_bound(q@, 1);
    }
    let q32: u32 = if q.len() == 0 {
        proof {
            assert(limbs_value(q@) == 0);
        }
        0
    } else {
        proof {
            assert(q@.skip(1) =~= Seq::<u32>::empty());
            assert(limbs_value(q@) == q@[0] as nat + 0x1_0000_0000 * limbs_value(q@.skip(1)));
        }
        q[0]
    };
    (rem, q32)
}

/// Modular reduction of an arbitrary multi-limb integer: `x mod p`.
pub fn reduce(x: &Vec<u32>, p: &FieldParameters) -> (r: Vec<u32>)
    requires
        p.wf(),
    ensures
        normalized(r@),
        limbs_value(r@) < p.modulus(),
        limbs_value(r@) == limbs_value(x@) % p.modulus(),
{
    let (q, rem) = big_div_rem(x, &p.limbs);
    proof {
        lemma_fundamental_div_mod_converse_mod(
            limbs_value(x@) as int,
            p.modulus() as int,
            limbs_value(q@) as int,
            limbs_value(rem@) as int,
        );
    }
    rem
}

} // verus!
