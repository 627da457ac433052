//! The variable facade: project a foreign-field value to its fixed count of
//! 32-bit digits, each widened to a native field element, and back; check
//! reducedness; and build element handles over fresh wires.

use vstd::prelude::*;
use crate::limbs::{
    limbs_value, normalized, pad_limbs, limbs_eq, lemma_limbs_value_bound,
    lemma_normalized_len_bound, lemma_normalized_value_injective,
};
use crate::bigint::big_lt;
use crate::params::FieldParameters;
use crate::arith::reduce;
use crate::target::{U32Target, BigUintTarget, NonNativeTarget};

verus! {

/// Project a reduced element to exactly `L` little-endian 32-bit digits,
/// each widened to a native field element.
pub fn elements(x: &Vec<u32>, p: &FieldParameters) -> (r: Vec<u64>)
    requires
        p.wf(),
        normalized(x@),
        limbs_value(x@) < p.modulus(),
    ensures
        r@.len() == p.limbs@.len(),
        forall|i: int| 0 <= i < r@.len() ==> #[trigger] r@[i] < 0x1_0000_0000,
        limbs_value(Seq::new(r@.len(), |i: int| r@[i] as u32)) == limbs_value(x@),
{
    proof {
        lemma_limbs_value_bound(p.limbs@);
        lemma_normalized_len_bound(x@, p.limbs@.len());
    }
    let padded = pad_limbs(x, p.limbs.len());
    let mut r: Vec<u64> = Vec::new();
    let mut i: usize = 0;
    while i < padded.len()
        invariant
            i <= padded@.len(),
            r@.len() == i,
            forall|j: int| 0 <= j < i ==> #[trigger] r@[j] == padded@[j] as u64,
        decreases padded@.len() - i,
    {
        r.push(padded[i] as u64);
        i = i + 1;
    }
    proof {
        assert(Seq::new(r@.len(), |i: int| r@[i] as u32) =~= padded@);
    }
    r
}

/// Reassemble native field elements into a reduced foreign-field value. Each
/// element must fit in 32 bits; the reassembled integer is reduced modulo
/// the foreign prime if it is non-canonical.
pub fn from_elements(es: &Vec<u64>, p: &FieldParameters) -> (r: Option<Vec<u32>>)
    requires
        p.wf(),
    ensures
        (r.is_some() <==> forall|i: int| 0 <= i < es@.len() ==> #[trigger] es@[i] < 0x1_0000_0000),
        r.is_some() ==> normalized(r.unwrap()@) && limbs_value(r.unwrap()@) < p.modulus(),
        r.is_some() ==> limbs_value(r.unwrap()@) == limbs_value(Seq::new(es@.len(), |i: int| es@[i] as u32)) % p.modulus(),
{
    let mut limbs: Vec<u32> = Vec::new();
    let mut i: usize = 0;
    while i < es.len()
        invariant
            i <= es@.len(),
            limbs@.len() == i,
            forall|j: int| 0 <= j < i ==> #[trigger] es@[j] < 0x1_0000_0000,
            forall|j: int| 0 <= j < i ==> #[trigger] limbs@[j] == es@[j] as u32,
        decreases es@.len() - i,
    {
        let e = es[i];
        if e >= 0x1_0000_0000 {
            return None;
        }
        limbs.push(e as u32);
        i = i + 1;
    }
    proof {
        assert(limbs@ =~= Seq::new(es@.len(), |i: int| es@[i] as u32));
    }
    Some(reduce(&limbs, p))
}

/// Whether an element's value is reduced: below the modulus.
pub fn is_reduced(e: &Vec<u32>, p: &FieldParameters) -> (r: bool)
    ensures
        r == (limbs_value(e@) < p.modulus()),
{
    big_lt(e, &p.limbs)
}

/// Whether two reduced elements are equal. Limb-wise equality of normalized
/// sequences coincides with value equality, which is why the equality gadget
/// asks for reduced operands.
pub fn connect_nonnative(a: &Vec<u32>, b: &Vec<u32>) -> (r: bool)
    requires
        normalized(a@),
        normalized(b@),
    ensures
        r == (a@ =~= b@),
        r == (limbs_value(a@) == limbs_value(b@)),
{
    proof {
        if a@ =~= b@ {
        } else if limbs_value(a@) == limbs_value(b@) {
            lemma_normalized_value_injective(a@, b@);
        }
    }
    limbs_eq(a, b)
}

/// The canonical representative of a constant: its value reduced modulo the
/// foreign prime.
pub fn constant_nonnative(x: &Vec<u32>, p: &FieldParameters) -> (r: Vec<u32>)
    requires
        p.wf(),
    ensures
        normalized(r@),
        limbs_value(r@) < p.modulus(),
        limbs_value(r@) == limbs_value(x@) % p.modulus(),
    {
    reduce(x, p)
}

/// Reduce an element of arbitrary value modulo the foreign prime.
pub fn reduce_nonnative(e: &Vec<u32>, p: &FieldParameters) -> (r: Vec<u32>)
    requires
        p.wf(),
    ensures
        normalized(r@),
        limbs_value(r@) < p.modulus(),
        limbs_value(r@) == limbs_value(e@) % p.modulus(),
{
    reduce(e, p)
}

/// Copy a multi-limb target handle.
fn copy_biguint_target(x: &BigUintTarget) -> (r: BigUintTarget)
    ensures
        r.limbs@ =~= x.limbs@,
{
    let mut limbs: Vec<U32Target> = Vec::new();
    let mut i: usize = 0;
    while i < x.limbs.len()
        invariant
            i <= x.limbs@.len(),
            limbs@ =~= x.limbs@.subrange(0, i as int),
        decreases x.limbs@.len() - i,
    {
        limbs.push(x.limbs[i]);
        i = i + 1;
    }
    proof {
        assert(limbs@ =~= x.limbs@);
    }
    BigUintTarget { limbs }
}

/// View a multi-limb target as a foreign-field element handle.
pub fn biguint_to_nonnative(x: &BigUintTarget) -> (r: NonNativeTarget)
    ensures
        r.value.limbs@ =~= x.limbs@,
{
    NonNativeTarget { value: copy_biguint_target(x) }
}

/// View a foreign-field element handle as its multi-limb target.
pub fn nonnative_to_canonical_biguint(x: &NonNativeTarget) -> (r: BigUintTarget)
    ensures
        r.limbs@ =~= x.value.limbs@,
{
    copy_biguint_target(&x.value)
}

/// The zero element.
pub fn zero_nonnative() -> (r: Vec<u32>)
    ensures
        r@.len() == 0,
        limbs_value(r@) == 0,
        normalized(r@),
{
    Vec::new()
}

impl NonNativeTarget {
    /// The wires of this element, in limb order.
    pub fn variables(&self) -> (r: Vec<usize>)
        ensures
            r@ =~= crate::target::biguint_indices(self.value),
    {
        let mut r: Vec<usize> = Vec::new();
        crate::target::push_biguint_indices(&mut r, &self.value);
        r
    }

    /// Reinterpret a run of wires as an element of `num_limbs` limbs, without
    /// any constraint on the value they will hold. The wire count must match.
    pub fn from_variables_unsafe(variables: &Vec<usize>, num_limbs: usize) -> (r: Option<NonNativeTarget>)
        ensures
            (r.is_some() <==> variables@.len() == num_limbs),
            r.is_some() ==> crate::target::biguint_indices(r.unwrap().value) =~= variables@,
    {
        if variables.len() != num_limbs {
            return None;
        }
        let mut limbs: Vec<U32Target> = Vec::new();
        let mut i: usize = 0;
        while i < variables.len()
            invariant
                i <= variables@.len(),
                limbs@.len() == i,
                forall|j: int| 0 <= j < i ==> #[trigger] limbs@[j].0 == variables@[j],
            decreases variables@.len() - i,
        {
            limbs.push(U32Target(variables[i]));
            i = i + 1;
        }
        let t = NonNativeTarget { value: BigUintTarget { limbs } };
        proof {
            assert(crate::target::biguint_indices(t.value) =~= variables@);
        }
        Some(t)
    }

    /// An element over `num_limbs` fresh consecutive wires starting at
    /// `next_wire`: the allocation step of a virtual element.
    pub fn add_virtual(next_wire: usize, num_limbs: usize) -> (r: NonNativeTarget)
        requires
            next_wire + num_limbs <= usize::MAX,
        ensures
            r.value.limbs@.len() == num_limbs,
            forall|i: int| 0 <= i < num_limbs ==> #[trigger] r.value.limbs@[i].0 == next_wire + i,
    {
        let mut limbs: Vec<U32Target> = Vec::new();
        let mut i: usize = 0;
        while i < num_limbs
            invariant
                i <= num_limbs,
                next_wire + num_limbs <= usize::MAX,
                limbs@.len() == i,
                forall|j: int| 0 <= j < i ==> #[trigger] limbs@[j].0 == next_wire + j,
            decreases num_limbs - i,
        {
            limbs.push(U32Target(next_wire + i));
            i = i + 1;
        }
        NonNativeTarget { value: BigUintTarget { limbs } }
    }
}

} // verus!
