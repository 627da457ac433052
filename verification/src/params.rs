//! The foreign prime a circuit simulates arithmetic over, given by its
//! little-endian 32-bit limbs. An element of the foreign field is reduced
//! when its value lies in `[0, modulus)`.

use vstd::prelude::*;
use crate::limbs::{limbs_value, normalized, lemma_normalized_lower_bound};

verus! {

/// The foreign prime `p`, held as normalized little-endian 32-bit limbs.
/// `num_limbs` is `ceil(bits(p) / 32)`, which for a normalized sequence is
/// exactly its length.
#[derive(Clone, Debug)]
pub struct FieldParameters {
    pub limbs: Vec<u32>,
}

impl FieldParameters {
    /// The integer value of the modulus.
    pub open spec fn modulus(self) -> nat {
        limbs_value(self.limbs@)
    }

    /// The modulus is normalized and at least two, so that residues exist and
    /// `1` is a residue distinct from `0`.
    pub open spec fn wf(self) -> bool {
        &&& normalized(self.limbs@)
        &&& self.modulus() >= 2
    }

    /// Whether this modulus is well-formed: normalized limbs standing for an
    /// integer of at least two.
    pub fn is_wf(&self) -> (r: bool)
        ensures
            r == self.wf(),
    {
        if self.limbs.len() == 0 {
            return false;
        }
        if self.limbs[self.limbs.len() - 1] == 0 {
            return false;
        }
        if self.limbs.len() == 1 && self.limbs[0] < 2 {
            proof {
                assert(self.limbs@.skip(1) =~= Seq::<u32>::empty());
                assert(limbs_value(self.limbs@) == self.limbs@[0] as nat + 0x1_0000_0000
                    * limbs_value(self.limbs@.skip(1)));
            }
            return false;
        }
        proof {
            if self.limbs@.len() >= 2 {
                lemma_normalized_lower_bound(self.limbs@);
                vstd::arithmetic::power2::lemma2_to64();
                if self.limbs@.len() > 2 {
                    vstd::arithmetic::power2::lemma_pow2_strictly_increases(
                        32,
                        (32 * (self.limbs@.len() - 1)) as nat,
                    );
                }
            } else {
                assert(self.limbs@.skip(1) =~= Seq::<u32>::empty());
            }
        }
        true
    }

    /// Accepts a limb sequence as a modulus when it is normalized and stands
    /// for an integer of at least two.
    pub fn new(limbs: Vec<u32>) -> (r: Option<FieldParameters>)
        ensures
            r matches Some(p) ==> p.wf() && p.limbs@ =~= limbs@,
            r is None ==> !normalized(limbs@) || limbs_value(limbs@) < 2,
    {
        let p = FieldParameters { limbs };
        if p.is_wf() {
            Some(p)
        } else {
            None
        }
    }

    /// The limb count `L` of an element of this field.
    pub fn num_limbs(&self) -> (r: usize)
        ensures
            r == self.limbs@.len(),
    {
        self.limbs.len()
    }
}

/// The number of 32-bit limbs that an element of the field takes.
pub fn num_nonnative_limbs(p: &FieldParameters) -> (r: usize)
    ensures
        r == p.limbs@.len(),
{
    p.num_limbs()
}

/// A limb sequence stands for a reduced element of the field: normalized and
/// below the modulus.
pub open spec fn reduced(e: Seq<u32>, p: FieldParameters) -> bool {
    &&& normalized(e)
    &&& limbs_value(e) < p.modulus()
}

/// Copy a limb vector.
pub fn copy_limbs(v: &Vec<u32>) -> (r: Vec<u32>)
    ensures
        r@ =~= v@,
{
    let mut r: Vec<u32> = Vec::new();
    let mut i: usize = 0;
    while i < v.len()
        invariant
            i <= v.len(),
            r@ =~= v@.subrange(0, i as int),
        decreases v.len() - i,
    {
        r.push(v[i]);
        i = i + 1;
    }
    assert(r@ =~= v@);
    r
}

} // verus!
