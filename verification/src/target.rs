//! Handles to circuit wires, the multi-limb targets built from them, and the
//! witness store that generators read from and write to. A target is an index
//! into the witness; a limb target semantically holds a 32-bit value, which
//! range checks enforce elsewhere.

use vstd::prelude::*;

verus! {

/// A wire expected to hold one 32-bit limb.
#[derive(Clone, Copy, Debug, PartialEq, Eq, Structural)]
pub struct U32Target(pub usize);

/// A wire expected to hold a boolean (`0` or `1`).
#[derive(Clone, Copy, Debug, PartialEq, Eq, Structural)]
pub struct BoolTarget(pub usize);

/// A multi-limb unsigned integer inside the circuit: little-endian 32-bit
/// limb targets.
#[derive(Clone, Debug)]
pub struct BigUintTarget {
    pub limbs: Vec<U32Target>,
}

/// A foreign-field element inside the circuit: a multi-limb integer that is
/// reduced modulo the foreign prime whenever the gadgets' contracts say so.
#[derive(Clone, Debug)]
pub struct NonNativeTarget {
    pub value: BigUintTarget,
}

/// The wire indices of a multi-limb target, in limb order.
pub open spec fn biguint_indices(b: BigUintTarget) -> Seq<usize> {
    b.limbs@.map_values(|t: U32Target| t.0)
}

/// The witness store: wire values as they become known during proving.
pub struct PartitionWitness {
    pub values: Vec<Option<u64>>,
}

impl PartitionWitness {
    /// The value of a wire, zero when unset.
    pub open spec fn cell(self, t: usize) -> u64 {
        if t < self.values@.len() {
            match self.values@[t as int] {
                Some(v) => v,
                None => 0,
            }
        } else {
            0
        }
    }

    /// Whether a wire has been assigned.
    pub open spec fn is_set(self, t: usize) -> bool {
        t < self.values@.len() && self.values@[t as int] is Some
    }
}

/// All limb wires of a multi-limb target are assigned, each with a value that
/// fits its 32-bit limb.
pub open spec fn biguint_deps_ready(w: PartitionWitness, b: BigUintTarget) -> bool {
    forall|i: int|
        0 <= i < b.limbs@.len() ==> w.is_set(#[trigger] b.limbs@[i].0) && w.cell(b.limbs@[i].0)
            < 0x1_0000_0000
}

/// The limb values a multi-limb target currently holds in the witness.
pub open spec fn read_limbs_spec(w: PartitionWitness, b: BigUintTarget) -> Seq<u32> {
    Seq::new(b.limbs@.len(), |i: int| w.cell(b.limbs@[i].0) as u32)
}

/// Read a multi-limb target out of the witness.
pub fn get_biguint_target(w: &PartitionWitness, b: &BigUintTarget) -> (r: Vec<u32>)
    requires
        biguint_deps_ready(*w, *b),
    ensures
        r@ =~= read_limbs_spec(*w, *b),
{
    let mut r: Vec<u32> = Vec::new();
    let mut i: usize = 0;
    while i < b.limbs.len()
        invariant
            i <= b.limbs@.len(),
            biguint_deps_ready(*w, *b),
            r@.len() == i,
            forall|j: int| 0 <= j < i ==> r@[j] == read_limbs_spec(*w, *b)[j],
        decreases b.limbs@.len() - i,
    {
        let t = b.limbs[i].0;
        let v = w.values[t].unwrap();
        r.push(v as u32);
        i = i + 1;
    }
    r
}

/// The output buffer a generator fills: wire-value pairs, applied to the
/// witness by the surrounding scheduler.
pub struct GeneratedValues {
    pub pairs: Vec<(usize, u64)>,
}

/// The limb values that a run of pairs starting at `start` writes, read back
/// as 32-bit limbs.
pub open spec fn written_limbs(pairs: Seq<(usize, u64)>, start: int, n: int) -> Seq<u32> {
    Seq::new(n as nat, |i: int| pairs[start + i].1 as u32)
}

/// The wire-value pairs that assign the first `n` limbs of `limbs` to the
/// limb wires of `b`, in order.
pub open spec fn limb_pairs(b: BigUintTarget, limbs: Seq<u32>, n: int) -> Seq<(usize, u64)> {
    Seq::new(n as nat, |j: int| (b.limbs@[j].0, limbs[j] as u64))
}

impl GeneratedValues {
    /// An empty output buffer.
    pub fn new() -> (r: GeneratedValues)
        ensures
            r.pairs@.len() == 0,
    {
        GeneratedValues { pairs: Vec::new() }
    }

    /// Record one limb value per limb wire of a multi-limb target, in order.
    pub fn set_biguint_target(&mut self, b: &BigUintTarget, limbs: &Vec<u32>)
        requires
            limbs@.len() == b.limbs@.len(),
        ensures
            final(self).pairs@ =~= old(self).pairs@ + limb_pairs(*b, limbs@, limbs@.len() as int),
            final(self).pairs@.len() == old(self).pairs@.len() + limbs@.len(),
            final(self).pairs@.subrange(0, old(self).pairs@.len() as int) =~= old(self).pairs@,
            forall|i: int|
                0 <= i < limbs@.len() ==> final(self).pairs@[old(self).pairs@.len() + i].0
                    == b.limbs@[i].0 && final(self).pairs@[old(self).pairs@.len() + i].1 == limbs@[i] as u64,
            written_limbs(final(self).pairs@, old(self).pairs@.len() as int, limbs@.len() as int) =~= limbs@,
    {
        let mut i: usize = 0;
        while i < limbs.len()
            invariant
                i <= limbs@.len(),
                limbs@.len() == b.limbs@.len(),
                self.pairs@ =~= old(self).pairs@ + limb_pairs(*b, limbs@, i as int),
            decreases limbs@.len() - i,
        {
            let ghost prev = self.pairs@;
            self.pairs.push((b.limbs[i].0, limbs[i] as u64));
            proof {
                assert(self.pairs@ =~= prev.push((b.limbs@[i as int].0, limbs@[i as int] as u64)));
                assert(self.pairs@ =~= old(self).pairs@ + limb_pairs(*b, limbs@, i + 1));
            }
            i = i + 1;
        }
        proof {
            let n = limbs@.len() as int;
            let start = old(self).pairs@.len() as int;
            assert(self.pairs@.subrange(0, start) =~= old(self).pairs@);
            assert(written_limbs(self.pairs@, start, n) =~= limbs@);
        }
    }

    /// Record a boolean wire value.
    pub fn set_bool_target(&mut self, t: BoolTarget, b: bool)
        ensures
            final(self).pairs@ =~= old(self).pairs@.push((t.0, if b { 1u64 } else { 0u64 })),
    {
        if b {
            self.pairs.push((t.0, 1));
        } else {
            self.pairs.push((t.0, 0));
        }
    }

    /// Record a 32-bit wire value.
    pub fn set_u32_target(&mut self, t: U32Target, v: u32)
        ensures
            final(self).pairs@ =~= old(self).pairs@.push((t.0, v as u64)),
    {
        self.pairs.push((t.0, v as u64));
    }
}

/// Append the wire indices of a multi-limb target to a dependency list.
pub fn push_biguint_indices(out: &mut Vec<usize>, b: &BigUintTarget)
    ensures
        final(out)@ =~= old(out)@ + biguint_indices(*b),
{
    let mut i: usize = 0;
    while i < b.limbs.len()
        invariant
            i <= b.limbs@.len(),
            out@ =~= old(out)@ + biguint_indices(*b).take(i as int),
        decreases b.limbs@.len() - i,
    {
        let ghost prev = out@;
        out.push(b.limbs[i].0);
        proof {
            assert(out@ =~= old(out)@ + biguint_indices(*b).take(i + 1));
        }
        i = i + 1;
    }
    proof {
        assert(biguint_indices(*b).take(b.limbs@.len() as int) =~= biguint_indices(*b));
    }
}

} // verus!
