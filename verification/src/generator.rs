//! The witness generators, one record per operation instance. Each owns the
//! input and output handles of its operation, declares the input limb wires
//! as dependencies, and fires once: it reads the inputs from the witness and
//! fills the result and overflow wires so that the operation's constraint
//! schema is satisfied.

use vstd::prelude::*;
use crate::limbs::{
    limbs_value, lemma_limbs_value_bound, lemma_normalized_len_bound,
};
use crate::params::FieldParameters;
use crate::arith::{
    add_witness, sub_witness, mul_witness, multi_add_witness, inv_witness, sum_values,
};
use crate::limbs::pad_limbs;
use crate::target::{
    U32Target, BoolTarget, BigUintTarget, NonNativeTarget, PartitionWitness, GeneratedValues,
    biguint_indices, biguint_deps_ready, read_limbs_spec, written_limbs, get_biguint_target,
    push_biguint_indices,
};
use crate::schema::{
    add_schema_holds, sub_schema_holds, mul_schema_holds, multi_add_schema_holds, inv_schema_holds,
};

verus! {

/// The witnessed value of a multi-limb target.
pub open spec fn read_value(w: PartitionWitness, b: BigUintTarget) -> nat {
    limbs_value(read_limbs_spec(w, b))
}

/// The wire indices of a list of elements, concatenated in order.
pub open spec fn summands_indices(s: Seq<NonNativeTarget>) -> Seq<usize>
    decreases s.len(),
{
    if s.len() == 0 {
        Seq::empty()
    } else {
        biguint_indices(s[0].value) + summands_indices(s.skip(1))
    }
}

proof fn lemma_summands_indices_push(s: Seq<NonNativeTarget>, x: NonNativeTarget)
    ensures
        summands_indices(s.push(x)) =~= summands_indices(s) + biguint_indices(x.value),
    decreases s.len(),
{
    if s.len() == 0 {
        assert(s.push(x)[0] == x);
        assert(s.push(x).skip(1) =~= Seq::<NonNativeTarget>::empty());
        assert(summands_indices(s.push(x)) == biguint_indices(s.push(x)[0].value)
            + summands_indices(s.push(x).skip(1)));
        assert(summands_indices(s) =~= Seq::<usize>::empty());
    } else {
        assert(s.push(x).skip(1) =~= s.skip(1).push(x));
        lemma_summands_indices_push(s.skip(1), x);
        assert(s.push(x)[0] == s[0]);
        assert(summands_indices(s.push(x)) == biguint_indices(s.push(x)[0].value)
            + summands_indices(s.push(x).skip(1)));
        assert(summands_indices(s) == biguint_indices(s[0].value) + summands_indices(s.skip(1)));
    }
}

/// The total of the witnessed values of a list of elements.
pub open spec fn read_values_total(w: PartitionWitness, s: Seq<NonNativeTarget>) -> nat
    decreases s.len(),
{
    if s.len() == 0 {
        0
    } else {
        read_value(w, s[0].value) + read_values_total(w, s.skip(1))
    }
}

proof fn lemma_read_values_total_matches(vals: Seq<Vec<u32>>, w: PartitionWitness, s: Seq<NonNativeTarget>)
    requires
        vals.len() == s.len(),
        forall|i: int| 0 <= i < s.len() ==> #[trigger] vals[i]@ =~= read_limbs_spec(w, s[i].value),
    ensures
        sum_values(vals) == read_values_total(w, s),
    decreases s.len(),
{
    if s.len() > 0 {
        assert(vals[0]@ =~= read_limbs_spec(w, s[0].value));
        assert(forall|i: int|
            0 <= i < s.skip(1).len() ==> #[trigger] vals.skip(1)[i]@ =~= read_limbs_spec(
                w,
                s.skip(1)[i].value,
            )) by {
            assert(forall|i: int|
                0 <= i < s.skip(1).len() ==> vals.skip(1)[i] == vals[i + 1] && s.skip(1)[i]
                    == s[i + 1]);
        }
        lemma_read_values_total_matches(vals.skip(1), w, s.skip(1));
    }
}

/// The generator for one addition: `a, b -> sum, overflow`.
#[derive(Clone, Debug)]
pub struct NonNativeAdditionGenerator {
    pub a: NonNativeTarget,
    pub b: NonNativeTarget,
    pub sum: NonNativeTarget,
    pub overflow: BoolTarget,
}

impl NonNativeAdditionGenerator {
    /// The stable identifier this generator serializes under.
    pub fn id() -> (r: &'static str)
        ensures
            r@ == "NonNativeAdditionGenerator"@,
    {
        "NonNativeAdditionGenerator"
    }

    /// The generator may fire: its input wires are assigned reduced values,
    /// and its output element spans at least the modulus' limbs.
    pub open spec fn ready(self, w: PartitionWitness, p: FieldParameters) -> bool {
        &&& p.wf()
        &&& biguint_deps_ready(w, self.a.value)
        &&& biguint_deps_ready(w, self.b.value)
        &&& read_value(w, self.a.value) < p.modulus()
        &&& read_value(w, self.b.value) < p.modulus()
        &&& self.sum.value.limbs@.len() >= p.limbs@.len()
    }

    /// What one firing appends to the output buffer: one value per sum limb
    /// wire and then the overflow bit, together satisfying the addition
    /// schema, so the sum wires carry the reduced sum of the inputs.
    pub open spec fn output_ok(self, w: PartitionWitness, p: FieldParameters, prior: Seq<(usize, u64)>, now: Seq<(usize, u64)>) -> bool {
        let n = self.sum.value.limbs@.len() as int;
        let start = prior.len() as int;
        let written = limbs_value(written_limbs(now, start, n));
        &&& now.len() == start + n + 1
        &&& now.subrange(0, start) =~= prior
        &&& (forall|i: int| 0 <= i < n ==> (#[trigger] now[start + i]).0 == self.sum.value.limbs@[i].0 && now[start + i].1 < 0x1_0000_0000)
        &&& now[start + n].0 == self.overflow.0
        &&& now[start + n].1 <= 1
        &&& add_schema_holds(read_value(w, self.a.value), read_value(w, self.b.value), written, now[start + n].1 == 1, p.modulus())
        &&& written == (read_value(w, self.a.value) + read_value(w, self.b.value)) % p.modulus()
    }

    /// The input limb wires, in order: `a`'s limbs then `b`'s.
    pub fn dependencies(&self) -> (r: Vec<usize>)
        ensures
            r@ =~= biguint_indices(self.a.value) + biguint_indices(self.b.value),
    {
        let mut r: Vec<usize> = Vec::new();
        push_biguint_indices(&mut r, &self.a.value);
        push_biguint_indices(&mut r, &self.b.value);
        r
    }

    /// Fire once: read the inputs and fill the sum and overflow wires.
    pub fn run_once(&self, witness: &PartitionWitness, p: &FieldParameters, out_buffer: &mut GeneratedValues)
        requires
            self.ready(*witness, *p),
        ensures
            self.output_ok(*witness, *p, old(out_buffer).pairs@, final(out_buffer).pairs@),
    {
        let a_limbs = get_biguint_target(witness, &self.a.value);
        let b_limbs = get_biguint_target(witness, &self.b.value);
        let (sum, overflow) = add_witness(&a_limbs, &b_limbs, p);
        proof {
            lemma_limbs_value_bound(p.limbs@);
            lemma_normalized_len_bound(sum@, p.limbs@.len());
        }
        let padded = pad_limbs(&sum, self.sum.value.limbs.len());
        let ghost start = out_buffer.pairs@.len() as int;
        out_buffer.set_biguint_target(&self.sum.value, &padded);
        let ghost mid = out_buffer.pairs@;
        out_buffer.set_bool_target(self.overflow, overflow);
        proof {
            let n = self.sum.value.limbs@.len() as int;
            let now = out_buffer.pairs@;
            assert(now.subrange(0, start) =~= mid.subrange(0, start));
            assert(written_limbs(now, start, n) =~= written_limbs(mid, start, n));
            assert(written_limbs(mid, start, n) =~= padded@);
        }
    }
}

/// The generator for one many-operand addition:
/// `[s1, ..., sn] -> sum, overflow`, the overflow a single 32-bit limb.
#[derive(Clone, Debug)]
pub struct NonNativeMultipleAddsGenerator {
    pub summands: Vec<NonNativeTarget>,
    pub sum: NonNativeTarget,
    pub overflow: U32Target,
}

impl NonNativeMultipleAddsGenerator {
    /// The stable identifier this generator serializes under.
    pub fn id() -> (r: &'static str)
        ensures
            r@ == "NonNativeMultipleAddsGenerator"@,
    {
        "NonNativeMultipleAddsGenerator"
    }

    /// The generator may fire: every summand's wires are assigned reduced
    /// values, there are few enough summands for a 32-bit overflow limb, and
    /// the output element spans at least the modulus' limbs.
    pub open spec fn ready(self, w: PartitionWitness, p: FieldParameters) -> bool {
        &&& p.wf()
        &&& self.summands@.len() <= 0x1_0000_0000
        &&& (forall|i: int| 0 <= i < self.summands@.len() ==> biguint_deps_ready(w, (#[trigger] self.summands@[i]).value))
        &&& (forall|i: int| 0 <= i < self.summands@.len() ==> read_value(w, (#[trigger] self.summands@[i]).value) < p.modulus())
        &&& self.sum.value.limbs@.len() >= p.limbs@.len()
    }

    /// What one firing appends: one value per sum limb wire and then the
    /// 32-bit overflow limb, together satisfying the many-operand schema.
    pub open spec fn output_ok(self, w: PartitionWitness, p: FieldParameters, prior: Seq<(usize, u64)>, now: Seq<(usize, u64)>) -> bool {
        let n = self.sum.value.limbs@.len() as int;
        let start = prior.len() as int;
        let written = limbs_value(written_limbs(now, start, n));
        &&& now.len() == start + n + 1
        &&& now.subrange(0, start) =~= prior
        &&& (forall|i: int| 0 <= i < n ==> (#[trigger] now[start + i]).0 == self.sum.value.limbs@[i].0 && now[start + i].1 < 0x1_0000_0000)
        &&& now[start + n].0 == self.overflow.0
        &&& now[start + n].1 < 0x1_0000_0000
        &&& multi_add_schema_holds(read_values_total(w, self.summands@), written, now[start + n].1 as nat, p.modulus())
        &&& written == read_values_total(w, self.summands@) % p.modulus()
    }

    /// The input limb wires: every summand's limbs, in order.
    pub fn dependencies(&self) -> (r: Vec<usize>)
        ensures
            r@ =~= summands_indices(self.summands@),
    {
        let mut r: Vec<usize> = Vec::new();
        let mut i: usize = 0;
        proof {
            assert(self.summands@.take(0) =~= Seq::<NonNativeTarget>::empty());
        }
        while i < self.summands.len()
            invariant
                i <= self.summands@.len(),
                r@ =~= summands_indices(self.summands@.take(i as int)),
            decreases self.summands@.len() - i,
        {
            push_biguint_indices(&mut r, &self.summands[i].value);
            proof {
                assert(self.summands@.take(i + 1) =~= self.summands@.take(i as int).push(
                    self.summands@[i as int],
                ));
                lemma_summands_indices_push(self.summands@.take(i as int), self.summands@[i as int]);
            }
            i = i + 1;
        }
        proof {
            assert(self.summands@.take(self.summands@.len() as int) =~= self.summands@);
        }
        r
    }

    /// Fire once: read every summand and fill the sum and overflow wires.
    pub fn run_once(&self, witness: &PartitionWitness, p: &FieldParameters, out_buffer: &mut GeneratedValues)
        requires
            self.ready(*witness, *p),
        ensures
            self.output_ok(*witness, *p, old(out_buffer).pairs@, final(out_buffer).pairs@),
    {
        let mut vals: Vec<Vec<u32>> = Vec::new();
        let mut i: usize = 0;
        while i < self.summands.len()
            invariant
                i <= self.summands@.len(),
                self.ready(*witness, *p),
                vals@.len() == i,
                forall|j: int| 0 <= j < i ==> #[trigger] vals@[j]@ =~= read_limbs_spec(*witness, self.summands@[j].value),
            decreases self.summands@.len() - i,
        {
            let v = get_biguint_target(witness, &self.summands[i].value);
            vals.push(v);
            i = i + 1;
        }
        proof {
            lemma_read_values_total_matches(vals@, *witness, self.summands@);
            assert(forall|j: int|
                0 <= j < vals@.len() ==> limbs_value(#[trigger] vals@[j]@) < p.modulus());
        }
        let (sum, overflow) = multi_add_witness(&vals, p);
        proof {
            lemma_limbs_value_bound(p.limbs@);
            lemma_normalized_len_bound(sum@, p.limbs@.len());
        }
        let padded = pad_limbs(&sum, self.sum.value.limbs.len());
        let ghost start = out_buffer.pairs@.len() as int;
        out_buffer.set_biguint_target(&self.sum.value, &padded);
        let ghost mid = out_buffer.pairs@;
        out_buffer.set_u32_target(self.overflow, overflow);
        proof {
            let n = self.sum.value.limbs@.len() as int;
            let now = out_buffer.pairs@;
            assert(now.subrange(0, start) =~= mid.subrange(0, start));
            assert(written_limbs(now, start, n) =~= written_limbs(mid, start, n));
            assert(written_limbs(mid, start, n) =~= padded@);
        }
    }
}

/// The generator for one subtraction: `a, b -> diff, overflow`.
#[derive(Clone, Debug)]
pub struct NonNativeSubtractionGenerator {
    pub a: NonNativeTarget,
    pub b: NonNativeTarget,
    pub diff: NonNativeTarget,
    pub overflow: BoolTarget,
}

impl NonNativeSubtractionGenerator {
    /// The stable identifier this generator serializes under.
    pub fn id() -> (r: &'static str)
        ensures
            r@ == "NonNativeSubtractionGenerator"@,
    {
        "NonNativeSubtractionGenerator"
    }

    /// The generator may fire: its input wires are assigned reduced values,
    /// and its output element spans at least the modulus' limbs.
    pub open spec fn ready(self, w: PartitionWitness, p: FieldParameters) -> bool {
        &&& p.wf()
        &&& biguint_deps_ready(w, self.a.value)
        &&& biguint_deps_ready(w, self.b.value)
        &&& read_value(w, self.a.value) < p.modulus()
        &&& read_value(w, self.b.value) < p.modulus()
        &&& self.diff.value.limbs@.len() >= p.limbs@.len()
    }

    /// What one firing appends: one value per difference limb wire and then
    /// the borrow bit, together satisfying the subtraction schema.
    pub open spec fn output_ok(self, w: PartitionWitness, p: FieldParameters, prior: Seq<(usize, u64)>, now: Seq<(usize, u64)>) -> bool {
        let n = self.diff.value.limbs@.len() as int;
        let start = prior.len() as int;
        let written = limbs_value(written_limbs(now, start, n));
        &&& now.len() == start + n + 1
        &&& now.subrange(0, start) =~= prior
        &&& (forall|i: int| 0 <= i < n ==> (#[trigger] now[start + i]).0 == self.diff.value.limbs@[i].0 && now[start + i].1 < 0x1_0000_0000)
        &&& now[start + n].0 == self.overflow.0
        &&& now[start + n].1 <= 1
        &&& sub_schema_holds(read_value(w, self.a.value), read_value(w, self.b.value), written, now[start + n].1 == 1, p.modulus())
        &&& written == (read_value(w, self.a.value) + p.modulus() - read_value(w, self.b.value)) % (p.modulus() as int)
    }

    /// The input limb wires, in order: `a`'s limbs then `b`'s.
    pub fn dependencies(&self) -> (r: Vec<usize>)
        ensures
            r@ =~= biguint_indices(self.a.value) + biguint_indices(self.b.value),
    {
        let mut r: Vec<usize> = Vec::new();
        push_biguint_indices(&mut r, &self.a.value);
        push_biguint_indices(&mut r, &self.b.value);
        r
    }

    /// Fire once: read the inputs and fill the difference and borrow wires.
    pub fn run_once(&self, witness: &PartitionWitness, p: &FieldParameters, out_buffer: &mut GeneratedValues)
        requires
            self.ready(*witness, *p),
        ensures
            self.output_ok(*witness, *p, old(out_buffer).pairs@, final(out_buffer).pairs@),
    {
        let a_limbs = get_biguint_target(witness, &self.a.value);
        let b_limbs = get_biguint_target(witness, &self.b.value);
        let (diff, overflow) = sub_witness(&a_limbs, &b_limbs, p);
        proof {
            lemma_limbs_value_bound(p.limbs@);
            lemma_normalized_len_bound(diff@, p.limbs@.len());
        }
        let padded = pad_limbs(&diff, self.diff.value.limbs.len());
        let ghost start = out_buffer.pairs@.len() as int;
        out_buffer.set_biguint_target(&self.diff.value, &padded);
        let ghost mid = out_buffer.pairs@;
        out_buffer.set_bool_target(self.overflow, overflow);
        proof {
            let n = self.diff.value.limbs@.len() as int;
            let now = out_buffer.pairs@;
            assert(now.subrange(0, start) =~= mid.subrange(0, start));
            assert(written_limbs(now, start, n) =~= written_limbs(mid, start, n));
            assert(written_limbs(mid, start, n) =~= padded@);
        }
    }
}

/// The generator for one multiplication: `a, b -> prod, overflow`, the
/// overflow a multi-limb quotient.
#[derive(Clone, Debug)]
pub struct NonNativeMultiplicationGenerator {
    pub a: NonNativeTarget,
    pub b: NonNativeTarget,
    pub prod: NonNativeTarget,
    pub overflow: BigUintTarget,
}

impl NonNativeMultiplicationGenerator {
    /// The stable identifier this generator serializes under.
    pub fn id() -> (r: &'static str)
        ensures
            r@ == "NonNativeMultiplicationGenerator"@,
    {
        "NonNativeMultiplicationGenerator"
    }

    /// The generator may fire: its input wires are assigned reduced values,
    /// and both output targets span at least the modulus' limbs.
    pub open spec fn ready(self, w: PartitionWitness, p: FieldParameters) -> bool {
        &&& p.wf()
        &&& biguint_deps_ready(w, self.a.value)
        &&& biguint_deps_ready(w, self.b.value)
        &&& read_value(w, self.a.value) < p.modulus()
        &&& read_value(w, self.b.value) < p.modulus()
        &&& self.prod.value.limbs@.len() >= p.limbs@.len()
        &&& self.overflow.limbs@.len() >= p.limbs@.len()
    }

    /// What one firing appends: one value per product limb wire and then one
    /// per overflow limb wire, together satisfying the multiplication schema.
    pub open spec fn output_ok(self, w: PartitionWitness, p: FieldParameters, prior: Seq<(usize, u64)>, now: Seq<(usize, u64)>) -> bool {
        let n = self.prod.value.limbs@.len() as int;
        let k = self.overflow.limbs@.len() as int;
        let start = prior.len() as int;
        let written = limbs_value(written_limbs(now, start, n));
        let written_overflow = limbs_value(written_limbs(now, start + n, k));
        &&& now.len() == start + n + k
        &&& now.subrange(0, start) =~= prior
        &&& (forall|i: int| 0 <= i < n ==> (#[trigger] now[start + i]).0 == self.prod.value.limbs@[i].0 && now[start + i].1 < 0x1_0000_0000)
        &&& (forall|i: int| 0 <= i < k ==> (#[trigger] now[start + n + i]).0 == self.overflow.limbs@[i].0 && now[start + n + i].1 < 0x1_0000_0000)
        &&& mul_schema_holds(read_value(w, self.a.value), read_value(w, self.b.value), written, written_overflow, p.modulus())
        &&& written == (read_value(w, self.a.value) * read_value(w, self.b.value)) % p.modulus()
    }

    /// The input limb wires, in order: `a`'s limbs then `b`'s.
    pub fn dependencies(&self) -> (r: Vec<usize>)
        ensures
            r@ =~= biguint_indices(self.a.value) + biguint_indices(self.b.value),
    {
        let mut r: Vec<usize> = Vec::new();
        push_biguint_indices(&mut r, &self.a.value);
        push_biguint_indices(&mut r, &self.b.value);
        r
    }

    /// Fire once: read the inputs and fill the product and overflow wires.
    pub fn run_once(&self, witness: &PartitionWitness, p: &FieldParameters, out_buffer: &mut GeneratedValues)
        requires
            self.ready(*witness, *p),
        ensures
            self.output_ok(*witness, *p, old(out_buffer).pairs@, final(out_buffer).pairs@),
    {
        let a_limbs = get_biguint_target(witness, &self.a.value);
        let b_limbs = get_biguint_target(witness, &self.b.value);
        let (prod, overflow) = mul_witness(&a_limbs, &b_limbs, p);
        proof {
            lemma_limbs_value_bound(p.limbs@);
            lemma_normalized_len_bound(prod@, p.limbs@.len());
        }
        let padded_prod = pad_limbs(&prod, self.prod.value.limbs.len());
        let padded_overflow = pad_limbs(&overflow, self.overflow.limbs.len());
        let ghost start = out_buffer.pairs@.len() as int;
        out_buffer.set_biguint_target(&self.prod.value, &padded_prod);
        let ghost mid = out_buffer.pairs@;
        out_buffer.set_biguint_target(&self.overflow, &padded_overflow);
        proof {
            let n = self.prod.value.limbs@.len() as int;
            let k = self.overflow.limbs@.len() as int;
            let now = out_buffer.pairs@;
            assert(now.subrange(0, start) =~= mid.subrange(0, start));
            assert(written_limbs(now, start, n) =~= written_limbs(mid, start, n));
            assert(written_limbs(mid, start, n) =~= padded_prod@);
            assert(written_limbs(now, start + n, k) =~= padded_overflow@);
        }
    }
}

/// The generator for one inversion: `x -> inv, div`, where
/// `x * inv = div * p + 1`. It fails, and fills nothing, exactly when `x`
/// has no inverse; for a prime modulus that is the case `x = 0` alone.
#[derive(Clone, Debug)]
pub struct NonNativeInverseGenerator {
    pub x: NonNativeTarget,
    pub inv: BigUintTarget,
    pub div: BigUintTarget,
}

impl NonNativeInverseGenerator {
    /// The stable identifier this generator serializes under.
    pub fn id() -> (r: &'static str)
        ensures
            r@ == "NonNativeInverseGenerator"@,
    {
        "NonNativeInverseGenerator"
    }

    /// The generator may fire: the input wires are assigned a reduced value,
    /// and both output targets span at least the modulus' limbs.
    pub open spec fn ready(self, w: PartitionWitness, p: FieldParameters) -> bool {
        &&& p.wf()
        &&& biguint_deps_ready(w, self.x.value)
        &&& read_value(w, self.x.value) < p.modulus()
        &&& self.inv.limbs@.len() >= p.limbs@.len()
        &&& self.div.limbs@.len() >= p.limbs@.len()
    }

    /// What a successful firing appends: one value per `div` limb wire and
    /// then one per `inv` limb wire, together satisfying the inversion
    /// schema, the inverse reduced.
    pub open spec fn output_ok(self, w: PartitionWitness, p: FieldParameters, prior: Seq<(usize, u64)>, now: Seq<(usize, u64)>) -> bool {
        let k = self.div.limbs@.len() as int;
        let n = self.inv.limbs@.len() as int;
        let start = prior.len() as int;
        let written_div = limbs_value(written_limbs(now, start, k));
        let written_inv = limbs_value(written_limbs(now, start + k, n));
        &&& now.len() == start + k + n
        &&& now.subrange(0, start) =~= prior
        &&& (forall|i: int| 0 <= i < k ==> (#[trigger] now[start + i]).0 == self.div.limbs@[i].0 && now[start + i].1 < 0x1_0000_0000)
        &&& (forall|i: int| 0 <= i < n ==> (#[trigger] now[start + k + i]).0 == self.inv.limbs@[i].0 && now[start + k + i].1 < 0x1_0000_0000)
        &&& inv_schema_holds(read_value(w, self.x.value), written_inv, written_div, p.modulus())
        &&& written_inv < p.modulus()
    }

    /// The input limb wires: `x`'s limbs.
    pub fn dependencies(&self) -> (r: Vec<usize>)
        ensures
            r@ =~= biguint_indices(self.x.value),
    {
        let mut r: Vec<usize> = Vec::new();
        push_biguint_indices(&mut r, &self.x.value);
        r
    }

    /// Fire once: read `x` and fill the `div` and `inv` wires. Returns
    /// whether an inverse existed; on failure nothing is filled, and the
    /// inversion constraint is unsatisfiable for this witness.
    pub fn run_once(&self, witness: &PartitionWitness, p: &FieldParameters, out_buffer: &mut GeneratedValues) -> (r: bool)
        requires
            self.ready(*witness, *p),
        ensures
            r ==> self.output_ok(*witness, *p, old(out_buffer).pairs@, final(out_buffer).pairs@),
            !r ==> final(out_buffer).pairs@ =~= old(out_buffer).pairs@,
            (!r ==> forall|j: nat| j < p.modulus() ==> #[trigger] ((read_value(*witness, self.x.value) * j) % p.modulus()) != 1),
            read_value(*witness, self.x.value) == 0 ==> !r,
    {
        let x_limbs = get_biguint_target(witness, &self.x.value);
        match inv_witness(&x_limbs, p) {
            None => false,
            Some((inv, quotient)) => {
                proof {
                    lemma_limbs_value_bound(p.limbs@);
                    lemma_normalized_len_bound(inv@, p.limbs@.len());
                }
                let padded_div = pad_limbs(&quotient, self.div.limbs.len());
                let padded_inv = pad_limbs(&inv, self.inv.limbs.len());
                let ghost start = out_buffer.pairs@.len() as int;
                out_buffer.set_biguint_target(&self.div, &padded_div);
                let ghost mid = out_buffer.pairs@;
                out_buffer.set_biguint_target(&self.inv, &padded_inv);
                proof {
                    let k = self.div.limbs@.len() as int;
                    let n = self.inv.limbs@.len() as int;
                    let now = out_buffer.pairs@;
                    assert(now.subrange(0, start) =~= mid.subrange(0, start));
                    assert(written_limbs(now, start, k) =~= written_limbs(mid, start, k));
                    assert(written_limbs(mid, start, k) =~= padded_div@);
                    assert(written_limbs(now, start + k, n) =~= padded_inv@);
                }
                true
            },
        }
    }
}

/// Test whether one element's wires are all assigned 32-bit values standing
/// for a reduced element.
fn check_element_ready(w: &PartitionWitness, b: &BigUintTarget, p: &FieldParameters) -> (r: bool)
    ensures
        r == (biguint_deps_ready(*w, *b) && read_value(*w, *b) < p.modulus()),
{
    let mut i: usize = 0;
    while i < b.limbs.len()
        invariant
            i <= b.limbs@.len(),
            forall|j: int|
                0 <= j < i ==> w.is_set(#[trigger] b.limbs@[j].0) && w.cell(b.limbs@[j].0)
                    < 0x1_0000_0000,
        decreases b.limbs@.len() - i,
    {
        let t = b.limbs[i].0;
        if t >= w.values.len() {
            return false;
        }
        match w.values[t] {
            Some(v) => {
                if v >= 0x1_0000_0000 {
                    return false;
                }
            },
            None => {
                return false;
            },
        }
        i = i + 1;
    }
    let limbs = get_biguint_target(w, b);
    crate::bigint::big_lt(&limbs, &p.limbs)
}

/// Test a generator's firing precondition at run time, for callers outside
/// the proofs: the scheduler may call `run_once` exactly when this holds.
pub fn check_generator_ready(g: &NonNativeGenerator, w: &PartitionWitness, p: &FieldParameters) -> (r: bool)
    ensures
        r == generator_ready(*g, *w, *p),
{
    if !p.is_wf() {
        return false;
    }
    match g {
        NonNativeGenerator::Addition(gen) => {
            check_element_ready(w, &gen.a.value, p) && check_element_ready(w, &gen.b.value, p)
                && gen.sum.value.limbs.len() >= p.limbs.len()
        },
        NonNativeGenerator::MultipleAdds(gen) => {
            if gen.summands.len() as u64 > 0x1_0000_0000u64 {
                return false;
            }
            let mut i: usize = 0;
            while i < gen.summands.len()
                invariant
                    i <= gen.summands@.len(),
                    (*g == NonNativeGenerator::MultipleAdds(*gen)),
                    forall|k: int|
                        0 <= k < i ==> biguint_deps_ready(
                            *w,
                            (#[trigger] gen.summands@[k]).value,
                        ) && read_value(*w, gen.summands@[k].value) < p.modulus(),
                decreases gen.summands@.len() - i,
            {
                if !check_element_ready(w, &gen.summands[i].value, p) {
                    proof {
                        let failed = gen.summands@[i as int];
                        assert(!(biguint_deps_ready(*w, failed.value) && read_value(*w, failed.value)
                            < p.modulus()));
                    }
                    return false;
                }
                i = i + 1;
            }
            gen.sum.value.limbs.len() >= p.limbs.len()
        },
        NonNativeGenerator::Subtraction(gen) => {
            check_element_ready(w, &gen.a.value, p) && check_element_ready(w, &gen.b.value, p)
                && gen.diff.value.limbs.len() >= p.limbs.len()
        },
        NonNativeGenerator::Multiplication(gen) => {
            check_element_ready(w, &gen.a.value, p) && check_element_ready(w, &gen.b.value, p)
                && gen.prod.value.limbs.len() >= p.limbs.len() && gen.overflow.limbs.len()
                >= p.limbs.len()
        },
        NonNativeGenerator::Inverse(gen) => {
            check_element_ready(w, &gen.x.value, p) && gen.inv.limbs.len() >= p.limbs.len()
                && gen.div.limbs.len() >= p.limbs.len()
        },
    }
}

/// A witness generator of any of the five operation kinds, dispatched from
/// one entry point.
#[derive(Clone, Debug)]
pub enum NonNativeGenerator {
    Addition(NonNativeAdditionGenerator),
    MultipleAdds(NonNativeMultipleAddsGenerator),
    Subtraction(NonNativeSubtractionGenerator),
    Multiplication(NonNativeMultiplicationGenerator),
    Inverse(NonNativeInverseGenerator),
}

/// The firing precondition of a generator of any kind.
pub open spec fn generator_ready(g: NonNativeGenerator, w: PartitionWitness, p: FieldParameters) -> bool {
    match g {
        NonNativeGenerator::Addition(gen) => gen.ready(w, p),
        NonNativeGenerator::MultipleAdds(gen) => gen.ready(w, p),
        NonNativeGenerator::Subtraction(gen) => gen.ready(w, p),
        NonNativeGenerator::Multiplication(gen) => gen.ready(w, p),
        NonNativeGenerator::Inverse(gen) => gen.ready(w, p),
    }
}

/// What a successful firing of a generator of any kind appends.
pub open spec fn generator_output_ok(g: NonNativeGenerator, w: PartitionWitness, p: FieldParameters, prior: Seq<(usize, u64)>, now: Seq<(usize, u64)>) -> bool {
    match g {
        NonNativeGenerator::Addition(gen) => gen.output_ok(w, p, prior, now),
        NonNativeGenerator::MultipleAdds(gen) => gen.output_ok(w, p, prior, now),
        NonNativeGenerator::Subtraction(gen) => gen.output_ok(w, p, prior, now),
        NonNativeGenerator::Multiplication(gen) => gen.output_ok(w, p, prior, now),
        NonNativeGenerator::Inverse(gen) => gen.output_ok(w, p, prior, now),
    }
}

impl NonNativeGenerator {
    /// The stable identifier of this generator's kind.
    pub fn id(&self) -> (r: &'static str)
        ensures
            self is Addition ==> r@ == "NonNativeAdditionGenerator"@,
            self is MultipleAdds ==> r@ == "NonNativeMultipleAddsGenerator"@,
            self is Subtraction ==> r@ == "NonNativeSubtractionGenerator"@,
            self is Multiplication ==> r@ == "NonNativeMultiplicationGenerator"@,
            self is Inverse ==> r@ == "NonNativeInverseGenerator"@,
    {
        match self {
            NonNativeGenerator::Addition(_) => NonNativeAdditionGenerator::id(),
            NonNativeGenerator::MultipleAdds(_) => NonNativeMultipleAddsGenerator::id(),
            NonNativeGenerator::Subtraction(_) => NonNativeSubtractionGenerator::id(),
            NonNativeGenerator::Multiplication(_) => NonNativeMultiplicationGenerator::id(),
            NonNativeGenerator::Inverse(_) => NonNativeInverseGenerator::id(),
        }
    }

    /// The input limb wires this generator waits on.
    pub fn dependencies(&self) -> (r: Vec<usize>)
        ensures
            self matches NonNativeGenerator::Addition(gen) ==> r@ =~= biguint_indices(gen.a.value) + biguint_indices(gen.b.value),
            self matches NonNativeGenerator::MultipleAdds(gen) ==> r@ =~= summands_indices(gen.summands@),
            self matches NonNativeGenerator::Subtraction(gen) ==> r@ =~= biguint_indices(gen.a.value) + biguint_indices(gen.b.value),
            self matches NonNativeGenerator::Multiplication(gen) ==> r@ =~= biguint_indices(gen.a.value) + biguint_indices(gen.b.value),
            self matches NonNativeGenerator::Inverse(gen) ==> r@ =~= biguint_indices(gen.x.value),
    {
        match self {
            NonNativeGenerator::Addition(gen) => gen.dependencies(),
            NonNativeGenerator::MultipleAdds(gen) => gen.dependencies(),
            NonNativeGenerator::Subtraction(gen) => gen.dependencies(),
            NonNativeGenerator::Multiplication(gen) => gen.dependencies(),
            NonNativeGenerator::Inverse(gen) => gen.dependencies(),
        }
    }

    /// Fire this generator once. Only an inversion of a value with no
    /// inverse fails; every other kind always succeeds.
    pub fn run_once(&self, witness: &PartitionWitness, p: &FieldParameters, out_buffer: &mut GeneratedValues) -> (r: bool)
        requires
            generator_ready(*self, *witness, *p),
        ensures
            r ==> generator_output_ok(*self, *witness, *p, old(out_buffer).pairs@, final(out_buffer).pairs@),
            !(self is Inverse) ==> r,
            !r ==> final(out_buffer).pairs@ =~= old(out_buffer).pairs@,
    {
        match self {
            NonNativeGenerator::Addition(gen) => {
                gen.run_once(witness, p, out_buffer);
                true
            },
            NonNativeGenerator::MultipleAdds(gen) => {
                gen.run_once(witness, p, out_buffer);
                true
            },
            NonNativeGenerator::Subtraction(gen) => {
                gen.run_once(witness, p, out_buffer);
                true
            },
            NonNativeGenerator::Multiplication(gen) => {
                gen.run_once(witness, p, out_buffer);
                true
            },
            NonNativeGenerator::Inverse(gen) => gen.run_once(witness, p, out_buffer),
        }
    }
}

} // verus!
