//! Little-endian sequences of 32-bit limbs and the integers they stand for.

use vstd::prelude::*;
use vstd::arithmetic::power2::{pow2, lemma_pow2_adds, lemma_pow2_strictly_increases, lemma2_to64};

verus! {

/// The integer value of a little-endian sequence of 32-bit limbs.
pub open spec fn limbs_value(s: Seq<u32>) -> nat
    decreases s.len(),
{
    if s.len() == 0 {
        0
    } else {
        s[0] as nat + 0x1_0000_0000 * limbs_value(s.skip(1))
    }
}

/// A limb sequence is normalized when it carries no most-significant zero limb.
/// `num`'s digit conversions always hand back normalized sequences, so value
/// equality and sequence equality coincide on them.
pub open spec fn normalized(s: Seq<u32>) -> bool {
    s.len() == 0 || s[s.len() - 1] != 0
}

/// A limb sequence's value is bounded by the size of its limb span.
pub proof fn lemma_limbs_value_bound(s: Seq<u32>)
    ensures
        limbs_value(s) < pow2(32 * s.len()),
    decreases s.len(),
{
    if s.len() == 0 {
        lemma2_to64();
    } else {
        let tail = s.skip(1);
        lemma_limbs_value_bound(tail);
        lemma_pow2_adds(32, (32 * (s.len() - 1)) as nat);
        lemma2_to64();
        assert(limbs_value(s) < pow2(32 * s.len())) by (nonlinear_arith)
            requires
                limbs_value(s) == s[0] as nat + 0x1_0000_0000 * limbs_value(tail),
                s[0] < 0x1_0000_0000,
                limbs_value(tail) < pow2((32 * (s.len() - 1)) as nat),
                pow2(32 * s.len()) == 0x1_0000_0000 * pow2((32 * (s.len() - 1)) as nat),
        {}
    }
}

/// A nonempty normalized limb sequence reaches at least the value of its
/// most-significant limb's position.
pub proof fn lemma_normalized_lower_bound(s: Seq<u32>)
    requires
        normalized(s),
        s.len() > 0,
    ensures
        limbs_value(s) >= pow2((32 * (s.len() - 1)) as nat),
    decreases s.len(),
{
    if s.len() == 1 {
        lemma2_to64();
        assert(limbs_value(s) == s[0] as nat + 0x1_0000_0000 * limbs_value(s.skip(1)));
    } else {
        let tail = s.skip(1);
        assert(tail[tail.len() - 1] == s[s.len() - 1]);
        lemma_normalized_lower_bound(tail);
        lemma_pow2_adds(32, (32 * (s.len() - 2)) as nat);
        lemma2_to64();
        assert(limbs_value(s) >= pow2((32 * (s.len() - 1)) as nat)) by (nonlinear_arith)
            requires
                limbs_value(s) == s[0] as nat + 0x1_0000_0000 * limbs_value(tail),
                limbs_value(tail) >= pow2((32 * (s.len() - 2)) as nat),
                pow2((32 * (s.len() - 1)) as nat) == 0x1_0000_0000 * pow2(
                    (32 * (s.len() - 2)) as nat,
                ),
        {}
    }
}

/// A normalized sequence whose value fits below `2^(32k)` has at most `k` limbs.
pub proof fn lemma_normalized_len_bound(s: Seq<u32>, k: nat)
    requires
        normalized(s),
        limbs_value(s) < pow2(32 * k),
    ensures
        s.len() <= k,
{
    if s.len() > k {
        lemma_normalized_lower_bound(s);
        if 32 * k < 32 * (s.len() - 1) {
            lemma_pow2_strictly_increases(32 * k, (32 * (s.len() - 1)) as nat);
        }
    }
}

/// Concatenation splits a value into a low and a shifted high part.
pub proof fn lemma_limbs_value_concat(a: Seq<u32>, b: Seq<u32>)
    ensures
        limbs_value(a + b) == limbs_value(a) + pow2(32 * a.len()) * limbs_value(b),
    decreases a.len(),
{
    if a.len() == 0 {
        assert(a + b =~= b);
        lemma2_to64();
    } else {
        assert((a + b).skip(1) =~= a.skip(1) + b);
        lemma_limbs_value_concat(a.skip(1), b);
        lemma_pow2_adds(32, (32 * (a.len() - 1)) as nat);
        lemma2_to64();
        assert(limbs_value(a + b) == limbs_value(a) + pow2(32 * a.len()) * limbs_value(b))
            by (nonlinear_arith)
            requires
                limbs_value(a + b) == a[0] as nat + 0x1_0000_0000 * limbs_value(a.skip(1) + b),
                limbs_value(a.skip(1) + b) == limbs_value(a.skip(1)) + pow2(
                    (32 * (a.len() - 1)) as nat,
                ) * limbs_value(b),
                limbs_value(a) == a[0] as nat + 0x1_0000_0000 * limbs_value(a.skip(1)),
                pow2(32 * a.len()) == 0x1_0000_0000 * pow2((32 * (a.len() - 1)) as nat),
        {}
    }
}

/// Trailing zero limbs do not change a sequence's value.
pub proof fn lemma_limbs_value_push_zero(s: Seq<u32>)
    ensures
        limbs_value(s.push(0)) == limbs_value(s),
    decreases s.len(),
{
    assert(s.push(0) =~= s + seq![0u32]);
    lemma_limbs_value_concat(s, seq![0u32]);
    assert(limbs_value(Seq::<u32>::empty()) == 0);
    assert(seq![0u32].skip(1) =~= Seq::<u32>::empty());
    assert(limbs_value(seq![0u32]) == seq![0u32][0] as nat + 0x1_0000_0000 * limbs_value(
        seq![0u32].skip(1),
    ));
    assert(limbs_value(s + seq![0u32]) == limbs_value(s) + pow2(32 * s.len()) * limbs_value(
        seq![0u32],
    ));
    assert(pow2(32 * s.len()) * 0 == 0) by (nonlinear_arith);
    assert(limbs_value(s.push(0)) == limbs_value(s + seq![0u32]));
}

/// Two normalized sequences of equal value are the same sequence.
pub proof fn lemma_normalized_value_injective(a: Seq<u32>, b: Seq<u32>)
    requires
        normalized(a),
        normalized(b),
        limbs_value(a) == limbs_value(b),
    ensures
        a =~= b,
    decreases a.len(),
{
    if a.len() == 0 {
        if b.len() > 0 {
            lemma_normalized_lower_bound(b);
            vstd::arithmetic::power2::lemma_pow2_pos((32 * (b.len() - 1)) as nat);
        }
    } else if b.len() == 0 {
        lemma_normalized_lower_bound(a);
        vstd::arithmetic::power2::lemma_pow2_pos((32 * (a.len() - 1)) as nat);
    } else {
        let at = a.skip(1);
        let bt = b.skip(1);
        assert(a[0] as nat + 0x1_0000_0000 * limbs_value(at) == b[0] as nat + 0x1_0000_0000
            * limbs_value(bt));
        assert(a[0] == b[0] && limbs_value(at) == limbs_value(bt)) by (nonlinear_arith)
            requires
                a[0] as nat + 0x1_0000_0000 * limbs_value(at) == b[0] as nat + 0x1_0000_0000
                    * limbs_value(bt),
                a[0] < 0x1_0000_0000,
                b[0] < 0x1_0000_0000,
        {}
        if a.len() == 1 {
            if bt.len() > 0 {
                assert(bt[bt.len() - 1] == b[b.len() - 1]);
                lemma_normalized_lower_bound(bt);
                vstd::arithmetic::power2::lemma_pow2_pos((32 * (bt.len() - 1)) as nat);
            }
            assert(a =~= b);
        } else if b.len() == 1 {
            assert(at[at.len() - 1] == a[a.len() - 1]);
            lemma_normalized_lower_bound(at);
            vstd::arithmetic::power2::lemma_pow2_pos((32 * (at.len() - 1)) as nat);
        } else {
            assert(at[at.len() - 1] == a[a.len() - 1]);
            assert(bt[bt.len() - 1] == b[b.len() - 1]);
            lemma_normalized_value_injective(at, bt);
            assert forall|i: int| 0 <= i < a.len() implies a[i] == b[i] by {
                if i >= 1 {
                    assert(a[i] == at[i - 1]);
                    assert(b[i] == bt[i - 1]);
                }
            }
            assert(a =~= b);
        }
    }
}

/// Extend a limb vector with zero limbs up to `n` limbs; the value is kept.
pub fn pad_limbs(v: &Vec<u32>, n: usize) -> (r: Vec<u32>)
    requires
        v.len() <= n,
    ensures
        r.len() == n,
        limbs_value(r@) == limbs_value(v@),
        r@.subrange(0, v.len() as int) =~= v@,
{
    let mut r: Vec<u32> = Vec::new();
    let mut i: usize = 0;
    while i < v.len()
        invariant
            i <= v.len(),
            r@ =~= v@.subrange(0, i as int),
        decreases v.len() - i,
    {
        r.push(v[i]);
        i = i + 1;
    }
    assert(r@ =~= v@);
    while r.len() < n
        invariant
            v.len() <= n,
            r@.len() >= v@.len(),
            limbs_value(r@) == limbs_value(v@),
            r@.subrange(0, v.len() as int) =~= v@,
            r@.len() <= n,
        decreases n - r.len(),
    {
        let ghost prev = r@;
        proof {
            lemma_limbs_value_push_zero(prev);
        }
        r.push(0);
        assert(r@.subrange(0, v.len() as int) =~= prev.subrange(0, v.len() as int));
    }
    r
}

/// Limb-wise equality of two limb vectors.
pub fn limbs_eq(a: &Vec<u32>, b: &Vec<u32>) -> (r: bool)
    ensures
        r == (a@ =~= b@),
{
    if a.len() != b.len() {
        return false;
    }
    let mut i: usize = 0;
    while i < a.len()
        invariant
            i <= a.len(),
            a.len() == b.len(),
            forall|j: int| 0 <= j < i ==> a@[j] == b@[j],
        decreases a.len() - i,
    {
        if a[i] != b[i] {
            return false;
        }
        i = i + 1;
    }
    true
}

} // verus!
