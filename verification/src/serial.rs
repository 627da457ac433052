//! Serialization of generator records: each generator writes its stable
//! identifier string and then its wire handles in a fixed order, and is
//! restored from them by handle alone. Wire handles travel as little-endian
//! 64-bit indices; variable-length runs are length-prefixed.

use vstd::prelude::*;
use vstd::string::StringSliceAdditionalSpecFns;
use vstd::arithmetic::power2::{pow2, lemma_pow2_adds, lemma2_to64, lemma2_to64_rest};
use crate::target::{U32Target, BoolTarget, BigUintTarget, NonNativeTarget};
use crate::generator::{
    NonNativeGenerator, NonNativeAdditionGenerator, NonNativeMultipleAddsGenerator,
    NonNativeSubtractionGenerator, NonNativeMultiplicationGenerator, NonNativeInverseGenerator,
};

verus! {

/// A serialization failure: the buffer ran out, a read value did not fit,
/// or an identifier named no known generator kind.
#[derive(Clone, Copy, Debug, PartialEq, Eq, Structural)]
pub enum IoError {
    OutOfBounds,
    UnknownGenerator,
}

/// The integer value of a little-endian sequence of bytes.
pub open spec fn bytes_value(s: Seq<u8>) -> nat
    decreases s.len(),
{
    if s.len() == 0 {
        0
    } else {
        s[0] as nat + 256 * bytes_value(s.skip(1))
    }
}

/// A reading cursor over a byte buffer.
pub struct Buffer {
    pub bytes: Vec<u8>,
    pub pos: usize,
}

impl Buffer {
    /// Start reading a byte vector from its beginning.
    pub fn new(bytes: Vec<u8>) -> (r: Buffer)
        ensures
            r.bytes@ =~= bytes@,
            r.pos == 0,
    {
        Buffer { bytes, pos: 0 }
    }
}

/// Append a 64-bit value as eight little-endian bytes.
pub fn write_u64(dst: &mut Vec<u8>, x: u64)
    ensures
        final(dst)@.len() == old(dst)@.len() + 8,
        final(dst)@.subrange(0, old(dst)@.len() as int) =~= old(dst)@,
        bytes_value(final(dst)@.subrange(old(dst)@.len() as int, old(dst)@.len() as int + 8)) == x as nat,
{
    let ghost start = dst@.len() as int;
    let mut cur: u64 = x;
    let mut i: usize = 0;
    proof {
        lemma2_to64();
        assert(dst@.subrange(start, start + 0) =~= Seq::<u8>::empty());
        assert(bytes_value(Seq::<u8>::empty()) == 0);
        assert(bytes_value(dst@.subrange(start, start + 0)) == 0);
        assert((cur as nat) * pow2((8 * 0) as nat) == cur as nat) by (nonlinear_arith)
            requires
                pow2((8 * 0) as nat) == 1,
        {}
    }
    while i < 8
        invariant
            i <= 8,
            dst@.len() == start + i,
            dst@.subrange(0, start) =~= old(dst)@,
            start == old(dst)@.len(),
            x as nat == bytes_value(dst@.subrange(start, start + i)) + (cur as nat) * pow2(
                (8 * i) as nat,
            ),
        decreases 8 - i,
    {
        let b = (cur % 256) as u8;
        let ghost prev = dst@;
        let ghost prev_cur = cur as nat;
        dst.push(b);
        cur = cur / 256;
        i = i + 1;
        proof {
            assert(dst@.subrange(0, start) =~= prev.subrange(0, start));
            let now_run = dst@.subrange(start, start + i);
            let prev_run = prev.subrange(start, start + i - 1);
            assert(now_run =~= prev_run + seq![b]);
            lemma_bytes_run_extend(prev_run, b);
            lemma_pow2_adds((8 * (i - 1)) as nat, 8);
            lemma2_to64();
            assert(x as nat == bytes_value(now_run) + (cur as nat) * pow2((8 * i) as nat))
                by (nonlinear_arith)
                requires
                    x as nat == bytes_value(prev_run) + prev_cur * pow2((8 * (i - 1)) as nat),
                    bytes_value(now_run) == bytes_value(prev_run) + pow2((8 * (i - 1)) as nat) * (
                    b as nat),
                    b as nat == prev_cur % 256,
                    cur as nat == prev_cur / 256,
                    pow2((8 * i) as nat) == pow2((8 * (i - 1)) as nat) * 256,
            {}
        }
    }
    proof {
        assert(pow2(64) == 0x1_0000_0000_0000_0000) by {
            lemma2_to64_rest();
        }
        assert(cur == 0) by (nonlinear_arith)
            requires
                x as nat == bytes_value(dst@.subrange(start, start + 8)) + (cur as nat) * pow2(64),
                x < 0x1_0000_0000_0000_0000,
                pow2(64) == 0x1_0000_0000_0000_0000,
        {}
    }
}

/// Appending one byte to a run adds it at the highest place.
proof fn lemma_bytes_run_extend(s: Seq<u8>, b: u8)
    ensures
        bytes_value(s + seq![b]) == bytes_value(s) + pow2((8 * s.len()) as nat) * (b as nat),
    decreases s.len(),
{
    if s.len() == 0 {
        assert(s + seq![b] =~= seq![b]);
        assert(seq![b].skip(1) =~= Seq::<u8>::empty());
        assert(bytes_value(seq![b]) == seq![b][0] as nat + 256 * bytes_value(seq![b].skip(1)));
        lemma2_to64();
    } else {
        assert((s + seq![b]).skip(1) =~= s.skip(1) + seq![b]);
        lemma_bytes_run_extend(s.skip(1), b);
        lemma_pow2_adds(8, (8 * (s.len() - 1)) as nat);
        lemma2_to64();
        assert(bytes_value(s + seq![b]) == bytes_value(s) + pow2((8 * s.len()) as nat) * (
        b as nat)) by (nonlinear_arith)
            requires
                bytes_value(s + seq![b]) == s[0] as nat + 256 * bytes_value(s.skip(1) + seq![b]),
                bytes_value(s.skip(1) + seq![b]) == bytes_value(s.skip(1)) + pow2(
                    (8 * (s.len() - 1)) as nat,
                ) * (b as nat),
                bytes_value(s) == s[0] as nat + 256 * bytes_value(s.skip(1)),
                pow2((8 * s.len()) as nat) == 256 * pow2((8 * (s.len() - 1)) as nat),
        {}
    }
}

/// Read eight little-endian bytes back as a 64-bit value.
#[verifier::spinoff_prover]
pub fn read_u64(src: &mut Buffer) -> (r: Result<u64, IoError>)
    ensures
        final(src).bytes@ =~= old(src).bytes@,
        (r.is_ok() <==> old(src).pos + 8 <= old(src).bytes@.len()),
        r.is_ok() ==> final(src).pos == old(src).pos + 8,
        r.is_ok() ==> r.unwrap() as nat == bytes_value(old(src).bytes@.subrange(old(src).pos as int, old(src).pos + 8)),
        r.is_err() ==> final(src).pos == old(src).pos,
{
    if src.pos > src.bytes.len() || src.bytes.len() - src.pos < 8 {
        return Err(IoError::OutOfBounds);
    }
    let buf_len: usize = src.bytes.len();
    let ghost start = src.pos as int;
    let mut v: u64 = 0;
    let mut i: usize = 0;
    proof {
        lemma2_to64();
        lemma2_to64_rest();
        assert(src.bytes@.subrange(start, start) =~= Seq::<u8>::empty());
        assert(bytes_value(Seq::<u8>::empty()) == 0);
    }
    while i < 8
        invariant
            i <= 8,
            start == old(src).pos,
            src.bytes@ =~= old(src).bytes@,
            src.pos == start + i,
            buf_len == src.bytes@.len(),
            start + 8 <= buf_len,
            v as nat == bytes_value(src.bytes@.subrange(start, start + i)),
            v < pow2((8 * i) as nat),
            pow2(56) == 0x100_0000_0000_0000,
        decreases 8 - i,
    {
        let b = src.bytes[src.pos];
        let ghost prev_v = v as nat;
        let ghost prev_run = src.bytes@.subrange(start, start + i);
        proof {
            lemma_bytes_run_extend(prev_run, b);
            lemma_pow2_adds((8 * i) as nat, 8);
            lemma2_to64();
            if i < 7 {
                vstd::arithmetic::power2::lemma_pow2_strictly_increases(
                    (8 * i) as nat,
                    56,
                );
            }
            assert(prev_v + pow2((8 * i) as nat) * (b as nat) < pow2((8 * (i + 1)) as nat))
                by (nonlinear_arith)
                requires
                    prev_v < pow2((8 * i) as nat),
                    b < 256,
                    pow2((8 * (i + 1)) as nat) == pow2((8 * i) as nat) * 256,
            {}
            assert(pow2((8 * (i + 1)) as nat) <= pow2(64)) by {
                if 8 * (i + 1) < 64 {
                    vstd::arithmetic::power2::lemma_pow2_strictly_increases(
                        (8 * (i + 1)) as nat,
                        64,
                    );
                }
            }
            assert(pow2(64) == 0x1_0000_0000_0000_0000) by {
                lemma2_to64_rest();
            }
        }
        let shift: u64 = mul_pow256(i);
        v = v + (b as u64) * shift;
        src.pos = src.pos + 1;
        i = i + 1;
        proof {
            assert(src.bytes@.subrange(start, start + i) =~= prev_run + seq![b]);
        }
    }
    Ok(v)
}

/// `256^i` as a 64-bit value, for `i < 8`.
fn mul_pow256(i: usize) -> (r: u64)
    requires
        i < 8,
    ensures
        r as nat == pow2((8 * i) as nat),
{
    proof {
        lemma2_to64();
        lemma2_to64_rest();
    }
    if i == 0 {
        1
    } else if i == 1 {
        0x100
    } else if i == 2 {
        0x1_0000
    } else if i == 3 {
        0x100_0000
    } else if i == 4 {
        0x1_0000_0000
    } else if i == 5 {
        0x100_0000_0000
    } else if i == 6 {
        0x1_0000_0000_0000
    } else {
        0x100_0000_0000_0000
    }
}

/// Read one byte.
pub fn read_u8(src: &mut Buffer) -> (r: Result<u8, IoError>)
    ensures
        final(src).bytes@ =~= old(src).bytes@,
        (r.is_ok() <==> old(src).pos + 1 <= old(src).bytes@.len()),
        r.is_ok() ==> final(src).pos == old(src).pos + 1,
        r.is_ok() ==> r.unwrap() == old(src).bytes@[old(src).pos as int],
        r.is_err() ==> final(src).pos == old(src).pos,
{
    if src.pos < src.bytes.len() {
        let b = src.bytes[src.pos];
        src.pos = src.pos + 1;
        Ok(b)
    } else {
        Err(IoError::OutOfBounds)
    }
}

/// Append a wire index.
pub fn write_target(dst: &mut Vec<u8>, t: usize)
    ensures
        final(dst)@.len() == old(dst)@.len() + 8,
        final(dst)@.subrange(0, old(dst)@.len() as int) =~= old(dst)@,
        bytes_value(final(dst)@.subrange(old(dst)@.len() as int, old(dst)@.len() as int + 8)) == t as nat,
{
    write_u64(dst, t as u64);
}

/// Read a wire index back; a value too large for this platform's indices is
/// an error.
pub fn read_target(src: &mut Buffer) -> (r: Result<usize, IoError>)
    ensures
        final(src).bytes@ =~= old(src).bytes@,
        r.is_ok() ==> final(src).pos == old(src).pos + 8,
        r.is_ok() ==> r.unwrap() as nat == bytes_value(old(src).bytes@.subrange(old(src).pos as int, old(src).pos + 8)),
        r.is_err() ==> final(src).pos == old(src).pos || final(src).pos == old(src).pos + 8,
        r.is_ok() ==> old(src).pos + 8 <= old(src).bytes@.len(),
        (old(src).pos + 8 <= old(src).bytes@.len() && bytes_value(old(src).bytes@.subrange(old(src).pos as int, old(src).pos + 8)) <= usize::MAX) ==> r.is_ok(),
{
    match read_u64(src) {
        Ok(v) => {
            if v <= usize::MAX as u64 {
                Ok(v as usize)
            } else {
                Err(IoError::OutOfBounds)
            }
        },
        Err(e) => Err(e),
    }
}

/// Append a multi-limb target: its limb count, then each limb wire index.
pub fn write_biguint_target(dst: &mut Vec<u8>, b: &BigUintTarget)
    ensures
        final(dst)@.len() == old(dst)@.len() + 8 * (b.limbs@.len() + 1),
        final(dst)@.subrange(0, old(dst)@.len() as int) =~= old(dst)@,
        bytes_value(final(dst)@.subrange(old(dst)@.len() as int, old(dst)@.len() as int + 8)) == b.limbs@.len(),
        forall|j: int| 0 <= j < b.limbs@.len() ==> bytes_value(final(dst)@.subrange(old(dst)@.len() + 8 * (j + 1), old(dst)@.len() + 8 * (j + 2))) == (#[trigger] b.limbs@[j]).0,
        biguint_encoded(final(dst)@, old(dst)@.len() as int, *b),
{
    let ghost start = dst@.len() as int;
    write_u64(dst, b.limbs.len() as u64);
    let mut i: usize = 0;
    while i < b.limbs.len()
        invariant
            i <= b.limbs@.len(),
            start == old(dst)@.len(),
            dst@.len() == start + 8 * (i + 1),
            dst@.subrange(0, start) =~= old(dst)@,
            bytes_value(dst@.subrange(start, start + 8)) == b.limbs@.len(),
            forall|j: int| 0 <= j < i ==> bytes_value(dst@.subrange(start + 8 * (j + 1), start + 8 * (j + 2))) == (#[trigger] b.limbs@[j]).0,
        decreases b.limbs@.len() - i,
    {
        let ghost prev = dst@;
        write_target(dst, b.limbs[i].0);
        i = i + 1;
        proof {
            assert(dst@.subrange(0, prev.len() as int) =~= prev);
            assert forall|k: int| 0 <= k < prev.len() implies dst@[k] == prev[k] by {
                assert(dst@.subrange(0, prev.len() as int)[k] == dst@[k]);
            }
            assert(dst@.subrange(0, start) =~= prev.subrange(0, start));
            assert(dst@.subrange(start, start + 8) =~= prev.subrange(start, start + 8));
            assert forall|j: int| 0 <= j < i - 1 implies bytes_value(dst@.subrange(start + 8 * (j + 1), start + 8 * (j + 2))) == (#[trigger] b.limbs@[j]).0 by {
                assert(dst@.subrange(start + 8 * (j + 1), start + 8 * (j + 2)) =~= prev.subrange(start + 8 * (j + 1), start + 8 * (j + 2)));
            }
            assert(bytes_value(dst@.subrange(start + 8 * (i - 1) + 8, start + 8 * (i - 1) + 16)) == b.limbs@[i - 1].0);
            assert(dst@.subrange(start + 8 * i, start + 8 * (i + 1)) =~= dst@.subrange(start + 8 * (i - 1) + 8, start + 8 * (i - 1) + 16));
        }
    }
    proof {
        assert(field_run(dst@, start, 0) =~= dst@.subrange(start, start + 8));
        assert forall|j: int|
            0 <= j < b.limbs@.len() implies bytes_value(#[trigger] field_run(dst@, start, j + 1))
            == b.limbs@[j].0 by {
            assert(field_run(dst@, start, j + 1) =~= dst@.subrange(
                start + 8 * (j + 1),
                start + 8 * (j + 2),
            ));
        }
    }
}

/// The byte run that holds the `j`-th length-prefixed 64-bit field of an
/// encoding starting at `start`.
pub open spec fn field_run(bytes: Seq<u8>, start: int, j: int) -> Seq<u8> {
    bytes.subrange(start + 8 * j, start + 8 * (j + 1))
}

/// A multi-limb target's encoding stands complete at `start`: a limb count
/// within this platform's indices, enough bytes for that many limb runs, and
/// every limb run within this platform's indices.
pub open spec fn biguint_encoding_at(bytes: Seq<u8>, start: int) -> bool {
    &&& start + 8 <= bytes.len()
    &&& bytes_value(field_run(bytes, start, 0)) <= usize::MAX
    &&& start + 8 * (bytes_value(field_run(bytes, start, 0)) + 1) <= bytes.len()
    &&& (forall|j: int| 0 <= j < bytes_value(field_run(bytes, start, 0)) ==> bytes_value(#[trigger] field_run(bytes, start, j + 1)) <= usize::MAX)
}

/// The bytes at `start` hold the encoding of this multi-limb target: its limb
/// count, then each limb wire index, as little-endian 64-bit runs.
pub open spec fn biguint_encoded(bytes: Seq<u8>, start: int, b: BigUintTarget) -> bool {
    &&& 0 <= start
    &&& start + 8 * (b.limbs@.len() + 1) <= bytes.len()
    &&& bytes_value(field_run(bytes, start, 0)) == b.limbs@.len()
    &&& (forall|j: int| 0 <= j < b.limbs@.len() ==> bytes_value(#[trigger] field_run(bytes, start, j + 1)) == b.limbs@[j].0)
}

/// The number of bytes a multi-limb target's encoding takes.
pub open spec fn biguint_encoding_len(b: BigUintTarget) -> int {
    8 * (b.limbs@.len() as int + 1)
}

/// An encoding of a concrete target is complete and stays within this
/// platform's indices.
pub proof fn lemma_biguint_encoded_implies_at(bytes: Seq<u8>, start: int, b: BigUintTarget)
    requires
        biguint_encoded(bytes, start, b),
    ensures
        biguint_encoding_at(bytes, start),
{
    vstd::std_specs::vec::axiom_spec_len(&b.limbs);
}

/// An encoding inside a kept prefix is kept.
pub proof fn lemma_biguint_encoded_preserved(now: Seq<u8>, prev: Seq<u8>, start: int, b: BigUintTarget)
    requires
        biguint_encoded(prev, start, b),
        prev.len() <= now.len(),
        now.subrange(0, prev.len() as int) =~= prev,
    ensures
        biguint_encoded(now, start, b),
{
    assert(field_run(now, start, 0) =~= field_run(prev, start, 0)) by {
        lemma_region_preserved(now, prev, start, start + 8);
    }
    assert forall|j: int|
        0 <= j < b.limbs@.len() implies bytes_value(#[trigger] field_run(now, start, j + 1))
        == b.limbs@[j].0 by {
        lemma_region_preserved(now, prev, start + 8 * (j + 1), start + 8 * (j + 2));
        assert(field_run(now, start, j + 1) =~= field_run(prev, start, j + 1));
    }
}

/// Two targets encoded at the same place have the same limb wires.
pub proof fn lemma_biguint_encoded_unique(bytes: Seq<u8>, start: int, b1: BigUintTarget, b2: BigUintTarget)
    requires
        biguint_encoded(bytes, start, b1),
        biguint_encoded(bytes, start, b2),
    ensures
        b1.limbs@ =~= b2.limbs@,
{
    assert forall|j: int| 0 <= j < b1.limbs@.len() implies b1.limbs@[j] == b2.limbs@[j] by {
        assert(bytes_value(field_run(bytes, start, j + 1)) == b1.limbs@[j].0);
        assert(bytes_value(field_run(bytes, start, j + 1)) == b2.limbs@[j].0);
    }
}

/// Read a multi-limb target back: its limb count, then each limb wire index.
pub fn read_biguint_target(src: &mut Buffer) -> (r: Result<BigUintTarget, IoError>)
    ensures
        final(src).bytes@ =~= old(src).bytes@,
        (biguint_encoding_at(old(src).bytes@, old(src).pos as int) ==> r.is_ok()),
        r.is_ok() ==> r.unwrap().limbs@.len() == bytes_value(field_run(old(src).bytes@, old(src).pos as int, 0)),
        r.is_ok() ==> final(src).pos == old(src).pos + 8 * (r.unwrap().limbs@.len() + 1),
        r.is_ok() ==> forall|j: int| 0 <= j < r.unwrap().limbs@.len() ==> (#[trigger] r.unwrap().limbs@[j]).0 == bytes_value(field_run(old(src).bytes@, old(src).pos as int, j + 1)),
        r.is_ok() ==> biguint_encoded(old(src).bytes@, old(src).pos as int, r.unwrap()),
{
    let ghost start = old(src).pos as int;
    let n = match read_target(src) {
        Ok(n) => n,
        Err(e) => {
            return Err(e);
        },
    };
    let mut limbs: Vec<U32Target> = Vec::new();
    let mut i: usize = 0;
    while i < n
        invariant
            i <= n,
            start == old(src).pos,
            src.bytes@ =~= old(src).bytes@,
            src.pos == start + 8 * (i + 1),
            start + 8 * (i + 1) <= src.bytes@.len(),
            n as nat == bytes_value(field_run(old(src).bytes@, start, 0)),
            limbs@.len() == i,
            forall|j: int| 0 <= j < i ==> (#[trigger] limbs@[j]).0 == bytes_value(field_run(old(src).bytes@, start, j + 1)),
        decreases n - i,
    {
        match read_target(src) {
            Ok(t) => {
                proof {
                    assert(old(src).bytes@.subrange(start + 8 * (i + 1), start + 8 * (i + 1) + 8)
                        =~= field_run(old(src).bytes@, start, i + 1));
                }
                limbs.push(U32Target(t));
            },
            Err(e) => {
                proof {
                    if biguint_encoding_at(old(src).bytes@, start) {
                        assert(bytes_value(field_run(old(src).bytes@, start, i + 1)) <= usize::MAX);
                        assert(old(src).bytes@.subrange(
                            start + 8 * (i + 1),
                            start + 8 * (i + 1) + 8,
                        ) =~= field_run(old(src).bytes@, start, i + 1));
                        assert(false);
                    }
                }
                return Err(e);
            },
        }
        i = i + 1;
    }
    Ok(BigUintTarget { limbs })
}

/// Writing a foreign-field element target writes its underlying multi-limb
/// target: exactly the element's encoding is appended.
pub trait WriteNonNativeTarget {
    /// Append a foreign-field element target.
    fn write_target_nonnative(&mut self, x: NonNativeTarget) -> (r: Result<(), IoError>)
        ensures
            r.is_ok(),
            final(self).modeled_bytes().len() == old(self).modeled_bytes().len() + biguint_encoding_len(x.value),
            final(self).modeled_bytes().subrange(0, old(self).modeled_bytes().len() as int) =~= old(self).modeled_bytes(),
            biguint_encoded(final(self).modeled_bytes(), old(self).modeled_bytes().len() as int, x.value),
    ;

    /// The bytes written so far.
    spec fn modeled_bytes(&self) -> Seq<u8>;
}

impl WriteNonNativeTarget for Vec<u8> {
    open spec fn modeled_bytes(&self) -> Seq<u8> {
        self@
    }

    fn write_target_nonnative(&mut self, x: NonNativeTarget) -> (r: Result<(), IoError>) {
        write_biguint_target(self, &x.value);
        Ok(())
    }
}

/// Reading a foreign-field element target reads its underlying multi-limb
/// target: it succeeds on every complete encoding, restores exactly the
/// handles the bytes encode, and consumes exactly their span.
pub trait ReadNonNativeTarget {
    /// Read a foreign-field element target back.
    fn read_target_nonnative(&mut self) -> (r: Result<NonNativeTarget, IoError>)
        ensures
            final(self).modeled_bytes() =~= old(self).modeled_bytes(),
            (biguint_encoding_at(old(self).modeled_bytes(), old(self).modeled_pos()) ==> r.is_ok()),
            r.is_ok() ==> biguint_encoded(old(self).modeled_bytes(), old(self).modeled_pos(), r.unwrap().value),
            r.is_ok() ==> final(self).modeled_pos() == old(self).modeled_pos() + biguint_encoding_len(r.unwrap().value),
    ;

    /// The bytes being read.
    spec fn modeled_bytes(&self) -> Seq<u8>;

    /// The reading position.
    spec fn modeled_pos(&self) -> int;
}

impl ReadNonNativeTarget for Buffer {
    open spec fn modeled_bytes(&self) -> Seq<u8> {
        self.bytes@
    }

    open spec fn modeled_pos(&self) -> int {
        self.pos as int
    }

    fn read_target_nonnative(&mut self) -> (r: Result<NonNativeTarget, IoError>) {
        read_nonnative(self)
    }
}

/// Read a foreign-field element target back.
pub fn read_nonnative(src: &mut Buffer) -> (r: Result<NonNativeTarget, IoError>)
    ensures
        final(src).bytes@ =~= old(src).bytes@,
        (biguint_encoding_at(old(src).bytes@, old(src).pos as int) ==> r.is_ok()),
        r.is_ok() ==> r.unwrap().value.limbs@.len() == bytes_value(field_run(old(src).bytes@, old(src).pos as int, 0)),
        r.is_ok() ==> final(src).pos == old(src).pos + 8 * (r.unwrap().value.limbs@.len() + 1),
        r.is_ok() ==> forall|j: int| 0 <= j < r.unwrap().value.limbs@.len() ==> (#[trigger] r.unwrap().value.limbs@[j]).0 == bytes_value(field_run(old(src).bytes@, old(src).pos as int, j + 1)),
        r.is_ok() ==> biguint_encoded(old(src).bytes@, old(src).pos as int, r.unwrap().value),
{
    match read_biguint_target(src) {
        Ok(value) => Ok(NonNativeTarget { value }),
        Err(e) => Err(e),
    }
}

/// A prefix kept intact keeps every region inside it intact.
proof fn lemma_region_preserved(now: Seq<u8>, prev: Seq<u8>, a: int, e: int)
    requires
        0 <= a <= e <= prev.len(),
        prev.len() <= now.len(),
        now.subrange(0, prev.len() as int) =~= prev,
    ensures
        now.subrange(a, e) =~= prev.subrange(a, e),
{
    assert forall|k: int| a <= k < e implies now[k] == prev[k] by {
        assert(now.subrange(0, prev.len() as int)[k] == now[k]);
    }
}

/// Append an identifier string: its byte length, then its bytes.
pub fn write_id(dst: &mut Vec<u8>, id: &str)
    ensures
        final(dst)@.len() == old(dst)@.len() + 8 + id.spec_bytes().len(),
        final(dst)@.subrange(0, old(dst)@.len() as int) =~= old(dst)@,
        bytes_value(final(dst)@.subrange(old(dst)@.len() as int, old(dst)@.len() as int + 8)) == id.spec_bytes().len(),
        final(dst)@.subrange(old(dst)@.len() as int + 8, old(dst)@.len() as int + 8 + id.spec_bytes().len() as int) =~= id.spec_bytes(),
{
    let ghost start = dst@.len() as int;
    let bytes = id.as_bytes_vec();
    write_u64(dst, bytes.len() as u64);
    let mut i: usize = 0;
    while i < bytes.len()
        invariant
            i <= bytes@.len(),
            bytes@ == id.spec_bytes(),
            start == old(dst)@.len(),
            dst@.len() == start + 8 + i,
            dst@.subrange(0, start) =~= old(dst)@,
            bytes_value(dst@.subrange(start, start + 8)) == bytes@.len(),
            dst@.subrange(start + 8, start + 8 + i) =~= bytes@.take(i as int),
        decreases bytes@.len() - i,
    {
        let ghost prev = dst@;
        dst.push(bytes[i]);
        i = i + 1;
        proof {
            assert(dst@.subrange(0, prev.len() as int) =~= prev);
            lemma_region_preserved(dst@, prev, 0, start);
            lemma_region_preserved(dst@, prev, start, start + 8);
            assert(dst@.subrange(start + 8, start + 8 + i) =~= bytes@.take(i as int));
        }
    }
    proof {
        assert(bytes@.take(bytes@.len() as int) =~= bytes@);
    }
}

/// Whether a read byte run equals an identifier's bytes.
fn bytes_match(a: &Vec<u8>, b: &[u8]) -> (r: bool)
    ensures
        r == (a@ =~= b@),
{
    if a.len() != b.len() {
        return false;
    }
    let mut i: usize = 0;
    while i < a.len()
        invariant
            i <= a@.len(),
            a@.len() == b@.len(),
            forall|j: int| 0 <= j < i ==> a@[j] == b@[j],
        decreases a@.len() - i,
    {
        if a[i] != b[i] {
            return false;
        }
        i = i + 1;
    }
    true
}

/// Read a length-prefixed byte run.
fn read_bytes(src: &mut Buffer) -> (r: Result<Vec<u8>, IoError>)
    ensures
        final(src).bytes@ =~= old(src).bytes@,
        r.is_ok() ==> r.unwrap()@.len() == bytes_value(old(src).bytes@.subrange(old(src).pos as int, old(src).pos + 8)),
        r.is_ok() ==> r.unwrap()@ =~= old(src).bytes@.subrange(old(src).pos + 8, old(src).pos + 8 + r.unwrap()@.len() as int),
        r.is_ok() ==> final(src).pos == old(src).pos + 8 + r.unwrap()@.len(),
        ({
            let n0 = bytes_value(old(src).bytes@.subrange(old(src).pos as int, old(src).pos + 8));
            (old(src).pos + 8 <= old(src).bytes@.len() && n0 <= usize::MAX && old(src).pos + 8 + n0 <= old(src).bytes@.len()) ==> r.is_ok()
        }),
{
    let ghost start = old(src).pos as int;
    let n = match read_target(src) {
        Ok(n) => n,
        Err(e) => {
            return Err(e);
        },
    };
    let mut out: Vec<u8> = Vec::new();
    let mut i: usize = 0;
    proof {
        assert(old(src).bytes@.subrange(start + 8, start + 8) =~= Seq::<u8>::empty());
    }
    while i < n
        invariant
            i <= n,
            start + 8 <= old(src).bytes@.len(),
            start == old(src).pos,
            src.bytes@ =~= old(src).bytes@,
            src.pos == start + 8 + i,
            n as nat == bytes_value(old(src).bytes@.subrange(start, start + 8)),
            out@.len() == i,
            out@ =~= old(src).bytes@.subrange(start + 8, start + 8 + i),
        decreases n - i,
    {
        match read_u8(src) {
            Ok(b) => {
                out.push(b);
                proof {
                    assert(out@ =~= old(src).bytes@.subrange(start + 8, start + 8 + i + 1));
                }
            },
            Err(e) => {
                return Err(e);
            },
        }
        i = i + 1;
    }
    Ok(out)
}

/// The bytes at `start` hold a list of element encodings, one after another.
pub open spec fn summands_encoded(bytes: Seq<u8>, start: int, s: Seq<NonNativeTarget>) -> bool
    decreases s.len(),
{
    s.len() == 0 || (biguint_encoded(bytes, start, s[0].value) && summands_encoded(
        bytes,
        start + biguint_encoding_len(s[0].value),
        s.skip(1),
    ))
}

/// The number of bytes a list of element encodings takes.
pub open spec fn summands_encoding_len(s: Seq<NonNativeTarget>) -> int
    decreases s.len(),
{
    if s.len() == 0 {
        0
    } else {
        biguint_encoding_len(s[0].value) + summands_encoding_len(s.skip(1))
    }
}

proof fn lemma_summands_encoding_len_push(s: Seq<NonNativeTarget>, x: NonNativeTarget)
    ensures
        summands_encoding_len(s.push(x)) == summands_encoding_len(s) + biguint_encoding_len(x.value),
    decreases s.len(),
{
    assert(summands_encoding_len(s.push(x)) == biguint_encoding_len(s.push(x)[0].value)
        + summands_encoding_len(s.push(x).skip(1)));
    if s.len() == 0 {
        assert(s.push(x)[0] == x);
        assert(s.push(x).skip(1) =~= Seq::<NonNativeTarget>::empty());
        assert(summands_encoding_len(Seq::<NonNativeTarget>::empty()) == 0);
        assert(summands_encoding_len(s) == 0);
    } else {
        assert(s.push(x).skip(1) =~= s.skip(1).push(x));
        lemma_summands_encoding_len_push(s.skip(1), x);
        assert(s.push(x)[0] == s[0]);
        assert(summands_encoding_len(s) == biguint_encoding_len(s[0].value)
            + summands_encoding_len(s.skip(1)));
    }
}

proof fn lemma_summands_encoded_push(bytes: Seq<u8>, start: int, s: Seq<NonNativeTarget>, x: NonNativeTarget)
    requires
        summands_encoded(bytes, start, s),
        biguint_encoded(bytes, start + summands_encoding_len(s), x.value),
    ensures
        summands_encoded(bytes, start, s.push(x)),
    decreases s.len(),
{
    if s.len() == 0 {
        assert(s.push(x)[0] == x);
        assert(s.push(x).skip(1) =~= Seq::<NonNativeTarget>::empty());
        assert(summands_encoding_len(s) == 0);
        assert(summands_encoded(bytes, start + biguint_encoding_len(x.value), s.push(x).skip(1)));
    } else {
        assert(s.push(x).skip(1) =~= s.skip(1).push(x));
        assert(s.push(x)[0] == s[0]);
        assert(summands_encoding_len(s) == biguint_encoding_len(s[0].value)
            + summands_encoding_len(s.skip(1)));
        lemma_summands_encoded_push(
            bytes,
            start + biguint_encoding_len(s[0].value),
            s.skip(1),
            x,
        );
    }
}

proof fn lemma_summands_encoded_preserved(now: Seq<u8>, prev: Seq<u8>, start: int, s: Seq<NonNativeTarget>)
    requires
        summands_encoded(prev, start, s),
        prev.len() <= now.len(),
        now.subrange(0, prev.len() as int) =~= prev,
    ensures
        summands_encoded(now, start, s),
    decreases s.len(),
{
    if s.len() > 0 {
        lemma_biguint_encoded_preserved(now, prev, start, s[0].value);
        lemma_summands_encoded_preserved(
            now,
            prev,
            start + biguint_encoding_len(s[0].value),
            s.skip(1),
        );
    }
}

/// Two element lists encoded at the same place align run for run: after the
/// shorter one's span, the longer one's remainder stands encoded.
proof fn lemma_summands_encoded_align(bytes: Seq<u8>, start: int, s1: Seq<NonNativeTarget>, s2: Seq<NonNativeTarget>)
    requires
        summands_encoded(bytes, start, s1),
        summands_encoded(bytes, start, s2),
        s1.len() <= s2.len(),
    ensures
        summands_encoded(bytes, start + summands_encoding_len(s1), s2.skip(s1.len() as int)),
        summands_encoding_len(s1) <= summands_encoding_len(s2),
    decreases s1.len(),
{
    if s1.len() == 0 {
        assert(s2.skip(0) =~= s2);
        lemma_summands_encoding_len_nonneg(s2);
    } else {
        assert(bytes_value(field_run(bytes, start, 0)) == s1[0].value.limbs@.len());
        assert(bytes_value(field_run(bytes, start, 0)) == s2[0].value.limbs@.len());
        assert(biguint_encoding_len(s1[0].value) == biguint_encoding_len(s2[0].value));
        lemma_summands_encoded_align(
            bytes,
            start + biguint_encoding_len(s1[0].value),
            s1.skip(1),
            s2.skip(1),
        );
        assert(s2.skip(1).skip(s1.len() - 1) =~= s2.skip(s1.len() as int));
    }
}

proof fn lemma_summands_encoding_len_nonneg(s: Seq<NonNativeTarget>)
    ensures
        summands_encoding_len(s) >= 0,
    decreases s.len(),
{
    if s.len() > 0 {
        lemma_summands_encoding_len_nonneg(s.skip(1));
    }
}

/// The field layout of an addition generator: `a`, `b`, `sum`, then the
/// overflow wire.
pub open spec fn addition_fields_encoded(bytes: Seq<u8>, start: int, gen: NonNativeAdditionGenerator) -> bool {
    let ob = start + biguint_encoding_len(gen.a.value);
    let os = ob + biguint_encoding_len(gen.b.value);
    let oo = os + biguint_encoding_len(gen.sum.value);
    &&& biguint_encoded(bytes, start, gen.a.value)
    &&& biguint_encoded(bytes, ob, gen.b.value)
    &&& biguint_encoded(bytes, os, gen.sum.value)
    &&& oo + 8 <= bytes.len()
    &&& bytes_value(bytes.subrange(oo, oo + 8)) == gen.overflow.0
}

/// The bytes an addition generator's fields take.
pub open spec fn addition_fields_len(gen: NonNativeAdditionGenerator) -> int {
    biguint_encoding_len(gen.a.value) + biguint_encoding_len(gen.b.value) + biguint_encoding_len(gen.sum.value) + 8
}

/// The field layout of a subtraction generator: `a`, `b`, `diff`, then the
/// borrow wire.
pub open spec fn subtraction_fields_encoded(bytes: Seq<u8>, start: int, gen: NonNativeSubtractionGenerator) -> bool {
    let ob = start + biguint_encoding_len(gen.a.value);
    let od = ob + biguint_encoding_len(gen.b.value);
    let oo = od + biguint_encoding_len(gen.diff.value);
    &&& biguint_encoded(bytes, start, gen.a.value)
    &&& biguint_encoded(bytes, ob, gen.b.value)
    &&& biguint_encoded(bytes, od, gen.diff.value)
    &&& oo + 8 <= bytes.len()
    &&& bytes_value(bytes.subrange(oo, oo + 8)) == gen.overflow.0
}

/// The bytes a subtraction generator's fields take.
pub open spec fn subtraction_fields_len(gen: NonNativeSubtractionGenerator) -> int {
    biguint_encoding_len(gen.a.value) + biguint_encoding_len(gen.b.value) + biguint_encoding_len(gen.diff.value) + 8
}

/// The field layout of a multiplication generator: `a`, `b`, `prod`, then
/// the multi-limb overflow.
pub open spec fn multiplication_fields_encoded(bytes: Seq<u8>, start: int, gen: NonNativeMultiplicationGenerator) -> bool {
    let ob = start + biguint_encoding_len(gen.a.value);
    let op = ob + biguint_encoding_len(gen.b.value);
    let oo = op + biguint_encoding_len(gen.prod.value);
    &&& biguint_encoded(bytes, start, gen.a.value)
    &&& biguint_encoded(bytes, ob, gen.b.value)
    &&& biguint_encoded(bytes, op, gen.prod.value)
    &&& biguint_encoded(bytes, oo, gen.overflow)
}

/// The bytes a multiplication generator's fields take.
pub open spec fn multiplication_fields_len(gen: NonNativeMultiplicationGenerator) -> int {
    biguint_encoding_len(gen.a.value) + biguint_encoding_len(gen.b.value) + biguint_encoding_len(gen.prod.value) + biguint_encoding_len(gen.overflow)
}

/// The field layout of an inversion generator: `x`, `inv`, `div`.
pub open spec fn inverse_fields_encoded(bytes: Seq<u8>, start: int, gen: NonNativeInverseGenerator) -> bool {
    let oi = start + biguint_encoding_len(gen.x.value);
    let od = oi + biguint_encoding_len(gen.inv);
    &&& biguint_encoded(bytes, start, gen.x.value)
    &&& biguint_encoded(bytes, oi, gen.inv)
    &&& biguint_encoded(bytes, od, gen.div)
}

/// The bytes an inversion generator's fields take.
pub open spec fn inverse_fields_len(gen: NonNativeInverseGenerator) -> int {
    biguint_encoding_len(gen.x.value) + biguint_encoding_len(gen.inv) + biguint_encoding_len(gen.div)
}

/// The field layout of a many-operand addition generator: the summand count,
/// each summand, the sum, then the overflow wire.
pub open spec fn multiple_adds_fields_encoded(bytes: Seq<u8>, start: int, gen: NonNativeMultipleAddsGenerator) -> bool {
    let first = start + 8;
    let osum = first + summands_encoding_len(gen.summands@);
    let oo = osum + biguint_encoding_len(gen.sum.value);
    &&& 0 <= start
    &&& start + 8 <= bytes.len()
    &&& bytes_value(bytes.subrange(start, start + 8)) == gen.summands@.len()
    &&& summands_encoded(bytes, first, gen.summands@)
    &&& biguint_encoded(bytes, osum, gen.sum.value)
    &&& oo + 8 <= bytes.len()
    &&& bytes_value(bytes.subrange(oo, oo + 8)) == gen.overflow.0
}

/// The bytes a many-operand addition generator's fields take.
pub open spec fn multiple_adds_fields_len(gen: NonNativeMultipleAddsGenerator) -> int {
    8 + summands_encoding_len(gen.summands@) + biguint_encoding_len(gen.sum.value) + 8
}

/// The bytes at `start` hold a generator's full encoding: the
/// length-prefixed identifier string of its kind, then its fields.
pub open spec fn generator_encoded(bytes: Seq<u8>, start: int, g: NonNativeGenerator) -> bool {
    let idlen = generator_id_bytes(g).len() as int;
    let fields = start + 8 + idlen;
    &&& 0 <= start
    &&& fields <= bytes.len()
    &&& bytes_value(bytes.subrange(start, start + 8)) == idlen
    &&& bytes.subrange(start + 8, fields) =~= generator_id_bytes(g)
    &&& match g {
        NonNativeGenerator::Addition(gen) => addition_fields_encoded(bytes, fields, gen),
        NonNativeGenerator::MultipleAdds(gen) => multiple_adds_fields_encoded(bytes, fields, gen),
        NonNativeGenerator::Subtraction(gen) => subtraction_fields_encoded(bytes, fields, gen),
        NonNativeGenerator::Multiplication(gen) => multiplication_fields_encoded(bytes, fields, gen),
        NonNativeGenerator::Inverse(gen) => inverse_fields_encoded(bytes, fields, gen),
    }
}

/// The bytes a generator's full encoding takes.
pub open spec fn generator_encoding_len(g: NonNativeGenerator) -> int {
    8 + generator_id_bytes(g).len() + match g {
        NonNativeGenerator::Addition(gen) => addition_fields_len(gen),
        NonNativeGenerator::MultipleAdds(gen) => multiple_adds_fields_len(gen),
        NonNativeGenerator::Subtraction(gen) => subtraction_fields_len(gen),
        NonNativeGenerator::Multiplication(gen) => multiplication_fields_len(gen),
        NonNativeGenerator::Inverse(gen) => inverse_fields_len(gen),
    }
}

/// The identifier bytes of a generator's kind.
pub open spec fn generator_id_bytes(g: NonNativeGenerator) -> Seq<u8> {
    match g {
        NonNativeGenerator::Addition(_) => "NonNativeAdditionGenerator".spec_bytes(),
        NonNativeGenerator::MultipleAdds(_) => "NonNativeMultipleAddsGenerator".spec_bytes(),
        NonNativeGenerator::Subtraction(_) => "NonNativeSubtractionGenerator".spec_bytes(),
        NonNativeGenerator::Multiplication(_) => "NonNativeMultiplicationGenerator".spec_bytes(),
        NonNativeGenerator::Inverse(_) => "NonNativeInverseGenerator".spec_bytes(),
    }
}

/// Serialize a generator: its stable identifier string, then its handles in
/// the fixed order of its kind; a many-operand addition also records its
/// summand count. The output is exactly the generator's encoding.
pub fn serialize_generator(g: &NonNativeGenerator, dst: &mut Vec<u8>) -> (r: Result<(), IoError>)
    ensures
        r.is_ok(),
        final(dst)@.len() == old(dst)@.len() + generator_encoding_len(*g),
        final(dst)@.subrange(0, old(dst)@.len() as int) =~= old(dst)@,
        generator_encoded(final(dst)@, old(dst)@.len() as int, *g),
{
    let ghost start = dst@.len() as int;
    let id_str = g.id();
    proof {
        assert(id_str.spec_bytes() == generator_id_bytes(*g));
    }
    write_id(dst, id_str);
    let ghost after_id = dst@;
    let ghost fields = after_id.len() as int;
    match g {
        NonNativeGenerator::Addition(gen) => {
            let ghost p1 = dst@;
            write_nonnative_chain(dst, &gen.a, &gen.b, &gen.sum);
            let ghost p2 = dst@;
            write_target(dst, gen.overflow.0);
            proof {
                lemma_region_preserved(dst@, p2, 0, fields);
                assert(dst@.subrange(0, fields) =~= after_id);
                let ob = fields + biguint_encoding_len(gen.a.value);
                let os = ob + biguint_encoding_len(gen.b.value);
                let oo = os + biguint_encoding_len(gen.sum.value);
                lemma_biguint_encoded_preserved(dst@, p2, fields, gen.a.value);
                lemma_biguint_encoded_preserved(dst@, p2, ob, gen.b.value);
                lemma_biguint_encoded_preserved(dst@, p2, os, gen.sum.value);
                assert(addition_fields_encoded(dst@, fields, *gen));
            }
        },
        NonNativeGenerator::MultipleAdds(gen) => {
            let ghost p1 = dst@;
            write_u64(dst, gen.summands.len() as u64);
            proof {
                lemma_region_preserved(dst@, p1, 0, fields);
            }
            let ghost after_count = dst@;
            let ghost first = after_count.len() as int;
            let mut i: usize = 0;
            proof {
                assert(gen.summands@.take(0) =~= Seq::<NonNativeTarget>::empty());
            }
            while i < gen.summands.len()
                invariant
                    i <= gen.summands@.len(),
                    fields + 8 == first,
                    first == after_count.len(),
                    first <= dst@.len(),
                    dst@.len() == first + summands_encoding_len(gen.summands@.take(i as int)),
                    dst@.subrange(0, first) =~= after_count,
                    summands_encoded(dst@, first, gen.summands@.take(i as int)),
                decreases gen.summands@.len() - i,
            {
                let ghost prev = dst@;
                write_biguint_target(dst, &gen.summands[i].value);
                proof {
                    lemma_region_preserved(dst@, prev, 0, first);
                    lemma_summands_encoded_preserved(
                        dst@,
                        prev,
                        first,
                        gen.summands@.take(i as int),
                    );
                    assert(gen.summands@.take(i + 1) =~= gen.summands@.take(i as int).push(
                        gen.summands@[i as int],
                    ));
                    lemma_summands_encoding_len_push(
                        gen.summands@.take(i as int),
                        gen.summands@[i as int],
                    );
                    lemma_summands_encoded_push(
                        dst@,
                        first,
                        gen.summands@.take(i as int),
                        gen.summands@[i as int],
                    );
                }
                i = i + 1;
            }
            proof {
                assert(gen.summands@.take(gen.summands@.len() as int) =~= gen.summands@);
            }
            let ghost osum = dst@.len() as int;
            let ghost p2 = dst@;
            write_biguint_target(dst, &gen.sum.value);
            proof {
                lemma_region_preserved(dst@, p2, 0, first);
                lemma_summands_encoded_preserved(dst@, p2, first, gen.summands@);
            }
            let ghost p3 = dst@;
            write_target(dst, gen.overflow.0);
            proof {
                lemma_region_preserved(dst@, p3, 0, first);
                lemma_summands_encoded_preserved(dst@, p3, first, gen.summands@);
                lemma_biguint_encoded_preserved(dst@, p3, osum, gen.sum.value);
                assert(dst@.subrange(0, fields) =~= after_id) by {
                    lemma_region_preserved(dst@, after_count, 0, fields);
                }
                assert(dst@.subrange(fields, first) =~= after_count.subrange(fields, first)) by {
                    lemma_region_preserved(dst@, after_count, fields, first);
                }
                assert(multiple_adds_fields_encoded(dst@, fields, *gen));
            }
        },
        NonNativeGenerator::Subtraction(gen) => {
            let ghost p1 = dst@;
            write_nonnative_chain(dst, &gen.a, &gen.b, &gen.diff);
            let ghost p2 = dst@;
            write_target(dst, gen.overflow.0);
            proof {
                lemma_region_preserved(dst@, p2, 0, fields);
                assert(dst@.subrange(0, fields) =~= after_id);
                let ob = fields + biguint_encoding_len(gen.a.value);
                let od = ob + biguint_encoding_len(gen.b.value);
                let oo = od + biguint_encoding_len(gen.diff.value);
                lemma_biguint_encoded_preserved(dst@, p2, fields, gen.a.value);
                lemma_biguint_encoded_preserved(dst@, p2, ob, gen.b.value);
                lemma_biguint_encoded_preserved(dst@, p2, od, gen.diff.value);
                assert(subtraction_fields_encoded(dst@, fields, *gen));
            }
        },
        NonNativeGenerator::Multiplication(gen) => {
            let ghost p1 = dst@;
            write_nonnative_chain(dst, &gen.a, &gen.b, &gen.prod);
            let ghost p2 = dst@;
            write_biguint_target(dst, &gen.overflow);
            proof {
                lemma_region_preserved(dst@, p2, 0, fields);
                assert(dst@.subrange(0, fields) =~= after_id);
                let ob = fields + biguint_encoding_len(gen.a.value);
                let op = ob + biguint_encoding_len(gen.b.value);
                lemma_biguint_encoded_preserved(dst@, p2, fields, gen.a.value);
                lemma_biguint_encoded_preserved(dst@, p2, ob, gen.b.value);
                lemma_biguint_encoded_preserved(dst@, p2, op, gen.prod.value);
                assert(multiplication_fields_encoded(dst@, fields, *gen));
            }
        },
        NonNativeGenerator::Inverse(gen) => {
            write_biguint_target(dst, &gen.x.value);
            let ghost p2 = dst@;
            write_biguint_target(dst, &gen.inv);
            proof {
                lemma_region_preserved(dst@, p2, 0, fields);
                lemma_biguint_encoded_preserved(dst@, p2, fields, gen.x.value);
            }
            let ghost p3 = dst@;
            write_biguint_target(dst, &gen.div);
            proof {
                lemma_region_preserved(dst@, p3, 0, fields);
                assert(dst@.subrange(0, fields) =~= after_id);
                let oi = fields + biguint_encoding_len(gen.x.value);
                lemma_biguint_encoded_preserved(dst@, p3, fields, gen.x.value);
                lemma_biguint_encoded_preserved(dst@, p3, oi, gen.inv);
                assert(inverse_fields_encoded(dst@, fields, *gen));
            }
        },
    }
    proof {
        let idlen = generator_id_bytes(*g).len() as int;
        lemma_region_preserved(dst@, after_id, 0, start);
        lemma_region_preserved(dst@, after_id, start, start + 8);
        lemma_region_preserved(dst@, after_id, start + 8, start + 8 + idlen);
    }
    Ok(())
}

/// Append three element targets in order.
fn write_nonnative_chain(dst: &mut Vec<u8>, a: &NonNativeTarget, b: &NonNativeTarget, c: &NonNativeTarget)
    ensures
        final(dst)@.len() == old(dst)@.len() + biguint_encoding_len(a.value) + biguint_encoding_len(b.value) + biguint_encoding_len(c.value),
        final(dst)@.subrange(0, old(dst)@.len() as int) =~= old(dst)@,
        biguint_encoded(final(dst)@, old(dst)@.len() as int, a.value),
        biguint_encoded(final(dst)@, old(dst)@.len() as int + biguint_encoding_len(a.value), b.value),
        biguint_encoded(final(dst)@, old(dst)@.len() as int + biguint_encoding_len(a.value) + biguint_encoding_len(b.value), c.value),
{
    let ghost base = old(dst)@;
    write_biguint_target(dst, &a.value);
    let ghost s1 = dst@;
    write_biguint_target(dst, &b.value);
    proof {
        lemma_region_preserved(dst@, s1, 0, base.len() as int);
        lemma_biguint_encoded_preserved(dst@, s1, base.len() as int, a.value);
    }
    let ghost s2 = dst@;
    write_biguint_target(dst, &c.value);
    proof {
        lemma_region_preserved(dst@, s2, 0, base.len() as int);
        lemma_biguint_encoded_preserved(dst@, s2, base.len() as int, a.value);
        lemma_biguint_encoded_preserved(
            dst@,
            s2,
            base.len() as int + biguint_encoding_len(a.value),
            b.value,
        );
    }
}

/// The five identifier strings are ASCII and of five distinct lengths.
proof fn lemma_ids_distinct()
    ensures
        "NonNativeAdditionGenerator".spec_bytes().len() == 26,
        "NonNativeMultipleAddsGenerator".spec_bytes().len() == 30,
        "NonNativeSubtractionGenerator".spec_bytes().len() == 29,
        "NonNativeMultiplicationGenerator".spec_bytes().len() == 32,
        "NonNativeInverseGenerator".spec_bytes().len() == 25,
{
    reveal_strlit("NonNativeAdditionGenerator");
    reveal_strlit("NonNativeMultipleAddsGenerator");
    reveal_strlit("NonNativeSubtractionGenerator");
    reveal_strlit("NonNativeMultiplicationGenerator");
    reveal_strlit("NonNativeInverseGenerator");
    assert(vstd::utf8::is_ascii_chars("NonNativeAdditionGenerator"@));
    assert(vstd::utf8::is_ascii_chars("NonNativeMultipleAddsGenerator"@));
    assert(vstd::utf8::is_ascii_chars("NonNativeSubtractionGenerator"@));
    assert(vstd::utf8::is_ascii_chars("NonNativeMultiplicationGenerator"@));
    assert(vstd::utf8::is_ascii_chars("NonNativeInverseGenerator"@));
    vstd::utf8::is_ascii_chars_encode_utf8("NonNativeAdditionGenerator"@);
    vstd::utf8::is_ascii_chars_encode_utf8("NonNativeMultipleAddsGenerator"@);
    vstd::utf8::is_ascii_chars_encode_utf8("NonNativeSubtractionGenerator"@);
    vstd::utf8::is_ascii_chars_encode_utf8("NonNativeMultiplicationGenerator"@);
    vstd::utf8::is_ascii_chars_encode_utf8("NonNativeInverseGenerator"@);
}

/// Restore an addition generator's fields: `a`, `b`, `sum`, the overflow
/// wire. Succeeds on every buffer that holds such a field run.
fn deserialize_addition_fields(src: &mut Buffer) -> (r: Result<NonNativeAdditionGenerator, IoError>)
    ensures
        final(src).bytes@ =~= old(src).bytes@,
        r.is_ok() ==> addition_fields_encoded(old(src).bytes@, old(src).pos as int, r.unwrap()),
        r.is_ok() ==> final(src).pos == old(src).pos + addition_fields_len(r.unwrap()),
        forall|gen: NonNativeAdditionGenerator| addition_fields_encoded(old(src).bytes@, old(src).pos as int, gen) ==> r.is_ok(),
{
    let ghost bytes = old(src).bytes@;
    let ghost start = old(src).pos as int;
    let a = match read_nonnative(src) {
        Ok(v) => v,
        Err(e) => {
            proof {
                assert forall|gen: NonNativeAdditionGenerator| !addition_fields_encoded(bytes, start, gen) by {
                    if addition_fields_encoded(bytes, start, gen) {
                        lemma_biguint_encoded_implies_at(bytes, start, gen.a.value);
                    }
                }
            }
            return Err(e);
        },
    };
    let ghost ob = start + biguint_encoding_len(a.value);
    let b = match read_nonnative(src) {
        Ok(v) => v,
        Err(e) => {
            proof {
                assert forall|gen: NonNativeAdditionGenerator| !addition_fields_encoded(bytes, start, gen) by {
                    if addition_fields_encoded(bytes, start, gen) {
                        assert(bytes_value(field_run(bytes, start, 0)) == gen.a.value.limbs@.len());
                        lemma_biguint_encoded_implies_at(bytes, ob, gen.b.value);
                    }
                }
            }
            return Err(e);
        },
    };
    let ghost os = ob + biguint_encoding_len(b.value);
    let sum = match read_nonnative(src) {
        Ok(v) => v,
        Err(e) => {
            proof {
                assert forall|gen: NonNativeAdditionGenerator| !addition_fields_encoded(bytes, start, gen) by {
                    if addition_fields_encoded(bytes, start, gen) {
                        assert(bytes_value(field_run(bytes, start, 0)) == gen.a.value.limbs@.len());
                        assert(bytes_value(field_run(bytes, ob, 0)) == gen.b.value.limbs@.len());
                        lemma_biguint_encoded_implies_at(bytes, os, gen.sum.value);
                    }
                }
            }
            return Err(e);
        },
    };
    let ghost oo = os + biguint_encoding_len(sum.value);
    match read_target(src) {
        Ok(t) => Ok(NonNativeAdditionGenerator { a, b, sum, overflow: BoolTarget(t) }),
        Err(e) => {
            proof {
                assert forall|gen: NonNativeAdditionGenerator| !addition_fields_encoded(bytes, start, gen) by {
                    if addition_fields_encoded(bytes, start, gen) {
                        assert(bytes_value(field_run(bytes, start, 0)) == gen.a.value.limbs@.len());
                        assert(bytes_value(field_run(bytes, ob, 0)) == gen.b.value.limbs@.len());
                        assert(bytes_value(field_run(bytes, os, 0)) == gen.sum.value.limbs@.len());
                        assert(bytes_value(bytes.subrange(oo, oo + 8)) == gen.overflow.0);
                    }
                }
            }
            Err(e)
        },
    }
}

/// Restore a subtraction generator's fields: `a`, `b`, `diff`, the borrow
/// wire. Succeeds on every buffer that holds such a field run.
fn deserialize_subtraction_fields(src: &mut Buffer) -> (r: Result<NonNativeSubtractionGenerator, IoError>)
    ensures
        final(src).bytes@ =~= old(src).bytes@,
        r.is_ok() ==> subtraction_fields_encoded(old(src).bytes@, old(src).pos as int, r.unwrap()),
        r.is_ok() ==> final(src).pos == old(src).pos + subtraction_fields_len(r.unwrap()),
        forall|gen: NonNativeSubtractionGenerator| subtraction_fields_encoded(old(src).bytes@, old(src).pos as int, gen) ==> r.is_ok(),
{
    let ghost bytes = old(src).bytes@;
    let ghost start = old(src).pos as int;
    let a = match read_nonnative(src) {
        Ok(v) => v,
        Err(e) => {
            proof {
                assert forall|gen: NonNativeSubtractionGenerator| !subtraction_fields_encoded(bytes, start, gen) by {
                    if subtraction_fields_encoded(bytes, start, gen) {
                        lemma_biguint_encoded_implies_at(bytes, start, gen.a.value);
                    }
                }
            }
            return Err(e);
        },
    };
    let ghost ob = start + biguint_encoding_len(a.value);
    let b = match read_nonnative(src) {
        Ok(v) => v,
        Err(e) => {
            proof {
                assert forall|gen: NonNativeSubtractionGenerator| !subtraction_fields_encoded(bytes, start, gen) by {
                    if subtraction_fields_encoded(bytes, start, gen) {
                        assert(bytes_value(field_run(bytes, start, 0)) == gen.a.value.limbs@.len());
                        lemma_biguint_encoded_implies_at(bytes, ob, gen.b.value);
                    }
                }
            }
            return Err(e);
        },
    };
    let ghost od = ob + biguint_encoding_len(b.value);
    let diff = match read_nonnative(src) {
        Ok(v) => v,
        Err(e) => {
            proof {
                assert forall|gen: NonNativeSubtractionGenerator| !subtraction_fields_encoded(bytes, start, gen) by {
                    if subtraction_fields_encoded(bytes, start, gen) {
                        assert(bytes_value(field_run(bytes, start, 0)) == gen.a.value.limbs@.len());
                        assert(bytes_value(field_run(bytes, ob, 0)) == gen.b.value.limbs@.len());
                        lemma_biguint_encoded_implies_at(bytes, od, gen.diff.value);
                    }
                }
            }
            return Err(e);
        },
    };
    let ghost oo = od + biguint_encoding_len(diff.value);
    match read_target(src) {
        Ok(t) => Ok(NonNativeSubtractionGenerator { a, b, diff, overflow: BoolTarget(t) }),
        Err(e) => {
            proof {
                assert forall|gen: NonNativeSubtractionGenerator| !subtraction_fields_encoded(bytes, start, gen) by {
                    if subtraction_fields_encoded(bytes, start, gen) {
                        assert(bytes_value(field_run(bytes, start, 0)) == gen.a.value.limbs@.len());
                        assert(bytes_value(field_run(bytes, ob, 0)) == gen.b.value.limbs@.len());
                        assert(bytes_value(field_run(bytes, od, 0)) == gen.diff.value.limbs@.len());
                        assert(bytes_value(bytes.subrange(oo, oo + 8)) == gen.overflow.0);
                    }
                }
            }
            Err(e)
        },
    }
}

/// Restore a multiplication generator's fields: `a`, `b`, `prod`, the
/// multi-limb overflow. Succeeds on every buffer that holds such a field run.
fn deserialize_multiplication_fields(src: &mut Buffer) -> (r: Result<NonNativeMultiplicationGenerator, IoError>)
    ensures
        final(src).bytes@ =~= old(src).bytes@,
        r.is_ok() ==> multiplication_fields_encoded(old(src).bytes@, old(src).pos as int, r.unwrap()),
        r.is_ok() ==> final(src).pos == old(src).pos + multiplication_fields_len(r.unwrap()),
        forall|gen: NonNativeMultiplicationGenerator| multiplication_fields_encoded(old(src).bytes@, old(src).pos as int, gen) ==> r.is_ok(),
{
    let ghost bytes = old(src).bytes@;
    let ghost start = old(src).pos as int;
    let a = match read_nonnative(src) {
        Ok(v) => v,
        Err(e) => {
            proof {
                assert forall|gen: NonNativeMultiplicationGenerator| !multiplication_fields_encoded(bytes, start, gen) by {
                    if multiplication_fields_encoded(bytes, start, gen) {
                        lemma_biguint_encoded_implies_at(bytes, start, gen.a.value);
                    }
                }
            }
            return Err(e);
        },
    };
    let ghost ob = start + biguint_encoding_len(a.value);
    let b = match read_nonnative(src) {
        Ok(v) => v,
        Err(e) => {
            proof {
                assert forall|gen: NonNativeMultiplicationGenerator| !multiplication_fields_encoded(bytes, start, gen) by {
                    if multiplication_fields_encoded(bytes, start, gen) {
                        assert(bytes_value(field_run(bytes, start, 0)) == gen.a.value.limbs@.len());
                        lemma_biguint_encoded_implies_at(bytes, ob, gen.b.value);
                    }
                }
            }
            return Err(e);
        },
    };
    let ghost op = ob + biguint_encoding_len(b.value);
    let prod = match read_nonnative(src) {
        Ok(v) => v,
        Err(e) => {
            proof {
                assert forall|gen: NonNativeMultiplicationGenerator| !multiplication_fields_encoded(bytes, start, gen) by {
                    if multiplication_fields_encoded(bytes, start, gen) {
                        assert(bytes_value(field_run(bytes, start, 0)) == gen.a.value.limbs@.len());
                        assert(bytes_value(field_run(bytes, ob, 0)) == gen.b.value.limbs@.len());
                        lemma_biguint_encoded_implies_at(bytes, op, gen.prod.value);
                    }
                }
            }
            return Err(e);
        },
    };
    let ghost oo = op + biguint_encoding_len(prod.value);
    match read_biguint_target(src) {
        Ok(overflow) => Ok(NonNativeMultiplicationGenerator { a, b, prod, overflow }),
        Err(e) => {
            proof {
                assert forall|gen: NonNativeMultiplicationGenerator| !multiplication_fields_encoded(bytes, start, gen) by {
                    if multiplication_fields_encoded(bytes, start, gen) {
                        assert(bytes_value(field_run(bytes, start, 0)) == gen.a.value.limbs@.len());
                        assert(bytes_value(field_run(bytes, ob, 0)) == gen.b.value.limbs@.len());
                        assert(bytes_value(field_run(bytes, op, 0)) == gen.prod.value.limbs@.len());
                        lemma_biguint_encoded_implies_at(bytes, oo, gen.overflow);
                    }
                }
            }
            Err(e)
        },
    }
}

/// Restore an inversion generator's fields: `x`, `inv`, `div`. Succeeds on
/// every buffer that holds such a field run.
fn deserialize_inverse_fields(src: &mut Buffer) -> (r: Result<NonNativeInverseGenerator, IoError>)
    ensures
        final(src).bytes@ =~= old(src).bytes@,
        r.is_ok() ==> inverse_fields_encoded(old(src).bytes@, old(src).pos as int, r.unwrap()),
        r.is_ok() ==> final(src).pos == old(src).pos + inverse_fields_len(r.unwrap()),
        forall|gen: NonNativeInverseGenerator| inverse_fields_encoded(old(src).bytes@, old(src).pos as int, gen) ==> r.is_ok(),
{
    let ghost bytes = old(src).bytes@;
    let ghost start = old(src).pos as int;
    let x = match read_nonnative(src) {
        Ok(v) => v,
        Err(e) => {
            proof {
                assert forall|gen: NonNativeInverseGenerator| !inverse_fields_encoded(bytes, start, gen) by {
                    if inverse_fields_encoded(bytes, start, gen) {
                        lemma_biguint_encoded_implies_at(bytes, start, gen.x.value);
                    }
                }
            }
            return Err(e);
        },
    };
    let ghost oi = start + biguint_encoding_len(x.value);
    let inv = match read_biguint_target(src) {
        Ok(v) => v,
        Err(e) => {
            proof {
                assert forall|gen: NonNativeInverseGenerator| !inverse_fields_encoded(bytes, start, gen) by {
                    if inverse_fields_encoded(bytes, start, gen) {
                        assert(bytes_value(field_run(bytes, start, 0)) == gen.x.value.limbs@.len());
                        lemma_biguint_encoded_implies_at(bytes, oi, gen.inv);
                    }
                }
            }
            return Err(e);
        },
    };
    let ghost od = oi + biguint_encoding_len(inv);
    match read_biguint_target(src) {
        Ok(quotient) => Ok(NonNativeInverseGenerator { x, inv, div: quotient }),
        Err(e) => {
            proof {
                assert forall|gen: NonNativeInverseGenerator| !inverse_fields_encoded(bytes, start, gen) by {
                    if inverse_fields_encoded(bytes, start, gen) {
                        assert(bytes_value(field_run(bytes, start, 0)) == gen.x.value.limbs@.len());
                        assert(bytes_value(field_run(bytes, oi, 0)) == gen.inv.limbs@.len());
                        lemma_biguint_encoded_implies_at(bytes, od, gen.div);
                    }
                }
            }
            Err(e)
        },
    }
}

/// Restore a many-operand addition generator's fields: the summand count,
/// each summand, the sum, the overflow wire. Succeeds on every buffer that
/// holds such a field run.
fn deserialize_multiple_adds_fields(src: &mut Buffer) -> (r: Result<NonNativeMultipleAddsGenerator, IoError>)
    ensures
        final(src).bytes@ =~= old(src).bytes@,
        r.is_ok() ==> multiple_adds_fields_encoded(old(src).bytes@, old(src).pos as int, r.unwrap()),
        r.is_ok() ==> final(src).pos == old(src).pos + multiple_adds_fields_len(r.unwrap()),
        forall|gen: NonNativeMultipleAddsGenerator| multiple_adds_fields_encoded(old(src).bytes@, old(src).pos as int, gen) ==> r.is_ok(),
{
    let ghost bytes = old(src).bytes@;
    let ghost start = old(src).pos as int;
    let n = match read_target(src) {
        Ok(n) => n,
        Err(e) => {
            proof {
                assert forall|gen: NonNativeMultipleAddsGenerator| !multiple_adds_fields_encoded(bytes, start, gen) by {
                    if multiple_adds_fields_encoded(bytes, start, gen) {
                        vstd::std_specs::vec::axiom_spec_len(&gen.summands);
                    }
                }
            }
            return Err(e);
        },
    };
    let ghost first = start + 8;
    let mut summands: Vec<NonNativeTarget> = Vec::new();
    let mut i: usize = 0;
    while i < n
        invariant
            i <= n,
            start == old(src).pos,
            first == start + 8,
            src.bytes@ =~= old(src).bytes@,
            bytes == old(src).bytes@,
            n as nat == bytes_value(bytes.subrange(start, start + 8)),
            summands@.len() == i,
            src.pos == first + summands_encoding_len(summands@),
            summands_encoded(bytes, first, summands@),
        decreases n - i,
    {
        proof {
            lemma_summands_encoding_len_nonneg(summands@);
        }
        match read_nonnative(src) {
            Ok(v) => {
                proof {
                    lemma_summands_encoding_len_push(summands@, v);
                    lemma_summands_encoded_push(bytes, first, summands@, v);
                }
                summands.push(v);
            },
            Err(e) => {
                proof {
                    assert forall|gen: NonNativeMultipleAddsGenerator| !multiple_adds_fields_encoded(bytes, start, gen) by {
                        if multiple_adds_fields_encoded(bytes, start, gen) {
                            assert(gen.summands@.len() == n);
                            lemma_summands_encoded_align(bytes, first, summands@, gen.summands@);
                            let rest = gen.summands@.skip(i as int);
                            assert(rest.len() > 0);
                            assert(biguint_encoded(
                                bytes,
                                first + summands_encoding_len(summands@),
                                rest[0].value,
                            ));
                            lemma_biguint_encoded_implies_at(
                                bytes,
                                first + summands_encoding_len(summands@),
                                rest[0].value,
                            );
                        }
                    }
                }
                return Err(e);
            },
        }
        i = i + 1;
    }
    let ghost osum = first + summands_encoding_len(summands@);
    let sum = match read_nonnative(src) {
        Ok(v) => v,
        Err(e) => {
            proof {
                assert forall|gen: NonNativeMultipleAddsGenerator| !multiple_adds_fields_encoded(bytes, start, gen) by {
                    if multiple_adds_fields_encoded(bytes, start, gen) {
                        assert(gen.summands@.len() == n);
                        lemma_summands_encoded_align(bytes, first, summands@, gen.summands@);
                        lemma_summands_encoded_align(bytes, first, gen.summands@, summands@);
                        assert(summands_encoding_len(summands@) == summands_encoding_len(gen.summands@));
                        lemma_biguint_encoded_implies_at(bytes, osum, gen.sum.value);
                    }
                }
            }
            return Err(e);
        },
    };
    let ghost oo = osum + biguint_encoding_len(sum.value);
    match read_target(src) {
        Ok(t) => {
            let result = NonNativeMultipleAddsGenerator { summands, sum, overflow: U32Target(t) };
            proof {
                assert(multiple_adds_fields_encoded(bytes, start, result));
            }
            Ok(result)
        },
        Err(e) => {
            proof {
                assert forall|gen: NonNativeMultipleAddsGenerator| !multiple_adds_fields_encoded(bytes, start, gen) by {
                    if multiple_adds_fields_encoded(bytes, start, gen) {
                        assert(gen.summands@.len() == n);
                        lemma_summands_encoded_align(bytes, first, summands@, gen.summands@);
                        lemma_summands_encoded_align(bytes, first, gen.summands@, summands@);
                        assert(summands_encoding_len(summands@) == summands_encoding_len(gen.summands@));
                        assert(bytes_value(field_run(bytes, osum, 0)) == gen.sum.value.limbs@.len());
                        assert(bytes_value(bytes.subrange(oo, oo + 8)) == gen.overflow.0);
                    }
                }
            }
            Err(e)
        },
    }
}

/// Restore a generator from its serialized form, keyed on the identifier
/// string. Succeeds on every buffer that holds a generator's encoding, and
/// what it restores is exactly what the bytes encode; an unknown identifier
/// is an error.
pub fn deserialize_generator(src: &mut Buffer) -> (r: Result<NonNativeGenerator, IoError>)
    ensures
        final(src).bytes@ =~= old(src).bytes@,
        r.is_ok() ==> generator_encoded(old(src).bytes@, old(src).pos as int, r.unwrap()),
        r.is_ok() ==> final(src).pos == old(src).pos + generator_encoding_len(r.unwrap()),
        forall|g: NonNativeGenerator| generator_encoded(old(src).bytes@, old(src).pos as int, g) ==> r.is_ok(),
{
    let ghost bytes = old(src).bytes@;
    let ghost start = old(src).pos as int;
    let id = match read_bytes(src) {
        Ok(id) => id,
        Err(e) => {
            proof {
                assert forall|g: NonNativeGenerator| !generator_encoded(bytes, start, g) by {
                    if generator_encoded(bytes, start, g) {
                        lemma_ids_distinct();
                    }
                }
            }
            return Err(e);
        },
    };
    let ghost fields = start + 8 + id@.len() as int;
    if bytes_match(&id, NonNativeAdditionGenerator::id().as_bytes()) {
        match deserialize_addition_fields(src) {
            Ok(gen) => {
                let result = NonNativeGenerator::Addition(gen);
                proof {
                    assert(generator_encoded(bytes, start, result));
                }
                Ok(result)
            },
            Err(e) => {
                proof {
                    assert forall|g: NonNativeGenerator| !generator_encoded(bytes, start, g) by {
                        if generator_encoded(bytes, start, g) {
                            lemma_ids_distinct();
                            assert(id@ =~= generator_id_bytes(g));
                            assert(g is Addition);
                        }
                    }
                }
                Err(e)
            },
        }
    } else if bytes_match(&id, NonNativeMultipleAddsGenerator::id().as_bytes()) {
        match deserialize_multiple_adds_fields(src) {
            Ok(gen) => {
                let result = NonNativeGenerator::MultipleAdds(gen);
                proof {
                    assert(generator_encoded(bytes, start, result));
                }
                Ok(result)
            },
            Err(e) => {
                proof {
                    assert forall|g: NonNativeGenerator| !generator_encoded(bytes, start, g) by {
                        if generator_encoded(bytes, start, g) {
                            lemma_ids_distinct();
                            assert(id@ =~= generator_id_bytes(g));
                            assert(g is MultipleAdds);
                        }
                    }
                }
                Err(e)
            },
        }
    } else if bytes_match(&id, NonNativeSubtractionGenerator::id().as_bytes()) {
        match deserialize_subtraction_fields(src) {
            Ok(gen) => {
                let result = NonNativeGenerator::Subtraction(gen);
                proof {
                    assert(generator_encoded(bytes, start, result));
                }
                Ok(result)
            },
            Err(e) => {
                proof {
                    assert forall|g: NonNativeGenerator| !generator_encoded(bytes, start, g) by {
                        if generator_encoded(bytes, start, g) {
                            lemma_ids_distinct();
                            assert(id@ =~= generator_id_bytes(g));
                            assert(g is Subtraction);
                        }
                    }
                }
                Err(e)
            },
        }
    } else if bytes_match(&id, NonNativeMultiplicationGenerator::id().as_bytes()) {
        match deserialize_multiplication_fields(src) {
            Ok(gen) => {
                let result = NonNativeGenerator::Multiplication(gen);
                proof {
                    assert(generator_encoded(bytes, start, result));
                }
                Ok(result)
            },
            Err(e) => {
                proof {
                    assert forall|g: NonNativeGenerator| !generator_encoded(bytes, start, g) by {
                        if generator_encoded(bytes, start, g) {
                            lemma_ids_distinct();
                            assert(id@ =~= generator_id_bytes(g));
                            assert(g is Multiplication);
                        }
                    }
                }
                Err(e)
            },
        }
    } else if bytes_match(&id, NonNativeInverseGenerator::id().as_bytes()) {
        match deserialize_inverse_fields(src) {
            Ok(gen) => {
                let result = NonNativeGenerator::Inverse(gen);
                proof {
                    assert(generator_encoded(bytes, start, result));
                }
                Ok(result)
            },
            Err(e) => {
                proof {
                    assert forall|g: NonNativeGenerator| !generator_encoded(bytes, start, g) by {
                        if generator_encoded(bytes, start, g) {
                            lemma_ids_distinct();
                            assert(id@ =~= generator_id_bytes(g));
                            assert(g is Inverse);
                        }
                    }
                }
                Err(e)
            },
        }
    } else {
        proof {
            assert forall|g: NonNativeGenerator| !generator_encoded(bytes, start, g) by {
                if generator_encoded(bytes, start, g) {
                    assert(id@ =~= generator_id_bytes(g));
                }
            }
        }
        Err(IoError::UnknownGenerator)
    }
}

/// Two generators are the same record: the same kind, with the same wires,
/// limb for limb, in the same order.
pub open spec fn generator_matches(g1: NonNativeGenerator, g2: NonNativeGenerator) -> bool {
    match (g1, g2) {
        (NonNativeGenerator::Addition(x), NonNativeGenerator::Addition(y)) => {
            &&& x.a.value.limbs@ =~= y.a.value.limbs@
            &&& x.b.value.limbs@ =~= y.b.value.limbs@
            &&& x.sum.value.limbs@ =~= y.sum.value.limbs@
            &&& x.overflow == y.overflow
        },
        (NonNativeGenerator::MultipleAdds(x), NonNativeGenerator::MultipleAdds(y)) => {
            &&& x.summands@.len() == y.summands@.len()
            &&& (forall|i: int| 0 <= i < x.summands@.len() ==> (#[trigger] x.summands@[i]).value.limbs@ =~= y.summands@[i].value.limbs@)
            &&& x.sum.value.limbs@ =~= y.sum.value.limbs@
            &&& x.overflow == y.overflow
        },
        (NonNativeGenerator::Subtraction(x), NonNativeGenerator::Subtraction(y)) => {
            &&& x.a.value.limbs@ =~= y.a.value.limbs@
            &&& x.b.value.limbs@ =~= y.b.value.limbs@
            &&& x.diff.value.limbs@ =~= y.diff.value.limbs@
            &&& x.overflow == y.overflow
        },
        (NonNativeGenerator::Multiplication(x), NonNativeGenerator::Multiplication(y)) => {
            &&& x.a.value.limbs@ =~= y.a.value.limbs@
            &&& x.b.value.limbs@ =~= y.b.value.limbs@
            &&& x.prod.value.limbs@ =~= y.prod.value.limbs@
            &&& x.overflow.limbs@ =~= y.overflow.limbs@
        },
        (NonNativeGenerator::Inverse(x), NonNativeGenerator::Inverse(y)) => {
            &&& x.x.value.limbs@ =~= y.x.value.limbs@
            &&& x.inv.limbs@ =~= y.inv.limbs@
            &&& x.div.limbs@ =~= y.div.limbs@
        },
        _ => false,
    }
}

proof fn lemma_summands_encoded_unique(bytes: Seq<u8>, start: int, s1: Seq<NonNativeTarget>, s2: Seq<NonNativeTarget>)
    requires
        summands_encoded(bytes, start, s1),
        summands_encoded(bytes, start, s2),
        s1.len() == s2.len(),
    ensures
        forall|i: int| 0 <= i < s1.len() ==> (#[trigger] s1[i]).value.limbs@ =~= s2[i].value.limbs@,
    decreases s1.len(),
{
    if s1.len() > 0 {
        lemma_biguint_encoded_unique(bytes, start, s1[0].value, s2[0].value);
        assert(biguint_encoding_len(s1[0].value) == biguint_encoding_len(s2[0].value));
        lemma_summands_encoded_unique(
            bytes,
            start + biguint_encoding_len(s1[0].value),
            s1.skip(1),
            s2.skip(1),
        );
        assert forall|i: int|
            0 <= i < s1.len() implies (#[trigger] s1[i]).value.limbs@ =~= s2[i].value.limbs@ by {
            if i >= 1 {
                assert(s1[i] == s1.skip(1)[i - 1]);
                assert(s2[i] == s2.skip(1)[i - 1]);
            }
        }
    }
}

/// The round-trip law: one byte span encodes at most one generator record,
/// so a generator restored from a serialized one is that generator, kind and
/// handles alike. With `serialize_generator`'s and `deserialize_generator`'s
/// contracts, deserializing what serialize wrote yields a matching record.
pub proof fn lemma_generator_encoding_unique(bytes: Seq<u8>, start: int, g1: NonNativeGenerator, g2: NonNativeGenerator)
    requires
        generator_encoded(bytes, start, g1),
        generator_encoded(bytes, start, g2),
    ensures
        generator_matches(g1, g2),
{
    lemma_ids_distinct();
    let idlen = generator_id_bytes(g1).len() as int;
    assert(generator_id_bytes(g2).len() as int == idlen);
    assert(generator_id_bytes(g1) =~= generator_id_bytes(g2));
    let fields = start + 8 + idlen;
    match (g1, g2) {
        (NonNativeGenerator::Addition(x), NonNativeGenerator::Addition(y)) => {
            lemma_biguint_encoded_unique(bytes, fields, x.a.value, y.a.value);
            let ob = fields + biguint_encoding_len(x.a.value);
            lemma_biguint_encoded_unique(bytes, ob, x.b.value, y.b.value);
            let os = ob + biguint_encoding_len(x.b.value);
            lemma_biguint_encoded_unique(bytes, os, x.sum.value, y.sum.value);
            let oo = os + biguint_encoding_len(x.sum.value);
            assert(x.overflow.0 == bytes_value(bytes.subrange(oo, oo + 8)));
        },
        (NonNativeGenerator::MultipleAdds(x), NonNativeGenerator::MultipleAdds(y)) => {
            let first = fields + 8;
            assert(x.summands@.len() == bytes_value(bytes.subrange(fields, fields + 8)));
            lemma_summands_encoded_unique(bytes, first, x.summands@, y.summands@);
            lemma_summands_encoded_align(bytes, first, x.summands@, y.summands@);
            lemma_summands_encoded_align(bytes, first, y.summands@, x.summands@);
            let osum = first + summands_encoding_len(x.summands@);
            lemma_biguint_encoded_unique(bytes, osum, x.sum.value, y.sum.value);
            let oo = osum + biguint_encoding_len(x.sum.value);
            assert(x.overflow.0 == bytes_value(bytes.subrange(oo, oo + 8)));
        },
        (NonNativeGenerator::Subtraction(x), NonNativeGenerator::Subtraction(y)) => {
            lemma_biguint_encoded_unique(bytes, fields, x.a.value, y.a.value);
            let ob = fields + biguint_encoding_len(x.a.value);
            lemma_biguint_encoded_unique(bytes, ob, x.b.value, y.b.value);
            let od = ob + biguint_encoding_len(x.b.value);
            lemma_biguint_encoded_unique(bytes, od, x.diff.value, y.diff.value);
            let oo = od + biguint_encoding_len(x.diff.value);
            assert(x.overflow.0 == bytes_value(bytes.subrange(oo, oo + 8)));
        },
        (NonNativeGenerator::Multiplication(x), NonNativeGenerator::Multiplication(y)) => {
            lemma_biguint_encoded_unique(bytes, fields, x.a.value, y.a.value);
            let ob = fields + biguint_encoding_len(x.a.value);
            lemma_biguint_encoded_unique(bytes, ob, x.b.value, y.b.value);
            let op = ob + biguint_encoding_len(x.b.value);
            lemma_biguint_encoded_unique(bytes, op, x.prod.value, y.prod.value);
            let oo = op + biguint_encoding_len(x.prod.value);
            lemma_biguint_encoded_unique(bytes, oo, x.overflow, y.overflow);
        },
        (NonNativeGenerator::Inverse(x), NonNativeGenerator::Inverse(y)) => {
            lemma_biguint_encoded_unique(bytes, fields, x.x.value, y.x.value);
            let oi = fields + biguint_encoding_len(x.x.value);
            lemma_biguint_encoded_unique(bytes, oi, x.inv, y.inv);
            let od = oi + biguint_encoding_len(x.inv);
            lemma_biguint_encoded_unique(bytes, od, x.div, y.div);
        },
        _ => {
        },
    }
}

} // verus!
