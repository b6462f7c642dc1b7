//! Byte-level helpers shared by the identity, digest and ELF readers:
//! little-endian integer encodings, ASCII hexadecimal and UTF-8 text.
use vstd::prelude::*;

verus! {

/// The `n` low bytes of `v`, least significant first.
pub open spec fn le_bytes(v: nat, n: nat) -> Seq<u8>
    decreases n,
{
    if n == 0 {
        Seq::<u8>::empty()
    } else {
        seq![(v % 256) as u8] + le_bytes(v / 256, (n - 1) as nat)
    }
}

/// The value of a little-endian byte sequence.
pub open spec fn le_value(bytes: Seq<u8>) -> nat
    decreases bytes.len(),
{
    if bytes.len() == 0 {
        0
    } else {
        bytes[0] as nat + 256 * le_value(bytes.drop_first())
    }
}

/// The value of a big-endian byte sequence.
pub open spec fn be_value(bytes: Seq<u8>) -> nat
    decreases bytes.len(),
{
    if bytes.len() == 0 {
        0
    } else {
        256 * be_value(bytes.drop_last()) + bytes.last() as nat
    }
}

pub proof fn lemma_le_bytes_len(v: nat, n: nat)
    ensures
        le_bytes(v, n).len() == n,
    decreases n,
{
    if n > 0 {
        lemma_le_bytes_len(v / 256, (n - 1) as nat);
    }
}

/// Decoding the little-endian encoding of a value that fits gives it back.
pub proof fn lemma_le_roundtrip(v: nat, n: nat)
    requires
        v < vstd::arithmetic::power::pow(256, n),
    ensures
        le_value(le_bytes(v, n)) == v,
    decreases n,
{
    reveal(vstd::arithmetic::power::pow);
    if n > 0 {
        lemma_le_bytes_len(v / 256, (n - 1) as nat);
        assert(v / 256 < vstd::arithmetic::power::pow(256, (n - 1) as nat)) by {
            vstd::arithmetic::div_mod::lemma_div_is_ordered(v as int, vstd::arithmetic::power::pow(256, n) - 1, 256);
            vstd::arithmetic::power::lemma_pow_positive(256, (n - 1) as nat);
            assert(vstd::arithmetic::power::pow(256, n) == 256 * vstd::arithmetic::power::pow(256, (n - 1) as nat));
            vstd::arithmetic::div_mod::lemma_div_by_multiple(vstd::arithmetic::power::pow(256, (n - 1) as nat), 256);
            assert((vstd::arithmetic::power::pow(256, n) - 1) / 256 < vstd::arithmetic::power::pow(256, (n - 1) as nat)) by(nonlinear_arith)
                requires vstd::arithmetic::power::pow(256, n) == 256 * vstd::arithmetic::power::pow(256, (n - 1) as nat);
        }
        lemma_le_roundtrip(v / 256, (n - 1) as nat);
        let s = le_bytes(v, n);
        assert(s.drop_first() =~= le_bytes(v / 256, (n - 1) as nat));
        assert(v == v % 256 + 256 * (v / 256)) by(nonlinear_arith);
    }
}

/// Little-endian encoding of a `u64` as eight bytes.
pub fn u64_to_le_bytes(value: u64) -> (out: Vec<u8>)
    ensures
        out@ == le_bytes(value as nat, 8),
{
    let mut out: Vec<u8> = Vec::new();
    let mut rest: u64 = value;
    let mut i: usize = 0;
    while i < 8
        invariant
            i <= 8,
            out@ + le_bytes(rest as nat, (8 - i) as nat) == le_bytes(value as nat, 8),
        decreases 8 - i,
    {
        let ghost before = out@;
        out.push((rest % 256) as u8);
        proof {
            let tail = le_bytes(rest as nat / 256, (8 - i - 1) as nat);
            assert(le_bytes(rest as nat, (8 - i) as nat) == seq![(rest % 256) as u8] + tail);
            assert(out@ + tail =~= before + (seq![(rest % 256) as u8] + tail));
        }
        rest = rest / 256;
        i = i + 1;
    }
    assert(out@ + le_bytes(rest as nat, 0) =~= out@);
    out
}

/// A fresh vector holding `bytes`.
pub fn slice_to_vec(bytes: &[u8]) -> (out: Vec<u8>)
    ensures
        out@ == bytes@,
{
    let mut out: Vec<u8> = Vec::new();
    let mut i: usize = 0;
    while i < bytes.len()
        invariant
            i <= bytes.len(),
            out@ == bytes@.take(i as int),
        decreases bytes.len() - i,
    {
        out.push(bytes[i]);
        proof {
            assert(bytes@.take(i as int + 1) =~= bytes@.take(i as int).push(bytes@[i as int]));
        }
        i = i + 1;
    }
    proof {
        assert(bytes@.take(bytes.len() as int) =~= bytes@);
    }
    out
}

/// Whether two byte strings are equal.
pub fn bytes_equal(a: &[u8], b: &[u8]) -> (out: bool)
    ensures
        out <==> a@ == b@,
{
    if a.len() != b.len() {
        return false;
    }
    let mut i: usize = 0;
    while i < a.len()
        invariant
            i <= a@.len(),
            a@.len() == b@.len(),
            forall|j: int| 0 <= j < i ==> a@[j] == b@[j],
        decreases a@.len() - i,
    {
        if a[i] != b[i] {
            return false;
        }
        i = i + 1;
    }
    assert(a@ =~= b@);
    true
}

} // verus!
