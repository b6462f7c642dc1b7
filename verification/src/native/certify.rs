//! Probe-measurement helpers: the decimal rendering of witness bytes, the
//! measurement-blob reader and the bitfield-offset decoder.
use vstd::prelude::*;
use vstd::string::StringExecFns;

use super::error::NativeError;
use super::inspect::{endian_value, read_u64, slice_at, slice_at_spec};
use crate::bytes::{bytes_equal, le_value};
use crate::contract::Endian;

verus! {

// ---------------------------------------------------------------------------
// Decimal rendering
// ---------------------------------------------------------------------------

pub open spec fn digit_char(d: nat) -> char {
    if d == 0 {
        '0'
    } else if d == 1 {
        '1'
    } else if d == 2 {
        '2'
    } else if d == 3 {
        '3'
    } else if d == 4 {
        '4'
    } else if d == 5 {
        '5'
    } else if d == 6 {
        '6'
    } else if d == 7 {
        '7'
    } else if d == 8 {
        '8'
    } else {
        '9'
    }
}

/// The decimal spelling of `v`, without leading zeros.
pub open spec fn decimal_spec(v: nat) -> Seq<char>
    decreases v,
{
    if v < 10 {
        seq![digit_char(v)]
    } else {
        decimal_spec(v / 10) + seq![digit_char(v % 10)]
    }
}

fn digit_str(d: u64) -> (out: &'static str)
    requires
        d < 10,
    ensures
        out@ == seq![digit_char(d as nat)],
{
    proof {
        reveal_strlit("0");
        reveal_strlit("1");
        reveal_strlit("2");
        reveal_strlit("3");
        reveal_strlit("4");
        reveal_strlit("5");
        reveal_strlit("6");
        reveal_strlit("7");
        reveal_strlit("8");
        reveal_strlit("9");
    }
    if d == 0 {
        "0"
    } else if d == 1 {
        "1"
    } else if d == 2 {
        "2"
    } else if d == 3 {
        "3"
    } else if d == 4 {
        "4"
    } else if d == 5 {
        "5"
    } else if d == 6 {
        "6"
    } else if d == 7 {
        "7"
    } else if d == 8 {
        "8"
    } else {
        "9"
    }
}

/// The decimal spelling of `v`.
pub fn decimal(v: u64) -> (out: String)
    ensures
        out@ == decimal_spec(v as nat),
    decreases v,
{
    if v < 10 {
        digit_str(v).to_owned()
    } else {
        decimal(v / 10).concat(digit_str(v % 10))
    }
}

/// The decimal spellings of `bytes`, in order.
pub open spec fn byte_literals(bytes: Seq<u8>) -> Seq<Seq<char>>
    decreases bytes.len(),
{
    if bytes.len() == 0 {
        Seq::empty()
    } else {
        byte_literals(bytes.drop_last()).push(decimal_spec(bytes.last() as nat))
    }
}

/// Appends the decimal spelling of each byte, in order.
pub fn push_literal_bytes(output: &mut Vec<String>, bytes: &[u8])
    ensures
        final(output)@.map_values(|s: String| s@) == old(output)@.map_values(|s: String| s@) + byte_literals(bytes@),
{
    let ghost start = old(output)@.map_values(|s: String| s@);
    let mut i: usize = 0;
    while i < bytes.len()
        invariant
            i <= bytes@.len(),
            output@.map_values(|s: String| s@) == start + byte_literals(bytes@.take(i as int)),
        decreases bytes@.len() - i,
    {
        let ghost before = output@;
        let item = decimal(bytes[i] as u64);
        output.push(item);
        proof {
            assert(bytes@.take(i + 1).drop_last() =~= bytes@.take(i as int));
            assert(output@.map_values(|s: String| s@) =~= before.map_values(|s: String| s@).push(item@));
            assert(output@.map_values(|s: String| s@) =~= start + byte_literals(bytes@.take(i + 1)));
        }
        i = i + 1;
    }
    proof {
        assert(bytes@.take(bytes@.len() as int) =~= bytes@);
    }
}

/// Appends the decimal spellings of the eight little-endian bytes of `value`.
pub fn push_u64(output: &mut Vec<String>, value: u64)
    ensures
        final(output)@.map_values(|s: String| s@) == old(output)@.map_values(|s: String| s@) + byte_literals(
            crate::bytes::le_bytes(value as nat, 8),
        ),
{
    let bytes = crate::bytes::u64_to_le_bytes(value);
    push_literal_bytes(output, bytes.as_slice());
}

/// The C expression that extracts byte `shift / 8` of `expression`.
pub open spec fn byte_expression(expression: Seq<char>, shift: nat) -> Seq<char> {
    "(unsigned char)(((unsigned long long)("@ + expression + ") >> "@ + decimal_spec(shift) + ") & 255ULL)"@
}

/// Appends eight C expressions that extract the little-endian bytes of
/// `expression`, for shifts 0, 8, ..., 56.
pub fn push_u64_expression(output: &mut Vec<String>, expression: String)
    ensures
        final(output)@.len() == old(output)@.len() + 8,
        forall|i: int| 0 <= i < old(output)@.len() ==> final(output)@[i] == old(output)@[i],
        forall|k: int| 0 <= k < 8 ==> (#[trigger] final(output)@[old(output)@.len() + k])@ == byte_expression(
            expression@,
            (8 * k) as nat,
        ),
{
    let ghost start = old(output)@;
    let mut shift: u64 = 0;
    while shift < 64
        invariant
            shift % 8 == 0,
            shift <= 64,
            output@.len() == start.len() + shift / 8,
            forall|i: int| 0 <= i < start.len() ==> output@[i] == start[i],
            forall|k: int| 0 <= k < shift / 8 ==> (#[trigger] output@[start.len() + k])@ == byte_expression(
                expression@,
                (8 * k) as nat,
            ),
        decreases 64 - shift,
    {
        let item = "(unsigned char)(((unsigned long long)(".to_owned().concat(expression.as_str()).concat(
            ") >> ",
        ).concat(decimal(shift).as_str()).concat(") & 255ULL)");
        output.push(item);
        proof {
            assert(item@ =~= byte_expression(expression@, shift as nat));
            assert(8 * (shift / 8) == shift);
        }
        shift = shift + 8;
    }
}

// ---------------------------------------------------------------------------
// Measurement blobs
// ---------------------------------------------------------------------------

fn parser_gap(detail: String) -> (out: NativeError)
    ensures
        out == (NativeError::ProbeParserGap { detail }),
{
    NativeError::ProbeParserGap { detail }
}

/// Sequential reader over a probe's measurement blob.
pub struct BlobReader<'a> {
    bytes: &'a [u8],
    offset: usize,
}

impl<'a> BlobReader<'a> {
    pub closed spec fn spec_bytes(&self) -> Seq<u8> {
        self.bytes@
    }

    pub closed spec fn spec_offset(&self) -> nat {
        self.offset as nat
    }

    /// A reader at the start of `bytes`.
    pub fn new(bytes: &'a [u8]) -> (out: Self)
        ensures
            out.spec_bytes() == bytes@,
            out.spec_offset() == 0,
    {
        BlobReader { bytes, offset: 0 }
    }

    /// The next `length` bytes, which must lie inside the blob; the reader
    /// moves past them.
    pub fn take(&mut self, length: usize, field: &str) -> (res: Result<&'a [u8], NativeError>)
        ensures
            final(self).spec_bytes() == old(self).spec_bytes(),
            match slice_at_spec(old(self).spec_bytes(), old(self).spec_offset() as int, length as int) {
                Some(s) => res matches Ok(v) && v@ == s && final(self).spec_offset() == old(self).spec_offset()
                    + length,
                None => res matches Err(NativeError::ProbeParserGap { .. }) && final(self).spec_offset() == old(
                    self,
                ).spec_offset(),
            },
    {
        let total = self.bytes.len();
        let end = match self.offset.checked_add(length) {
            Some(end) => end,
            None => {
                return Err(parser_gap(field.to_owned().concat(" offset overflow")));
            },
        };
        match slice_at(self.bytes, self.offset, length) {
            Some(value) => {
                self.offset = end;
                Ok(value)
            },
            None => Err(parser_gap("measurement blob is truncated at ".to_owned().concat(field))),
        }
    }

    /// Consumes bytes equal to `expected`.
    pub fn expect_bytes(&mut self, expected: &[u8], field: &str) -> (res: Result<(), NativeError>)
        ensures
            final(self).spec_bytes() == old(self).spec_bytes(),
            res is Ok <==> slice_at_spec(old(self).spec_bytes(), old(self).spec_offset() as int, expected@.len() as int)
                == Some(expected@),
            res is Ok ==> final(self).spec_offset() == old(self).spec_offset() + expected@.len(),
            res matches Err(e) ==> e is ProbeParserGap,
    {
        let actual = self.take(expected.len(), field)?;
        if !bytes_equal(actual, expected) {
            return Err(parser_gap("measurement ".to_owned().concat(field).concat(" differs")));
        }
        Ok(())
    }

    /// The next eight bytes as a little-endian integer.
    pub fn u64(&mut self, field: &str) -> (res: Result<u64, NativeError>)
        ensures
            final(self).spec_bytes() == old(self).spec_bytes(),
            match slice_at_spec(old(self).spec_bytes(), old(self).spec_offset() as int, 8) {
                Some(s) => res matches Ok(v) && v == le_value(s) && final(self).spec_offset() == old(self).spec_offset()
                    + 8,
                None => res matches Err(NativeError::ProbeParserGap { .. }),
            },
    {
        let bytes = self.take(8, field)?;
        match read_u64(bytes, 0, Endian::Little) {
            Ok(v) => {
                proof {
                    assert(bytes@.subrange(0, 8) =~= bytes@);
                }
                Ok(v)
            },
            Err(_) => {
                proof {
                    assert(false);
                }
                Err(parser_gap("measurement blob is truncated at ".to_owned().concat(field)))
            },
        }
    }

    /// The next eight bytes as a little-endian integer that fits in 32 bits.
    pub fn u32_from_u64(&mut self, field: &str) -> (res: Result<u32, NativeError>)
        ensures
            final(self).spec_bytes() == old(self).spec_bytes(),
            match slice_at_spec(old(self).spec_bytes(), old(self).spec_offset() as int, 8) {
                Some(s) => if le_value(s) <= u32::MAX {
                    res matches Ok(v) && v == le_value(s) && final(self).spec_offset() == old(self).spec_offset() + 8
                } else {
                    res matches Err(NativeError::ProbeParserGap { .. })
                },
                None => res matches Err(NativeError::ProbeParserGap { .. }),
            },
    {
        let value = self.u64(field)?;
        if value > 0xffff_ffff {
            return Err(parser_gap("measurement ".to_owned().concat(field).concat(" exceeds u32")));
        }
        Ok(value as u32)
    }

    /// Accepts a reader that consumed the whole blob.
    pub fn finish(self) -> (res: Result<(), NativeError>)
        ensures
            res is Ok <==> self.spec_offset() == self.spec_bytes().len(),
            res matches Err(e) ==> e is ProbeParserGap,
    {
        if self.offset != self.bytes.len() {
            return Err(parser_gap("measurement blob has trailing bytes".to_owned()));
        }
        Ok(())
    }
}

// ---------------------------------------------------------------------------
// Bitfield witnesses
// ---------------------------------------------------------------------------

pub const BITFIELD_INCOHERENT: &'static str = "bitfield witness size or declared width is incoherent";

pub const BITFIELD_COUNT: &'static str = "bitfield witness has a set-bit count different from its width";

pub const BITFIELD_EMPTY: &'static str = "bitfield witness has no set bit";

pub const BITFIELD_SPLIT: &'static str = "bitfield witness is not one contiguous little-endian range";

/// Whether bit `k` (little-endian, bit 0 of byte 0 first) of `bytes` is set.
pub open spec fn bit_at(bytes: Seq<u8>, k: int) -> bool {
    ((bytes[k / 8] >> ((k % 8) as u8)) & 1u8) == 1u8
}

/// The offsets of the set bits below `n`, ascending.
pub open spec fn set_bits_below(bytes: Seq<u8>, n: int) -> Seq<int>
    decreases n,
{
    if n <= 0 {
        Seq::empty()
    } else if bit_at(bytes, n - 1) {
        set_bits_below(bytes, n - 1).push(n - 1)
    } else {
        set_bits_below(bytes, n - 1)
    }
}

/// The offsets of all set bits of `bytes`, ascending.
pub open spec fn set_bits(bytes: Seq<u8>) -> Seq<int> {
    set_bits_below(bytes, 8 * bytes.len() as int)
}

/// The set bits form one run starting at the first of them.
pub open spec fn contiguous(bits: Seq<int>) -> bool {
    forall|i: int| 0 <= i < bits.len() ==> #[trigger] bits[i] == bits[0] + i
}

/// The bit offset of a bitfield from its witness bytes (the record with only
/// that field's bits set), or why the witness is refused.
pub open spec fn bitfield_offset_spec(bytes: Seq<u8>, width_bits: u64, record_size_bits: u64) -> Result<
    int,
    &'static str,
> {
    let bits = set_bits(bytes);
    if bytes.len() != record_size_bits / 8 || width_bits == 0 {
        Err(BITFIELD_INCOHERENT)
    } else if bits.len() != width_bits {
        Err(BITFIELD_COUNT)
    } else if bits.len() == 0 {
        Err(BITFIELD_EMPTY)
    } else if !contiguous(bits) {
        Err(BITFIELD_SPLIT)
    } else {
        Ok(bits[0])
    }
}

proof fn lemma_set_bits_bounded(bytes: Seq<u8>, n: int)
    requires
        n >= 0,
    ensures
        set_bits_below(bytes, n).len() <= n,
        forall|i: int| 0 <= i < set_bits_below(bytes, n).len() ==> 0 <= #[trigger] set_bits_below(bytes, n)[i] < n,
    decreases n,
{
    if n > 0 {
        lemma_set_bits_bounded(bytes, n - 1);
    }
}

/// The offset of the bitfield whose witness is `bytes` (see
/// `bitfield_offset_spec`).
pub fn bitfield_offset(bytes: &[u8], width_bits: u64, record_size_bits: u64) -> (res: Result<u64, NativeError>)
    ensures
        match bitfield_offset_spec(bytes@, width_bits, record_size_bits) {
            Ok(offset) => res == Ok::<u64, NativeError>(offset as u64),
            Err(detail) => res matches Err(NativeError::ProbeParserGap { detail: d }) && d@ == detail@,
        },
{
    let expected_bytes = record_size_bits / 8;
    if bytes.len() as u64 != expected_bytes || width_bits == 0 {
        return Err(parser_gap(BITFIELD_INCOHERENT.to_owned()));
    }
    let mut set: Vec<u64> = Vec::new();
    let mut byte_index: usize = 0;
    while byte_index < bytes.len()
        invariant
            byte_index <= bytes@.len(),
            bytes@.len() == record_size_bits / 8,
            set@.len() == set_bits_below(bytes@, 8 * byte_index).len(),
            forall|i: int| 0 <= i < set@.len() ==> set@[i] as int == #[trigger] set_bits_below(bytes@, 8 * byte_index)[i],
        decreases bytes@.len() - byte_index,
    {
        let byte = bytes[byte_index];
        let mut bit: u8 = 0;
        while bit < 8
            invariant
                bit <= 8,
                byte_index < bytes@.len(),
                bytes@.len() == record_size_bits / 8,
                byte == bytes@[byte_index as int],
                set@.len() == set_bits_below(bytes@, 8 * byte_index + bit).len(),
                forall|i: int| 0 <= i < set@.len() ==> set@[i] as int == #[trigger] set_bits_below(bytes@, 8 * byte_index + bit)[i],
            decreases 8 - bit,
        {
            let ghost k: int = 8 * byte_index + bit;
            assert(k / 8 == byte_index && k % 8 == bit) by (nonlinear_arith)
                requires
                    k == 8 * byte_index + bit,
                    bit < 8,
            ;
            let is_set = byte & (1u8 << bit) != 0;
            assert(is_set == (((byte >> bit) & 1u8) == 1u8)) by (bit_vector)
                requires
                    is_set == (byte & (1u8 << bit) != 0),
                    bit < 8,
            ;
            if is_set {
                assert(byte_index < record_size_bits / 8);
                assert(8 * byte_index + 7 <= record_size_bits) by (nonlinear_arith)
                    requires
                        byte_index < record_size_bits / 8,
                ;
                let offset = (byte_index as u64) * 8 + (bit as u64);
                set.push(offset);
            }
            proof {
                assert(set@.len() == set_bits_below(bytes@, k + 1).len());
            }
            bit = bit + 1;
        }
        byte_index = byte_index + 1;
    }
    if set.len() as u64 != width_bits {
        return Err(parser_gap(BITFIELD_COUNT.to_owned()));
    }
    if set.len() == 0 {
        return Err(parser_gap(BITFIELD_EMPTY.to_owned()));
    }
    let first = set[0];
    proof {
        lemma_set_bits_bounded(bytes@, 8 * bytes@.len() as int);
    }
    let mut i: usize = 0;
    while i < set.len()
        invariant
            i <= set@.len(),
            set@.len() > 0,
            first == set@[0],
            set@.len() == set_bits(bytes@).len(),
            forall|j: int| 0 <= j < set@.len() ==> set@[j] as int == #[trigger] set_bits(bytes@)[j],
            forall|j: int| 0 <= j < i ==> #[trigger] set_bits(bytes@)[j] == set_bits(bytes@)[0] + j,
            set@.len() <= u64::MAX,
            bytes@.len() == record_size_bits / 8,
            width_bits != 0,
            set@.len() == width_bits,
        decreases set@.len() - i,
    {
        if set[i] as u128 != first as u128 + i as u128 {
            proof {
                assert(set_bits(bytes@)[i as int] != set_bits(bytes@)[0] + i);
            }
            return Err(parser_gap(BITFIELD_SPLIT.to_owned()));
        }
        i = i + 1;
    }
    Ok(first)
}

} // verus!
