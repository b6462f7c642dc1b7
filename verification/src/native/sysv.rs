//! x86-64 System V eightbyte classification for the certified C surface:
//! INTEGER and SSE scalars, and aggregates of at most two eightbytes.
use vstd::prelude::*;

use super::error::{invalid, NativeError};

verus! {

pub const EIGHTBYTE_BITS: u64 = 64;
pub const MAX_DIRECT_BITS: u64 = 128;

/// How one value is passed.
#[derive(Debug, Clone, Copy, PartialEq, Eq, Structural)]
pub enum ValuePassing {
    Ignore,
    Direct,
    SplitRegisters,
    Indirect,
}

/// How a callable returns its value.
#[derive(Debug, Clone, Copy, PartialEq, Eq, Structural)]
pub enum ReturnConvention {
    Void,
    Direct,
    RegisterPair,
    IndirectSret,
}

/// The class of one eightbyte.
#[derive(Debug, Clone, Copy, PartialEq, Eq, Structural)]
pub enum EightbyteClass {
    NoClass,
    Integer,
    Sse,
}

/// Merging two classes: no class yields the other, INTEGER dominates, and
/// two SSE classes stay SSE.
pub open spec fn merge_class_spec(left: EightbyteClass, right: EightbyteClass) -> EightbyteClass {
    if left == EightbyteClass::NoClass {
        right
    } else if right == EightbyteClass::NoClass {
        left
    } else if left == EightbyteClass::Integer || right == EightbyteClass::Integer {
        EightbyteClass::Integer
    } else {
        EightbyteClass::Sse
    }
}

/// Merge two eightbyte classes.
pub fn merge_class(left: EightbyteClass, right: EightbyteClass) -> (out: EightbyteClass)
    ensures
        out == merge_class_spec(left, right),
{
    match (left, right) {
        (EightbyteClass::NoClass, class) => class,
        (class, EightbyteClass::NoClass) => class,
        (EightbyteClass::Integer, _) | (_, EightbyteClass::Integer) => EightbyteClass::Integer,
        (EightbyteClass::Sse, EightbyteClass::Sse) => EightbyteClass::Sse,
    }
}

/// Merging classes is commutative.
pub proof fn lemma_merge_commutative(a: EightbyteClass, b: EightbyteClass)
    ensures
        merge_class_spec(a, b) == merge_class_spec(b, a),
{
}

/// Merging classes is associative.
pub proof fn lemma_merge_associative(a: EightbyteClass, b: EightbyteClass, c: EightbyteClass)
    ensures
        merge_class_spec(merge_class_spec(a, b), c) == merge_class_spec(a, merge_class_spec(b, c)),
{
}

/// Merging a class with itself leaves it unchanged, and no class is neutral.
pub proof fn lemma_merge_idempotent_and_neutral(a: EightbyteClass)
    ensures
        merge_class_spec(a, a) == a,
        merge_class_spec(EightbyteClass::NoClass, a) == a,
        merge_class_spec(a, EightbyteClass::NoClass) == a,
{
}

/// INTEGER absorbs every class.
pub proof fn lemma_integer_dominates(a: EightbyteClass)
    ensures
        merge_class_spec(a, EightbyteClass::Integer) == EightbyteClass::Integer,
        merge_class_spec(EightbyteClass::Integer, a) == EightbyteClass::Integer,
{
}

/// The classes of the (at most two) eightbytes of one value, and whether
/// some component lies beyond them.
#[derive(Debug, Clone, Copy)]
pub struct Eightbytes {
    pub classes: [EightbyteClass; 2],
    pub memory: bool,
}

/// The state after merging `class` over the bit range starting at
/// `offset_bits` of length `size_bits`.
pub open spec fn merge_range_spec(before: Eightbytes, offset_bits: int, size_bits: int, class: EightbyteClass) -> Eightbytes {
    let first = offset_bits / 64;
    let last = (offset_bits + size_bits - 1) / 64;
    if last >= 2 {
        Eightbytes { classes: before.classes, memory: true }
    } else {
        Eightbytes {
            classes: [
                if first <= 0 { merge_class_spec(before.classes[0], class) } else { before.classes[0] },
                if last >= 1 { merge_class_spec(before.classes[1], class) } else { before.classes[1] },
            ],
            memory: before.memory,
        }
    }
}

pub open spec fn populated(classes: [EightbyteClass; 2]) -> nat {
    (if classes[0] != EightbyteClass::NoClass { 1nat } else { 0nat })
        + (if classes[1] != EightbyteClass::NoClass { 1nat } else { 0nat })
}

/// How a value of `size_bits` with these eightbytes is passed: indirectly
/// when anything lies in memory or it exceeds two eightbytes; otherwise
/// directly with one populated eightbyte and in a register pair with two.
pub open spec fn passing_spec(e: Eightbytes, size_bits: u64) -> Option<ValuePassing> {
    if e.memory || size_bits > MAX_DIRECT_BITS {
        Some(ValuePassing::Indirect)
    } else if populated(e.classes) == 1 {
        Some(ValuePassing::Direct)
    } else if populated(e.classes) == 2 {
        Some(ValuePassing::SplitRegisters)
    } else {
        None
    }
}

impl Eightbytes {
    /// No eightbyte populated, nothing in memory.
    pub fn new() -> (out: Self)
        ensures
            out.classes[0] == EightbyteClass::NoClass,
            out.classes[1] == EightbyteClass::NoClass,
            !out.memory,
    {
        Eightbytes { classes: [EightbyteClass::NoClass, EightbyteClass::NoClass], memory: false }
    }

    /// Merge `class` into every eightbyte that the bit range touches; a
    /// range reaching past the second eightbyte marks the value as memory.
    pub fn merge_range(&mut self, offset_bits: u64, size_bits: u64, class: EightbyteClass) -> (res: Result<(), NativeError>)
        ensures
            size_bits == 0 ==> (res is Err && *final(self) == *old(self)),
            size_bits > 0 && offset_bits + size_bits > u64::MAX ==> (res is Err && *final(self) == *old(self)),
            size_bits > 0 && offset_bits + size_bits <= u64::MAX ==> (res is Ok && {
                let expected = merge_range_spec(*old(self), offset_bits as int, size_bits as int, class);
                &&& final(self).classes[0] == expected.classes[0]
                &&& final(self).classes[1] == expected.classes[1]
                &&& final(self).memory == expected.memory
            }),
    {
        if size_bits == 0 {
            return Err(invalid("a non-void ABI component has zero size"));
        }
        let end = match offset_bits.checked_add(size_bits) {
            Some(end) => end,
            None => {
                return Err(invalid("ABI component offset overflow"));
            },
        };
        let first = offset_bits / EIGHTBYTE_BITS;
        let last = (end - 1) / EIGHTBYTE_BITS;
        if last >= 2 {
            self.memory = true;
            return Ok(());
        }
        if first == 0 {
            self.classes[0] = merge_class(self.classes[0], class);
        }
        if last == 1 {
            self.classes[1] = merge_class(self.classes[1], class);
        }
        Ok(())
    }

    /// How a value of `size_bits` with these eightbytes is passed.
    pub fn passing(self, size_bits: u64) -> (res: Result<ValuePassing, NativeError>)
        ensures
            match passing_spec(self, size_bits) {
                Some(p) => res == Ok::<ValuePassing, NativeError>(p),
                None => res is Err,
            },
    {
        if self.memory || size_bits > MAX_DIRECT_BITS {
            return Ok(ValuePassing::Indirect);
        }
        let mut count: u8 = 0;
        if self.classes[0] != EightbyteClass::NoClass {
            count = count + 1;
        }
        if self.classes[1] != EightbyteClass::NoClass {
            count = count + 1;
        }
        if count == 1 {
            Ok(ValuePassing::Direct)
        } else if count == 2 {
            Ok(ValuePassing::SplitRegisters)
        } else {
            Err(invalid("a non-void SysV64 value must occupy at least one eightbyte class"))
        }
    }
}

/// The return convention that a value-passing shape implies.
pub open spec fn return_convention_spec(passing: ValuePassing) -> ReturnConvention {
    match passing {
        ValuePassing::Ignore => ReturnConvention::Void,
        ValuePassing::Direct => ReturnConvention::Direct,
        ValuePassing::SplitRegisters => ReturnConvention::RegisterPair,
        ValuePassing::Indirect => ReturnConvention::IndirectSret,
    }
}

/// Void returns nothing, one eightbyte returns directly, two return in a
/// register pair and memory values return through a hidden pointer.
pub fn return_convention(passing: ValuePassing) -> (out: ReturnConvention)
    ensures
        out == return_convention_spec(passing),
{
    match passing {
        ValuePassing::Ignore => ReturnConvention::Void,
        ValuePassing::Direct => ReturnConvention::Direct,
        ValuePassing::SplitRegisters => ReturnConvention::RegisterPair,
        ValuePassing::Indirect => ReturnConvention::IndirectSret,
    }
}

/// Whether `n` is a power of two.
pub open spec fn is_pow2(n: nat) -> bool
    decreases n,
{
    if n == 0 {
        false
    } else if n == 1 {
        true
    } else {
        n % 2 == 0 && is_pow2(n / 2)
    }
}

/// Whether `n` is a power of two.
pub fn is_power_of_two(n: u64) -> (out: bool)
    ensures
        out == is_pow2(n as nat),
{
    let mut m = n;
    while m > 1
        invariant
            is_pow2(n as nat) == is_pow2(m as nat),
        decreases m,
    {
        if m % 2 != 0 {
            return false;
        }
        m = m / 2;
    }
    m == 1
}

/// The size and alignment in bits of one ABI component.
#[derive(Debug, Clone, Copy, PartialEq, Eq)]
pub struct TypeLayout {
    pub size_bits: u64,
    pub alignment_bits: u32,
}

/// A canonical scalar layout: a nonzero whole number of bytes, aligned to a
/// power-of-two number of bytes.
pub open spec fn scalar_layout_ok(storage_bits: u16, alignment_bits: u16) -> bool {
    storage_bits != 0 && storage_bits % 8 == 0 && alignment_bits >= 8 && alignment_bits % 8 == 0 && is_pow2(alignment_bits as nat)
}

/// Accepts a canonical scalar layout.
pub fn scalar_layout(storage_bits: u16, alignment_bits: u16) -> (res: Result<TypeLayout, NativeError>)
    ensures
        scalar_layout_ok(storage_bits, alignment_bits) ==> res == Ok::<TypeLayout, NativeError>(TypeLayout { size_bits: storage_bits as u64, alignment_bits: alignment_bits as u32 }),
        !scalar_layout_ok(storage_bits, alignment_bits) ==> res is Err,
{
    if storage_bits == 0 || storage_bits % 8 != 0 || alignment_bits < 8 || alignment_bits % 8 != 0
        || !is_power_of_two(alignment_bits as u64) {
        return Err(invalid("a scalar has a non-canonical byte-sized ABI layout"));
    }
    Ok(TypeLayout { size_bits: storage_bits as u64, alignment_bits: alignment_bits as u32 })
}

/// A canonical measured aggregate layout: a nonzero whole number of bytes,
/// a power-of-two byte alignment of at most one eightbyte, and a size that
/// is a multiple of the alignment.
pub open spec fn aggregate_layout_ok(size_bits: u64, alignment_bits: u32) -> bool {
    &&& size_bits != 0 && size_bits % 8 == 0
    &&& alignment_bits >= 8 && alignment_bits % 8 == 0 && is_pow2(alignment_bits as nat)
    &&& alignment_bits <= 64
    &&& size_bits % (alignment_bits as u64) == 0
}

/// Accepts a canonical measured aggregate layout.
pub fn validate_aggregate_layout(size_bits: u64, alignment_bits: u32) -> (res: Result<(), NativeError>)
    ensures
        res is Ok <==> aggregate_layout_ok(size_bits, alignment_bits),
{
    if size_bits == 0 || size_bits % 8 != 0 || alignment_bits < 8 || alignment_bits % 8 != 0
        || !is_power_of_two(alignment_bits as u64) || alignment_bits > 64
        || size_bits % (alignment_bits as u64) != 0 {
        return Err(invalid("an aggregate has a non-canonical measured layout"));
    }
    Ok(())
}

} // verus!
