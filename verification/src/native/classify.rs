//! x86-64 System V classification of whole C values: scalars, pointers,
//! fixed arrays and by-value records, over a plain model of the source types
//! in which each record already carries its measured layout.
use vstd::prelude::*;

use super::error::{invalid, NativeError};
use super::sysv::{
    aggregate_layout_ok, is_pow2, is_power_of_two, merge_range_spec, passing_spec, scalar_layout_ok, EightbyteClass, Eightbytes,
    TypeLayout, ValuePassing, MAX_DIRECT_BITS,
};

verus! {

/// Where a value stands: a parameter (after C's array and function
/// adjustments), a return value, or a member of an aggregate.
#[derive(Debug, Clone, Copy, PartialEq, Eq, Structural)]
pub enum AbiPosition {
    Parameter,
    Return,
    Value,
}

#[derive(Debug, Clone, Copy, PartialEq, Eq, Structural)]
pub enum RecordKind {
    Struct,
    Union,
}

/// A source type as the classifier sees it. Scalars carry the data model's
/// storage and alignment for their C type; records are named by their index
/// in the record table.
#[derive(Debug)]
pub enum AbiType {
    Void,
    Scalar { class: EightbyteClass, storage_bits: u16, alignment_bits: u16 },
    Pointer,
    Array { element: Box<AbiType>, elements: Option<u64> },
    Record { index: usize },
    Unsupported,
}

/// One source field of a record, with its measured placement.
#[derive(Debug)]
pub struct FieldShape {
    pub bit_width: Option<u32>,
    pub offset_bits: u64,
    pub size_bits: Option<u64>,
    pub alignment_bits: Option<u32>,
    pub ty: AbiType,
}

/// One source record with its measured size and alignment.
#[derive(Debug)]
pub struct RecordShape {
    pub kind: RecordKind,
    pub complete: bool,
    pub size_bits: u64,
    pub alignment_bits: u32,
    pub fields: Vec<FieldShape>,
}

/// The eightbyte classes and memory flag as a plain triple.
pub open spec fn eb_view(e: Eightbytes) -> (EightbyteClass, EightbyteClass, bool) {
    (e.classes[0], e.classes[1], e.memory)
}

pub open spec fn eb_of(s: (EightbyteClass, EightbyteClass, bool)) -> Eightbytes {
    Eightbytes { classes: [s.0, s.1], memory: s.2 }
}

pub open spec fn with_memory(s: (EightbyteClass, EightbyteClass, bool)) -> (EightbyteClass, EightbyteClass, bool) {
    (s.0, s.1, true)
}

/// A scalar of the given storage and alignment at `base`: its layout must be
/// canonical, `base` aligned to it, and its extent must fit in 64 bits.
pub open spec fn scalar_spec(
    base: int,
    storage_bits: u16,
    alignment_bits: u16,
    class: EightbyteClass,
    s: (EightbyteClass, EightbyteClass, bool),
) -> Option<(TypeLayout, (EightbyteClass, EightbyteClass, bool))> {
    if !scalar_layout_ok(storage_bits, alignment_bits) {
        None
    } else if base % (alignment_bits as int) != 0 {
        None
    } else if base + storage_bits > u64::MAX {
        None
    } else {
        Some(
            (
                TypeLayout { size_bits: storage_bits as u64, alignment_bits: alignment_bits as u32 },
                eb_view(merge_range_spec(eb_of(s), base, storage_bits as int, class)),
            ),
        )
    }
}

/// A bound above every array count.
pub open spec fn big() -> int {
    0x1_0000_0000_0000_0000int
}

/// The nesting depth of a type's array constructors, plus one.
pub open spec fn type_size(ty: AbiType) -> nat
    decreases ty,
{
    match ty {
        AbiType::Array { element, .. } => 1 + type_size(*element),
        _ => 1,
    }
}

/// The sizes of the field types from `k` on, each plus one.
pub open spec fn fields_size(fields: Seq<FieldShape>, k: int) -> nat
    decreases fields.len() - k,
{
    if k < 0 || k >= fields.len() {
        0
    } else {
        type_size(fields[k].ty) + 1 + fields_size(fields, k + 1)
    }
}

/// The layout of `ty` at `base` and the eightbytes after merging it, or
/// `None` where the type has no certified classification there.
pub open spec fn classify_spec(
    records: Seq<RecordShape>,
    pointer: (u16, u16),
    ty: AbiType,
    position: AbiPosition,
    base: int,
    s: (EightbyteClass, EightbyteClass, bool),
    stack: Seq<usize>,
) -> Option<(TypeLayout, (EightbyteClass, EightbyteClass, bool))>
    decreases records.len() - stack.len(), type_size(ty), big(),
{
    {
        match ty {
            AbiType::Void => if position == AbiPosition::Return {
                Some((TypeLayout { size_bits: 0, alignment_bits: 8 }, s))
            } else {
                None
            },
            AbiType::Unsupported => None,
            AbiType::Scalar { class, storage_bits, alignment_bits } => scalar_spec(base, storage_bits, alignment_bits, class, s),
            AbiType::Pointer => scalar_spec(base, pointer.0, pointer.1, EightbyteClass::Integer, s),
            AbiType::Array { element, elements } => match position {
                AbiPosition::Parameter => scalar_spec(base, pointer.0, pointer.1, EightbyteClass::Integer, s),
                AbiPosition::Return => None,
                AbiPosition::Value => match elements {
                    Some(count) if count > 0 => match {
                        proof {
                            assert(type_size(ty) == 1 + type_size(*element));
                        }
                        classify_spec(records, pointer, *element, AbiPosition::Value, base, s, stack)
                    } {
                        Some((layout, s1)) => {
                            if layout.size_bits == 0 || layout.alignment_bits == 0 || layout.size_bits % (layout.alignment_bits as u64) != 0 {
                                None
                            } else if layout.size_bits * count > u64::MAX {
                                None
                            } else if layout.size_bits * count > MAX_DIRECT_BITS {
                                Some((TypeLayout { size_bits: (layout.size_bits * count) as u64, alignment_bits: layout.alignment_bits }, with_memory(s1)))
                            } else {
                                match repeat_spec(records, pointer, ty, layout, base, 1, count, s1, stack) {
                                    Some(s2) => Some((TypeLayout { size_bits: (layout.size_bits * count) as u64, alignment_bits: layout.alignment_bits }, s2)),
                                    None => None,
                                }
                            }
                        },
                        None => None,
                    },
                    _ => None,
                },
            },
            AbiType::Record { index } => if index >= records.len() || stack.contains(index) || stack.len() >= records.len() {
                None
            } else {
                record_spec(records, pointer, index, base, s, stack.push(index))
            },
        }
    }
}

/// The elements `index..count` of an array whose first element classified
/// to `layout`: each must classify again to the same layout.
pub open spec fn repeat_spec(
    records: Seq<RecordShape>,
    pointer: (u16, u16),
    array: AbiType,
    layout: TypeLayout,
    base: int,
    index: u64,
    count: u64,
    s: (EightbyteClass, EightbyteClass, bool),
    stack: Seq<usize>,
) -> Option<(EightbyteClass, EightbyteClass, bool)>
    decreases records.len() - stack.len(), type_size(array), count - index,
{
    match array {
        AbiType::Array { element, .. } => if index >= count {
            Some(s)
        } else if base + layout.size_bits * index > u64::MAX {
            None
        } else {
            match {
                proof {
                    assert(type_size(array) == 1 + type_size(*element));
                }
                classify_spec(records, pointer, *element, AbiPosition::Value, base + layout.size_bits * index, s, stack)
            } {
                Some((again, s1)) => if again != layout {
                    None
                } else {
                    repeat_spec(records, pointer, array, layout, base, (index + 1) as u64, count, s1, stack)
                },
                None => None,
            }
        },
        _ => Some(s),
    }
}

/// A record entered at `base` (already on `stack`).
pub open spec fn record_spec(
    records: Seq<RecordShape>,
    pointer: (u16, u16),
    index: usize,
    base: int,
    s: (EightbyteClass, EightbyteClass, bool),
    stack: Seq<usize>,
) -> Option<(TypeLayout, (EightbyteClass, EightbyteClass, bool))>
    decreases records.len() - stack.len(), fields_size(records[index as int].fields@, 0), big() + 1,
{
    let r = records[index as int];
    if !r.complete || r.fields@.len() == 0 || !aggregate_layout_ok(r.size_bits, r.alignment_bits) || base % (
    r.alignment_bits as int) != 0 {
        None
    } else {
        let s0 = if r.size_bits > MAX_DIRECT_BITS { with_memory(s) } else { s };
        fields_spec(records, pointer, index, 0, base, s0, stack, 0, 8)
    }
}

/// The fields `k..` of record `index`, with the end of the previous struct
/// member and the largest field alignment so far.
pub open spec fn fields_spec(
    records: Seq<RecordShape>,
    pointer: (u16, u16),
    index: usize,
    k: int,
    base: int,
    s: (EightbyteClass, EightbyteClass, bool),
    stack: Seq<usize>,
    previous_end: u64,
    max_alignment: u32,
) -> Option<(TypeLayout, (EightbyteClass, EightbyteClass, bool))>
    decreases records.len() - stack.len(), fields_size(records[index as int].fields@, k), big(),
{
    let r = records[index as int];
    if k < 0 || k >= r.fields@.len() {
        if r.alignment_bits < max_alignment {
            None
        } else {
            Some((TypeLayout { size_bits: r.size_bits, alignment_bits: r.alignment_bits }, s))
        }
    } else {
        let f = r.fields@[k];
        if f.bit_width is Some || f.offset_bits % 8 != 0 || base + f.offset_bits > u64::MAX {
            None
        } else {
            match {
                proof {
                    assert(fields_size(r.fields@, k) == type_size(f.ty) + 1 + fields_size(r.fields@, k + 1));
                }
                classify_spec(records, pointer, f.ty, AbiPosition::Value, base + f.offset_bits, s, stack)
            } {
                None => None,
                Some((fl, s1)) => match (f.size_bits, f.alignment_bits) {
                    (Some(size), Some(alignment)) => {
                        if size != fl.size_bits || alignment != fl.alignment_bits || fl.alignment_bits == 0
                            || f.offset_bits % (fl.alignment_bits as u64) != 0 || f.offset_bits + fl.size_bits > u64::MAX
                            || f.offset_bits + fl.size_bits > r.size_bits {
                            None
                        } else {
                            let max2 = if fl.alignment_bits > max_alignment { fl.alignment_bits } else { max_alignment };
                            let end = (f.offset_bits + fl.size_bits) as u64;
                            match r.kind {
                                RecordKind::Struct => if f.offset_bits < previous_end {
                                    None
                                } else {
                                    fields_spec(records, pointer, index, k + 1, base, s1, stack, end, max2)
                                },
                                RecordKind::Union => if f.offset_bits != 0 {
                                    None
                                } else {
                                    fields_spec(records, pointer, index, k + 1, base, s1, stack, previous_end, max2)
                                },
                            }
                        }
                    },
                    _ => None,
                },
            }
        }
    }
}

/// How a whole value of `ty` at `position` is passed: its layout and
/// passing shape, with `void` ignored as a return value only.
pub open spec fn value_classification(
    records: Seq<RecordShape>,
    pointer: (u16, u16),
    ty: AbiType,
    position: AbiPosition,
) -> Option<(TypeLayout, ValuePassing)> {
    match classify_spec(records, pointer, ty, position, 0, (EightbyteClass::NoClass, EightbyteClass::NoClass, false), Seq::empty()) {
        None => None,
        Some((layout, s)) => if layout.size_bits == 0 {
            if position == AbiPosition::Return {
                Some((layout, ValuePassing::Ignore))
            } else {
                None
            }
        } else {
            match passing_spec(eb_of(s), layout.size_bits) {
                Some(p) => Some((layout, p)),
                None => None,
            }
        },
    }
}

fn on_stack(stack: &Vec<usize>, index: usize) -> (out: bool)
    ensures
        out == stack@.contains(index),
{
    let mut i: usize = 0;
    while i < stack.len()
        invariant
            i <= stack@.len(),
            forall|j: int| 0 <= j < i ==> stack@[j] != index,
        decreases stack@.len() - i,
    {
        if stack[i] == index {
            return true;
        }
        i = i + 1;
    }
    false
}

fn scalar_at(base: u64, storage_bits: u16, alignment_bits: u16, class: EightbyteClass, eb: &mut Eightbytes) -> (res: Result<
    TypeLayout,
    NativeError,
>)
    ensures
        match scalar_spec(base as int, storage_bits, alignment_bits, class, eb_view(*old(eb))) {
            Some((l, s)) => res == Ok::<TypeLayout, NativeError>(l) && eb_view(*final(eb)) == s,
            None => res is Err,
        },
{
    if !(storage_bits != 0 && storage_bits % 8 == 0 && alignment_bits >= 8 && alignment_bits % 8 == 0
        && is_power_of_two(alignment_bits as u64)) {
        return Err(invalid("a scalar has a non-canonical byte-sized ABI layout"));
    }
    if base % (alignment_bits as u64) != 0 {
        return Err(
            invalid(
                "unaligned scalar or aggregate member requires SysV64 MEMORY classification and is rejected by the initial surface",
            ),
        );
    }
    eb.merge_range(base, storage_bits as u64, class)?;
    Ok(TypeLayout { size_bits: storage_bits as u64, alignment_bits: alignment_bits as u32 })
}

fn classify_at(
    records: &[RecordShape],
    pointer: (u16, u16),
    ty: &AbiType,
    position: AbiPosition,
    base: u64,
    eb: &mut Eightbytes,
    stack: &mut Vec<usize>,
) -> (res: Result<TypeLayout, NativeError>)
    ensures
        final(stack)@ == old(stack)@,
        match classify_spec(records@, pointer, *ty, position, base as int, eb_view(*old(eb)), old(stack)@) {
            Some((l, s)) => res == Ok::<TypeLayout, NativeError>(l) && eb_view(*final(eb)) == s,
            None => res is Err,
        },
    decreases records@.len() - old(stack)@.len(), type_size(*ty), big(),
{
    match ty {
        AbiType::Void => {
            if position == AbiPosition::Return {
                Ok(TypeLayout { size_bits: 0, alignment_bits: 8 })
            } else {
                Err(invalid("void has no by-value SysV64 representation"))
            }
        },
        AbiType::Unsupported => Err(invalid("unsupported source types have no certified SysV64 classification")),
        AbiType::Scalar { class, storage_bits, alignment_bits } => scalar_at(base, *storage_bits, *alignment_bits, *class, eb),
        AbiType::Pointer => scalar_at(base, pointer.0, pointer.1, EightbyteClass::Integer, eb),
        AbiType::Array { element, elements } => {
            match position {
                AbiPosition::Parameter => {
                    return scalar_at(base, pointer.0, pointer.1, EightbyteClass::Integer, eb);
                },
                AbiPosition::Return => {
                    return Err(invalid("C array return values are outside the certified SysV64 surface"));
                },
                AbiPosition::Value => {},
            }
            let count = match elements {
                Some(c) => *c,
                None => {
                    return Err(invalid("only fixed-size arrays have a by-value SysV64 classification"));
                },
            };
            if count == 0 {
                return Err(invalid("zero-length arrays are outside the initial SysV64 surface"));
            }
            let elem: &AbiType = &**element;
            proof {
                assert(type_size(*ty) == 1 + type_size(*elem));
            }
            let layout = classify_at(records, pointer, elem, AbiPosition::Value, base, eb, stack)?;
            if layout.size_bits == 0 || layout.alignment_bits == 0 || layout.size_bits % (layout.alignment_bits as u64) != 0 {
                return Err(invalid("array element size is not a nonzero multiple of its alignment"));
            }
            let size_bits = match layout.size_bits.checked_mul(count) {
                Some(v) => v,
                None => {
                    return Err(invalid("array ABI size overflow"));
                },
            };
            if size_bits > MAX_DIRECT_BITS {
                eb.memory = true;
                return Ok(TypeLayout { size_bits, alignment_bits: layout.alignment_bits });
            }
            repeat_at(records, pointer, ty, layout, base, 1, count, eb, stack)?;
            Ok(TypeLayout { size_bits, alignment_bits: layout.alignment_bits })
        },
        AbiType::Record { index } => {
            let index = *index;
            if index >= records.len() {
                return Err(invalid("record declaration is missing"));
            }
            if on_stack(stack, index) || stack.len() >= records.len() {
                return Err(invalid("by-value record cycle reached SysV64 classification"));
            }
            stack.push(index);
            let res = record_at(records, pointer, index, base, eb, stack);
            stack.pop();
            res
        },
    }
}

fn repeat_at(
    records: &[RecordShape],
    pointer: (u16, u16),
    array: &AbiType,
    layout: TypeLayout,
    base: u64,
    index: u64,
    count: u64,
    eb: &mut Eightbytes,
    stack: &mut Vec<usize>,
) -> (res: Result<(), NativeError>)
    ensures
        final(stack)@ == old(stack)@,
        match repeat_spec(records@, pointer, *array, layout, base as int, index, count, eb_view(*old(eb)), old(stack)@) {
            Some(s) => res is Ok && eb_view(*final(eb)) == s,
            None => res is Err,
        },
    decreases records@.len() - old(stack)@.len(), type_size(*array), count - index,
{
    match array {
        AbiType::Array { element, .. } => {
            if index >= count {
                return Ok(());
            }
            let offset = match layout.size_bits.checked_mul(index) {
                Some(v) => v,
                None => {
                    return Err(invalid("array element offset overflow"));
                },
            };
            let at = match base.checked_add(offset) {
                Some(v) => v,
                None => {
                    return Err(invalid("array element offset overflow"));
                },
            };
            let elem: &AbiType = &**element;
            proof {
                assert(type_size(*array) == 1 + type_size(*elem));
            }
            let again = classify_at(records, pointer, elem, AbiPosition::Value, at, eb, stack)?;
            if again.size_bits != layout.size_bits || again.alignment_bits != layout.alignment_bits {
                return Err(invalid("array element classification is not stable"));
            }
            repeat_at(records, pointer, array, layout, base, index + 1, count, eb, stack)
        },
        _ => Ok(()),
    }
}

fn record_at(
    records: &[RecordShape],
    pointer: (u16, u16),
    index: usize,
    base: u64,
    eb: &mut Eightbytes,
    stack: &mut Vec<usize>,
) -> (res: Result<TypeLayout, NativeError>)
    requires
        index < records@.len(),
    ensures
        final(stack)@ == old(stack)@,
        match record_spec(records@, pointer, index, base as int, eb_view(*old(eb)), old(stack)@) {
            Some((l, s)) => res == Ok::<TypeLayout, NativeError>(l) && eb_view(*final(eb)) == s,
            None => res is Err,
        },
    decreases records@.len() - old(stack)@.len(), fields_size(records@[index as int].fields@, 0), big() + 1,
{
    let r = &records[index];
    if !r.complete {
        return Err(invalid("incomplete records cannot be classified by value"));
    }
    if r.fields.len() == 0 {
        return Err(invalid("empty records are outside the initial SysV64 surface"));
    }
    if r.size_bits == 0 || r.size_bits % 8 != 0 || r.alignment_bits < 8 || r.alignment_bits % 8 != 0
        || !is_power_of_two(r.alignment_bits as u64) || r.alignment_bits > 64 || r.size_bits % (r.alignment_bits as u64) != 0 {
        return Err(invalid("an aggregate has a non-canonical measured layout"));
    }
    if base % (r.alignment_bits as u64) != 0 {
        return Err(invalid("unaligned record members are rejected by the initial SysV64 surface"));
    }
    if r.size_bits > MAX_DIRECT_BITS {
        eb.memory = true;
    }
    fields_at(records, pointer, index, 0, base, eb, stack, 0, 8)
}

fn fields_at(
    records: &[RecordShape],
    pointer: (u16, u16),
    index: usize,
    k: usize,
    base: u64,
    eb: &mut Eightbytes,
    stack: &mut Vec<usize>,
    previous_end: u64,
    max_alignment: u32,
) -> (res: Result<TypeLayout, NativeError>)
    requires
        index < records@.len(),
    ensures
        final(stack)@ == old(stack)@,
        match fields_spec(records@, pointer, index, k as int, base as int, eb_view(*old(eb)), old(stack)@, previous_end, max_alignment) {
            Some((l, s)) => res == Ok::<TypeLayout, NativeError>(l) && eb_view(*final(eb)) == s,
            None => res is Err,
        },
    decreases records@.len() - old(stack)@.len(), fields_size(records@[index as int].fields@, k as int), big(),
{
    let r = &records[index];
    if k >= r.fields.len() {
        if r.alignment_bits < max_alignment {
            return Err(invalid("record alignment under-aligns one or more fields"));
        }
        return Ok(TypeLayout { size_bits: r.size_bits, alignment_bits: r.alignment_bits });
    }
    let f = &r.fields[k];
    if f.bit_width.is_some() {
        return Err(invalid("bitfield layout is outside the initial SysV64 surface"));
    }
    if f.offset_bits % 8 != 0 {
        return Err(invalid("non-bitfield record members must start on a byte boundary"));
    }
    let at = match base.checked_add(f.offset_bits) {
        Some(v) => v,
        None => {
            return Err(invalid("record field offset overflow"));
        },
    };
    proof {
        assert(fields_size(r.fields@, k as int) == type_size(f.ty) + 1 + fields_size(r.fields@, k + 1));
    }
    let fl = classify_at(records, pointer, &f.ty, AbiPosition::Value, at, eb, stack)?;
    let size = match f.size_bits {
        Some(v) => v,
        None => {
            return Err(invalid("SysV64 certification requires measured field sizes"));
        },
    };
    let alignment = match f.alignment_bits {
        Some(v) => v,
        None => {
            return Err(invalid("SysV64 certification requires measured field alignments"));
        },
    };
    if size != fl.size_bits || alignment != fl.alignment_bits {
        return Err(invalid("record field layout differs from its canonical type"));
    }
    if fl.alignment_bits == 0 || f.offset_bits % (fl.alignment_bits as u64) != 0 {
        return Err(
            invalid("unaligned record fields require MEMORY classification and are rejected by the initial surface"),
        );
    }
    let max2 = if fl.alignment_bits > max_alignment { fl.alignment_bits } else { max_alignment };
    let end = match f.offset_bits.checked_add(fl.size_bits) {
        Some(v) => v,
        None => {
            return Err(invalid("record field extent overflow"));
        },
    };
    if end > r.size_bits {
        return Err(invalid("record field extends beyond measured size"));
    }
    match r.kind {
        RecordKind::Struct => {
            if f.offset_bits < previous_end {
                return Err(invalid("non-bitfield struct members overlap in measured layout"));
            }
            fields_at(records, pointer, index, k + 1, base, eb, stack, end, max2)
        },
        RecordKind::Union => {
            if f.offset_bits != 0 {
                return Err(invalid("union members must have a zero measured offset"));
            }
            fields_at(records, pointer, index, k + 1, base, eb, stack, previous_end, max2)
        },
    }
}

/// Classifies a whole value of `ty` at `position` over the record table,
/// with the data model's pointer storage and alignment: its layout, and how
/// it is passed.
pub fn classify_value(
    records: &[RecordShape],
    pointer_bits: u16,
    pointer_alignment_bits: u16,
    ty: &AbiType,
    position: AbiPosition,
) -> (res: Result<(TypeLayout, ValuePassing), NativeError>)
    ensures
        match value_classification(records@, (pointer_bits, pointer_alignment_bits), *ty, position) {
            Some(v) => res == Ok::<(TypeLayout, ValuePassing), NativeError>(v),
            None => res is Err,
        },
{
    let mut eb = Eightbytes::new();
    let mut stack: Vec<usize> = Vec::new();
    proof {
        assert(eb_view(eb) == (EightbyteClass::NoClass, EightbyteClass::NoClass, false));
        assert(stack@ =~= Seq::<usize>::empty());
    }
    let layout = classify_at(records, (pointer_bits, pointer_alignment_bits), ty, position, 0, &mut eb, &mut stack)?;
    if layout.size_bits == 0 {
        if position == AbiPosition::Return {
            return Ok((layout, ValuePassing::Ignore));
        }
        return Err(invalid("void is supported only as a callable return type"));
    }
    let passing = eb.passing(layout.size_bits)?;
    Ok((layout, passing))
}

/// The size and alignment that a value of `ty` must have, read off the data
/// model and the records' measured layouts; in parameter position arrays
/// decay to pointers.
pub open spec fn expected_layout_spec(records: Seq<RecordShape>, pointer: (u16, u16), ty: AbiType, parameter: bool) -> Option<
    (u64, u32),
>
    decreases ty,
{
    match ty {
        AbiType::Void => Some((0, 8)),
        AbiType::Scalar { storage_bits, alignment_bits, .. } => Some((storage_bits as u64, alignment_bits as u32)),
        AbiType::Pointer => Some((pointer.0 as u64, pointer.1 as u32)),
        AbiType::Array { element, elements } => if parameter {
            Some((pointer.0 as u64, pointer.1 as u32))
        } else {
            match elements {
                Some(count) => match expected_layout_spec(records, pointer, *element, false) {
                    Some((size, alignment)) => if size * count > u64::MAX {
                        None
                    } else {
                        Some(((size * count) as u64, alignment))
                    },
                    None => None,
                },
                None => None,
            }
        },
        AbiType::Record { index } => if index < records.len() {
            Some((records[index as int].size_bits, records[index as int].alignment_bits))
        } else {
            None
        },
        AbiType::Unsupported => None,
    }
}

/// The layout a value of `ty` must have, or an error where it has none.
pub fn expected_layout(records: &[RecordShape], pointer: (u16, u16), ty: &AbiType, parameter: bool) -> (res: Result<(u64, u32), NativeError>)
    ensures
        match expected_layout_spec(records@, pointer, *ty, parameter) {
            Some(l) => res == Ok::<(u64, u32), NativeError>(l),
            None => res is Err,
        },
    decreases *ty,
{
    match ty {
        AbiType::Void => Ok((0, 8)),
        AbiType::Scalar { storage_bits, alignment_bits, .. } => Ok((*storage_bits as u64, *alignment_bits as u32)),
        AbiType::Pointer => Ok((pointer.0 as u64, pointer.1 as u32)),
        AbiType::Array { element, elements } => {
            if parameter {
                return Ok((pointer.0 as u64, pointer.1 as u32));
            }
            let count = match elements {
                Some(c) => *c,
                None => {
                    return Err(invalid("non-fixed arrays have no strict by-value ABI layout"));
                },
            };
            let elem: &AbiType = &**element;
            let (size, alignment) = expected_layout(records, pointer, elem, false)?;
            match size.checked_mul(count) {
                Some(total) => Ok((total, alignment)),
                None => Err(invalid("array ABI size overflow")),
            }
        },
        AbiType::Record { index } => {
            if *index < records.len() {
                Ok((records[*index].size_bits, records[*index].alignment_bits))
            } else {
                Err(invalid("record has no measured layout"))
            }
        },
        AbiType::Unsupported => Err(invalid("unsupported source type has no strict ABI layout")),
    }
}

/// A value wider than two eightbytes is always passed indirectly, whatever
/// its eightbyte classes.
pub proof fn lemma_wide_values_indirect(
    records: Seq<RecordShape>,
    pointer: (u16, u16),
    ty: AbiType,
    position: AbiPosition,
    layout: TypeLayout,
    passing: ValuePassing,
)
    requires
        value_classification(records, pointer, ty, position) == Some((layout, passing)),
        layout.size_bits > MAX_DIRECT_BITS,
    ensures
        passing == ValuePassing::Indirect,
{
}

/// The eightbytes after the first `offset` bits of an array of `class`
/// scalars have been merged: the low eightbyte carries the class, and the
/// high one does exactly when the merged bits reach past 64.
pub open spec fn filled_state(class: EightbyteClass, offset: int) -> (EightbyteClass, EightbyteClass, bool) {
    (class, if offset > 64 { class } else { EightbyteClass::NoClass }, false)
}

pub open spec fn scalar_array(class: EightbyteClass, bits: u16, count: u64) -> AbiType {
    AbiType::Array {
        element: Box::new(AbiType::Scalar { class, storage_bits: bits, alignment_bits: bits }),
        elements: Some(count),
    }
}

/// Merging one more `class` scalar of `bits` right after `offset` merged bits.
proof fn lemma_scalar_step(class: EightbyteClass, bits: u16, offset: int, s: (EightbyteClass, EightbyteClass, bool))
    requires
        class != EightbyteClass::NoClass,
        scalar_layout_ok(bits, bits),
        0 <= offset,
        offset + bits <= 128,
        offset % (bits as int) == 0,
        s == (if offset == 0 { (EightbyteClass::NoClass, EightbyteClass::NoClass, false) } else { filled_state(class, offset) }),
    ensures
        scalar_spec(offset, bits, bits, class, s) == Some(
            (TypeLayout { size_bits: bits as u64, alignment_bits: bits as u32 }, filled_state(class, offset + bits)),
        ),
{
    let e = merge_range_spec(eb_of(s), offset, bits as int, class);
    assert((offset + bits - 1) / 64 <= 1);
    assert(eb_view(e) == filled_state(class, offset + bits));
}

/// Every element after the first of a scalar array is merged at its own
/// offset: from element `k` on, the merged state ends as the state of all
/// `count` elements.
proof fn lemma_scalar_repeat(
    records: Seq<RecordShape>,
    pointer: (u16, u16),
    class: EightbyteClass,
    bits: u16,
    k: u64,
    count: u64,
    stack: Seq<usize>,
)
    requires
        class != EightbyteClass::NoClass,
        scalar_layout_ok(bits, bits),
        1 <= k <= count,
        bits * count <= 128,
    ensures
        repeat_spec(
            records,
            pointer,
            scalar_array(class, bits, count),
            TypeLayout { size_bits: bits as u64, alignment_bits: bits as u32 },
            0,
            k,
            count,
            filled_state(class, bits * k),
            stack,
        ) == Some(filled_state(class, bits * count)),
    decreases count - k,
{
    let w = bits as int;
    if k < count {
        assert(w * k + w == w * (k + 1)) by (nonlinear_arith);
        assert(w * (k + 1) <= w * count) by (nonlinear_arith)
            requires
                k + 1 <= count,
                w >= 0,
        ;
        assert((w * k) % w == 0) by (nonlinear_arith)
            requires
                w > 0,
        ;
        assert(w * k > 0) by (nonlinear_arith)
            requires
                w > 0,
                k >= 1,
        ;
        lemma_scalar_step(class, bits, w * k, filled_state(class, bits * k));
        lemma_scalar_repeat(records, pointer, class, bits, (k + 1) as u64, count, stack);
        let el = AbiType::Scalar { class, storage_bits: bits, alignment_bits: bits };
        let layout = TypeLayout { size_bits: bits as u64, alignment_bits: bits as u32 };
        assert(classify_spec(records, pointer, el, AbiPosition::Value, 0 + layout.size_bits * k, filled_state(class, bits * k), stack)
            == Some((layout, filled_state(class, w * (k + 1)))));
        assert(filled_state(class, w * (k + 1)) == filled_state(class, bits * ((k + 1) as u64)));
    }
}

/// A fixed array of `count` scalars of one class, each `bits` wide and
/// aligned, classified as a whole value spans `bits * count` bits: every
/// element is merged at its own offset, so the value is passed in one
/// register when it fits in one eightbyte and in a register pair when it
/// reaches into the second.
pub proof fn lemma_scalar_array_passing(
    records: Seq<RecordShape>,
    pointer: (u16, u16),
    class: EightbyteClass,
    bits: u16,
    count: u64,
)
    requires
        class != EightbyteClass::NoClass,
        scalar_layout_ok(bits, bits),
        count >= 1,
        bits * count <= 128,
    ensures
        value_classification(records, pointer, scalar_array(class, bits, count), AbiPosition::Value) == Some(
            (
                TypeLayout { size_bits: (bits * count) as u64, alignment_bits: bits as u32 },
                if bits * count > 64 { ValuePassing::SplitRegisters } else { ValuePassing::Direct },
            ),
        ),
{
    let w = bits as int;
    let init = (EightbyteClass::NoClass, EightbyteClass::NoClass, false);
    assert(w * 1 == w);
    assert(w <= w * count) by (nonlinear_arith)
        requires
            count >= 1,
            w >= 0,
    ;
    lemma_scalar_step(class, bits, 0, init);
    lemma_scalar_repeat(records, pointer, class, bits, 1, count, Seq::empty());
    assert(w % w == 0) by (nonlinear_arith)
        requires
            w > 0,
    ;
    lemma_scalar_array_value(records, pointer, class, bits, count, Seq::empty());
}

/// The array of `lemma_scalar_array_passing` at offset 0, on any stack of
/// records being classified.
proof fn lemma_scalar_array_value(
    records: Seq<RecordShape>,
    pointer: (u16, u16),
    class: EightbyteClass,
    bits: u16,
    count: u64,
    stack: Seq<usize>,
)
    requires
        class != EightbyteClass::NoClass,
        scalar_layout_ok(bits, bits),
        count >= 1,
        bits * count <= 128,
    ensures
        classify_spec(records, pointer, scalar_array(class, bits, count), AbiPosition::Value, 0, (EightbyteClass::NoClass, EightbyteClass::NoClass, false), stack)
            == Some((TypeLayout { size_bits: (bits * count) as u64, alignment_bits: bits as u32 }, filled_state(class, bits * count))),
{
    let w = bits as int;
    let init = (EightbyteClass::NoClass, EightbyteClass::NoClass, false);
    assert(w * 1 == w);
    assert(w <= w * count) by (nonlinear_arith)
        requires
            count >= 1,
            w >= 0,
    ;
    lemma_scalar_step(class, bits, 0, init);
    lemma_scalar_repeat(records, pointer, class, bits, 1, count, stack);
    assert(w % w == 0) by (nonlinear_arith)
        requires
            w > 0,
    ;
    let el = AbiType::Scalar { class, storage_bits: bits, alignment_bits: bits };
    let layout = TypeLayout { size_bits: bits as u64, alignment_bits: bits as u32 };
    assert(classify_spec(records, pointer, el, AbiPosition::Value, 0, init, stack) == Some((layout, filled_state(class, w))));
    assert(filled_state(class, w) == filled_state(class, bits * 1u64));
    assert(layout.size_bits * count <= 128);
}

/// A struct whose one member is such an array, laid out as the array is,
/// is passed as a parameter the way the array is: in one register up to 64
/// bits and in a register pair beyond.
pub proof fn lemma_scalar_array_struct_passing(
    records: Seq<RecordShape>,
    pointer: (u16, u16),
    index: usize,
    class: EightbyteClass,
    bits: u16,
    count: u64,
)
    requires
        class != EightbyteClass::NoClass,
        scalar_layout_ok(bits, bits),
        bits <= 64,
        count >= 1,
        bits * count <= 128,
        index < records.len(),
        records[index as int].kind == RecordKind::Struct,
        records[index as int].complete,
        records[index as int].size_bits == bits * count,
        records[index as int].alignment_bits == bits,
        records[index as int].fields@.len() == 1,
        records[index as int].fields@[0].bit_width is None,
        records[index as int].fields@[0].offset_bits == 0,
        records[index as int].fields@[0].size_bits == Some((bits * count) as u64),
        records[index as int].fields@[0].alignment_bits == Some(bits as u32),
        records[index as int].fields@[0].ty == scalar_array(class, bits, count),
    ensures
        value_classification(records, pointer, AbiType::Record { index }, AbiPosition::Parameter) == Some(
            (
                TypeLayout { size_bits: (bits * count) as u64, alignment_bits: bits as u32 },
                if bits * count > 64 { ValuePassing::SplitRegisters } else { ValuePassing::Direct },
            ),
        ),
{
    let w = bits as int;
    let init = (EightbyteClass::NoClass, EightbyteClass::NoClass, false);
    let stack = Seq::<usize>::empty().push(index);
    lemma_scalar_array_value(records, pointer, class, bits, count, stack);
    assert(w <= w * count) by (nonlinear_arith)
        requires
            count >= 1,
            w >= 0,
    ;
    assert((w * count) % w == 0) by (nonlinear_arith)
        requires
            w > 0,
    ;
    assert(w == (w / 8) * 8);
    assert(w * count == ((w / 8) * count) * 8) by (nonlinear_arith)
        requires
            w == (w / 8) * 8,
    ;
    vstd::arithmetic::div_mod::lemma_mod_multiples_basic((w / 8) * count, 8);
    assert(aggregate_layout_ok((bits * count) as u64, bits as u32));
    let r = records[index as int];
    let f = r.fields@[0];
    let fl = TypeLayout { size_bits: (bits * count) as u64, alignment_bits: bits as u32 };
    assert(fields_spec(records, pointer, index, 1, 0, filled_state(class, bits * count), stack, (bits * count) as u64, bits as u32)
        == Some((fl, filled_state(class, bits * count))));
    assert(fields_spec(records, pointer, index, 0, 0, init, stack, 0, 8) == Some((fl, filled_state(class, bits * count))));
    assert(record_spec(records, pointer, index, 0, init, stack) == Some((fl, filled_state(class, bits * count))));
    assert(!Seq::<usize>::empty().contains(index));
}

/// A scalar alone is passed in one register when it fits one eightbyte and
/// in a register pair when it reaches into the second, with its own size
/// and alignment, wherever it stands.
pub proof fn lemma_scalar_value_passing(
    records: Seq<RecordShape>,
    pointer: (u16, u16),
    class: EightbyteClass,
    storage_bits: u16,
    alignment_bits: u16,
    position: AbiPosition,
)
    requires
        class != EightbyteClass::NoClass,
        scalar_layout_ok(storage_bits, alignment_bits),
        storage_bits <= 128,
    ensures
        value_classification(records, pointer, AbiType::Scalar { class, storage_bits, alignment_bits }, position) == Some(
            (
                TypeLayout { size_bits: storage_bits as u64, alignment_bits: alignment_bits as u32 },
                if storage_bits > 64 { ValuePassing::SplitRegisters } else { ValuePassing::Direct },
            ),
        ),
{
    let init = (EightbyteClass::NoClass, EightbyteClass::NoClass, false);
    let e = merge_range_spec(eb_of(init), 0, storage_bits as int, class);
    assert((storage_bits - 1) / 64 <= 1);
    assert(eb_view(e) == filled_state(class, storage_bits as int));
    assert(0int % (alignment_bits as int) == 0);
}

/// Where values may stand: `void` only as a return value, where it is
/// ignored; an array is refused as a return value and decays to a pointer
/// as a parameter; a record outside the table and an unsupported type have
/// no classification anywhere.
pub proof fn lemma_value_positions(
    records: Seq<RecordShape>,
    pointer: (u16, u16),
    element: AbiType,
    elements: Option<u64>,
    index: usize,
    position: AbiPosition,
)
    ensures
        value_classification(records, pointer, AbiType::Void, AbiPosition::Return) == Some(
            (TypeLayout { size_bits: 0, alignment_bits: 8 }, ValuePassing::Ignore),
        ),
        value_classification(records, pointer, AbiType::Void, AbiPosition::Parameter) is None,
        value_classification(records, pointer, AbiType::Void, AbiPosition::Value) is None,
        value_classification(records, pointer, AbiType::Unsupported, position) is None,
        value_classification(records, pointer, AbiType::Array { element: Box::new(element), elements }, AbiPosition::Return)
            is None,
        value_classification(records, pointer, AbiType::Array { element: Box::new(element), elements }, AbiPosition::Parameter)
            == value_classification(records, pointer, AbiType::Pointer, AbiPosition::Parameter),
        index >= records.len() ==> value_classification(records, pointer, AbiType::Record { index }, position) is None,
{
}

pub open spec fn scalar_field(offset_bits: u64, class: EightbyteClass, bits: u16) -> FieldShape {
    FieldShape {
        bit_width: None,
        offset_bits,
        size_bits: Some(bits as u64),
        alignment_bits: Some(bits as u32),
        ty: AbiType::Scalar { class, storage_bits: bits, alignment_bits: bits },
    }
}

/// A struct of two scalars, the first at offset 0 within the first
/// eightbyte and the second at an aligned offset after it, is passed as a
/// parameter in a register pair exactly when the second reaches into the
/// second eightbyte, and in one register otherwise: both members are merged.
pub proof fn lemma_two_scalar_struct_passing(
    records: Seq<RecordShape>,
    pointer: (u16, u16),
    index: usize,
    first: EightbyteClass,
    first_bits: u16,
    second: EightbyteClass,
    second_bits: u16,
    offset: u64,
)
    requires
        first != EightbyteClass::NoClass,
        second != EightbyteClass::NoClass,
        scalar_layout_ok(first_bits, first_bits),
        scalar_layout_ok(second_bits, second_bits),
        first_bits <= 64,
        second_bits <= 64,
        offset >= first_bits,
        offset % (second_bits as u64) == 0,
        index < records.len(),
        records[index as int].kind == RecordKind::Struct,
        records[index as int].complete,
        aggregate_layout_ok(records[index as int].size_bits, records[index as int].alignment_bits),
        records[index as int].size_bits <= 128,
        offset + second_bits <= records[index as int].size_bits,
        records[index as int].alignment_bits >= first_bits,
        records[index as int].alignment_bits >= second_bits,
        records[index as int].fields@ == seq![scalar_field(0, first, first_bits), scalar_field(offset, second, second_bits)],
    ensures
        value_classification(records, pointer, AbiType::Record { index }, AbiPosition::Parameter) == Some(
            (
                TypeLayout { size_bits: records[index as int].size_bits, alignment_bits: records[index as int].alignment_bits },
                if offset + second_bits > 64 { ValuePassing::SplitRegisters } else { ValuePassing::Direct },
            ),
        ),
{
    let r = records[index as int];
    let init = (EightbyteClass::NoClass, EightbyteClass::NoClass, false);
    let stack = Seq::<usize>::empty().push(index);
    let w0 = first_bits as int;
    let w1 = second_bits as int;
    let o = offset as int;
    // first member
    let e0 = merge_range_spec(eb_of(init), 0, w0, first);
    assert((w0 - 1) / 64 == 0);
    let s0 = eb_view(e0);
    assert(s0 == (first, EightbyteClass::NoClass, false));
    assert(0int % w0 == 0);
    let l0 = TypeLayout { size_bits: first_bits as u64, alignment_bits: first_bits as u32 };
    assert(classify_spec(records, pointer, r.fields@[0].ty, AbiPosition::Value, 0, init, stack) == Some((l0, s0)));
    // second member
    assert(o % 8 == 0) by (nonlinear_arith)
        requires
            o % w1 == 0,
            w1 % 8 == 0,
            w1 > 0,
    {
        assert(o == (o / w1) * w1);
        assert(w1 == (w1 / 8) * 8);
        assert(o == ((o / w1) * (w1 / 8)) * 8);
    }
    let e1 = merge_range_spec(eb_of(s0), o, w1, second);
    assert((o + w1 - 1) / 64 <= 1);
    assert(w1 == 8 || w1 == 16 || w1 == 32 || w1 == 64) by {
        if w1 == 24 {
            reveal_with_fuel(is_pow2, 5);
            assert(!is_pow2(24));
        } else if w1 == 40 {
            reveal_with_fuel(is_pow2, 5);
            assert(!is_pow2(40));
        } else if w1 == 48 {
            reveal_with_fuel(is_pow2, 5);
            assert(!is_pow2(48));
        } else if w1 == 56 {
            reveal_with_fuel(is_pow2, 5);
            assert(!is_pow2(56));
        }
    }
    assert(o < 64 ==> o + w1 <= 64);
    let s1 = eb_view(e1);
    assert(s1.0 != EightbyteClass::NoClass);
    assert(s1.1 != EightbyteClass::NoClass <==> o + w1 > 64);
    assert(!s1.2);
    let l1 = TypeLayout { size_bits: second_bits as u64, alignment_bits: second_bits as u32 };
    assert(classify_spec(records, pointer, r.fields@[1].ty, AbiPosition::Value, o, s0, stack) == Some((l1, s1)));
    let fl = TypeLayout { size_bits: r.size_bits, alignment_bits: r.alignment_bits };
    let max1: u32 = if first_bits as u32 > 8 { first_bits as u32 } else { 8 };
    let max2: u32 = if second_bits as u32 > max1 { second_bits as u32 } else { max1 };
    assert(fields_spec(records, pointer, index, 2, 0, s1, stack, (offset + second_bits) as u64, max2) == Some((fl, s1)));
    assert(fields_spec(records, pointer, index, 1, 0, s0, stack, first_bits as u64, max1) == Some((fl, s1)));
    assert(fields_spec(records, pointer, index, 0, 0, init, stack, 0, 8) == Some((fl, s1)));
    assert(record_spec(records, pointer, index, 0, init, stack) == Some((fl, s1)));
    assert(!Seq::<usize>::empty().contains(index));
}

} // verus!
