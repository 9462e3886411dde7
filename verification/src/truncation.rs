//! Two laws of the decoding model. A decode that succeeds ends inside the
//! buffer, at or behind where it started; and cutting the buffer short can
//! change a decode that succeeds in one way only, into a failure with
//! `UnexpectedEof`.

use vstd::prelude::*;
use crate::cursor::{lemma_align_up, read_int, read_start, read_uint};
use crate::error::{ErrorKindView, RszErrorView};
use crate::field::{
    bits_model,
    floats_model,
    lanes_model,
    leaf_model,
    optional_string_model,
    raw_model,
    string_model,
    units_model,
};
use crate::model::{
    child_model,
    elements_model,
    field_model,
    fields_model,
    free_slots,
    lemma_free_slots_insert,
    object_model,
    Input,
};
use crate::schema::{FieldPlan, FieldType};
use crate::symbolic::{FlagKind, IntKind};

verus! {

/// `input` with only the first `keep` bytes of its buffer.
pub open spec fn cut(input: Input, keep: int) -> Input {
    Input { catalog: input.catalog, bytes: input.bytes.take(keep), children: input.children }
}

/// Where `full` succeeds, `short` is the same success or `UnexpectedEof`.
pub open spec fn same_or_eof<T>(full: Result<T, ErrorKindView>, short: Result<T, ErrorKindView>) -> bool {
    full is Ok ==> short == full || short == Err::<T, ErrorKindView>(ErrorKindView::UnexpectedEof)
}

/// Where `full` succeeds, `short` is the same success or a failure with
/// `UnexpectedEof`.
pub open spec fn same_or_eof_at<T>(full: Result<T, RszErrorView>, short: Result<T, RszErrorView>) -> bool {
    full is Ok ==> short == full || (short is Err && short->Err_0.kind
        == ErrorKindView::UnexpectedEof)
}

/// Where the outcome is a success, it ends in `pos ..= len`.
pub open spec fn ends_within<T>(outcome: Result<(T, int), ErrorKindView>, pos: int, len: int) -> bool {
    outcome matches Ok((_, end)) ==> pos <= end <= len
}

/// A read that succeeds starts at or behind the offset and ends inside the
/// buffer.
pub proof fn lemma_start_span(len: int, pos: int, alignment: int, width: int)
    requires
        0 <= pos,
        0 <= alignment,
        0 <= width,
    ensures
        read_start(len, pos, alignment, width) matches Ok(start) ==> pos <= start && start + width
            <= len,
{
    if alignment > 0 {
        lemma_align_up(pos, alignment);
    }
}

proof fn lemma_uint_span(bytes: Seq<u8>, pos: int, width: int)
    requires
        0 <= pos,
        0 < width,
    ensures
        ends_within(read_uint(bytes, pos, width), pos, bytes.len() as int),
        ends_within(read_int(bytes, pos, width), pos, bytes.len() as int),
{
    lemma_start_span(bytes.len() as int, pos, width, width);
}

proof fn lemma_units_span(bytes: Seq<u8>, pos: int, count: nat)
    requires
        0 <= pos <= bytes.len(),
    ensures
        ends_within(units_model(bytes, pos, count), pos, bytes.len() as int),
    decreases count,
{
    if count > 0 {
        lemma_uint_span(bytes, pos, 2);
        if let Ok((_, next)) = read_uint(bytes, pos, 2) {
            lemma_units_span(bytes, next, (count - 1) as nat);
        }
    }
}

proof fn lemma_lanes_span(bytes: Seq<u8>, pos: int, count: nat)
    requires
        0 <= pos <= bytes.len(),
    ensures
        ends_within(lanes_model(bytes, pos, count), pos, bytes.len() as int),
    decreases count,
{
    if count > 0 {
        lemma_uint_span(bytes, pos, 4);
        if let Ok((_, next)) = read_uint(bytes, pos, 4) {
            lemma_lanes_span(bytes, next, (count - 1) as nat);
        }
    }
}

proof fn lemma_raw_span(bytes: Seq<u8>, pos: int, kind: IntKind)
    requires
        0 <= pos,
    ensures
        ends_within(raw_model(bytes, pos, kind), pos, bytes.len() as int),
{
    lemma_uint_span(bytes, pos, 1);
    lemma_uint_span(bytes, pos, 2);
    lemma_uint_span(bytes, pos, 4);
    lemma_uint_span(bytes, pos, 8);
}

proof fn lemma_bits_span(bytes: Seq<u8>, pos: int, kind: FlagKind)
    requires
        0 <= pos,
    ensures
        ends_within(bits_model(bytes, pos, kind), pos, bytes.len() as int),
{
    lemma_uint_span(bytes, pos, 1);
    lemma_uint_span(bytes, pos, 2);
    lemma_uint_span(bytes, pos, 4);
    lemma_uint_span(bytes, pos, 8);
}

proof fn lemma_string_span(bytes: Seq<u8>, pos: int)
    requires
        0 <= pos,
    ensures
        ends_within(optional_string_model(bytes, pos), pos, bytes.len() as int),
        ends_within(string_model(bytes, pos), pos, bytes.len() as int),
{
    lemma_uint_span(bytes, pos, 4);
    if let Ok((count, next)) = read_uint(bytes, pos, 4) {
        lemma_units_span(bytes, next, count);
    }
}

proof fn lemma_floats_span(bytes: Seq<u8>, pos: int, lanes: nat, padded: bool)
    requires
        0 <= pos,
    ensures
        ends_within(floats_model(bytes, pos, lanes, padded), pos, bytes.len() as int),
{
    lemma_start_span(bytes.len() as int, pos, 16, 0);
    if let Ok(start) = read_start(bytes.len() as int, pos, 16, 0) {
        lemma_lanes_span(bytes, start, lanes);
        if let Ok((_, end)) = lanes_model(bytes, start, lanes) {
            lemma_start_span(bytes.len() as int, end, 16, 0);
        }
    }
}

/// A leaf field that decodes ends inside the buffer, at or behind where it
/// started.
pub proof fn lemma_leaf_span(bytes: Seq<u8>, ty: FieldType, pos: int)
    requires
        0 <= pos,
        ty.is_leaf(),
    ensures
        ends_within(leaf_model(bytes, ty, pos), pos, bytes.len() as int),
{
    let len = bytes.len() as int;
    match ty {
        FieldType::Bool | FieldType::U8 | FieldType::I8 => {
            lemma_uint_span(bytes, pos, 1);
        },
        FieldType::U16 | FieldType::I16 => {
            lemma_uint_span(bytes, pos, 2);
        },
        FieldType::U32 | FieldType::I32 | FieldType::F32 => {
            lemma_uint_span(bytes, pos, 4);
        },
        FieldType::U64 | FieldType::I64 => {
            lemma_uint_span(bytes, pos, 8);
        },
        FieldType::Guid => {
            lemma_start_span(len, pos, 8, 16);
        },
        FieldType::Vec2 | FieldType::Vec3 | FieldType::Vec4 | FieldType::Quat | FieldType::Mat4 => {
            let (lanes, padded) = ty.float_shape().unwrap();
            lemma_floats_span(bytes, pos, lanes, padded);
        },
        FieldType::Aligner(a) => {
            lemma_start_span(len, pos, a.align as int, 0);
        },
        FieldType::Placeholder => {
            lemma_uint_span(bytes, pos, 4);
        },
        FieldType::OptionalString | FieldType::Text => {
            lemma_string_span(bytes, pos);
        },
        FieldType::Enum(schema) => {
            lemma_raw_span(bytes, pos, schema.base);
        },
        FieldType::Flags(schema) => {
            lemma_bits_span(bytes, pos, schema.base);
        },
        FieldType::Offset(schema) => {
            lemma_raw_span(bytes, pos, schema.base);
        },
        _ => {},
    }
}

/// Where the outcome is a success, it ends in `pos ..= len`.
pub open spec fn ends_within_at<T>(outcome: Result<(T, int), RszErrorView>, pos: int, len: int) -> bool {
    outcome matches Ok((_, end)) ==> pos <= end <= len
}

/// A field that decodes ends inside the buffer, at or behind where it
/// started.
pub proof fn lemma_field_span(input: Input, active: Set<int>, ty: FieldType, pos: int, version: u32)
    requires
        0 <= pos <= input.bytes.len(),
    ensures
        ends_within_at(
            field_model(input, active, ty, pos, version),
            pos,
            input.bytes.len() as int,
        ),
    decreases ty, 0int,
{
    let len = input.bytes.len() as int;
    match ty {
        FieldType::Sequence(elem) => {
            lemma_uint_span(input.bytes, pos, 4);
            if let Ok((count, first)) = read_uint(input.bytes, pos, 4) {
                lemma_elements_span(input, active, *elem, first, version, count);
            }
        },
        FieldType::FixedArray(elem, _) => {
            lemma_uint_span(input.bytes, pos, 4);
            if let Ok((count, first)) = read_uint(input.bytes, pos, 4) {
                lemma_elements_span(input, active, *elem, first, version, count);
            }
        },
        FieldType::Versioned(gate) => {
            if gate.includes(version) {
                lemma_field_span(input, active, *gate.inner, pos, version);
            }
        },
        FieldType::Flatten(nested) => {
            lemma_start_span(len, pos, 4, 0);
            if let Ok(first) = read_start(len, pos, 4, 0) {
                lemma_fields_span(input, active, nested.fields@, 0, first, version);
            }
        },
        FieldType::Child | FieldType::Shared => {
            lemma_uint_span(input.bytes, pos, 4);
        },
        _ => {
            lemma_leaf_span(input.bytes, ty, pos);
        },
    }
}

/// Elements that decode end inside the buffer, at or behind where they
/// started.
pub proof fn lemma_elements_span(
    input: Input,
    active: Set<int>,
    elem: FieldType,
    pos: int,
    version: u32,
    count: nat,
)
    requires
        0 <= pos <= input.bytes.len(),
    ensures
        ends_within_at(
            elements_model(input, active, elem, pos, version, count),
            pos,
            input.bytes.len() as int,
        ),
    decreases elem, count + 1,
{
    if count > 0 {
        lemma_field_span(input, active, elem, pos, version);
        if let Ok((_, next)) = field_model(input, active, elem, pos, version) {
            lemma_elements_span(input, active, elem, next, version, (count - 1) as nat);
        }
    }
}

/// Fields that decode end inside the buffer, at or behind where they
/// started.
pub proof fn lemma_fields_span(
    input: Input,
    active: Set<int>,
    fields: Seq<FieldPlan>,
    from: int,
    pos: int,
    version: u32,
)
    requires
        0 <= pos <= input.bytes.len(),
    ensures
        ends_within_at(
            fields_model(input, active, fields, from, pos, version),
            pos,
            input.bytes.len() as int,
        ),
    decreases fields, fields.len() - from,
{
    if 0 <= from < fields.len() {
        lemma_field_span(input, active, fields[from].ty, pos, version);
        if let Ok((_, next)) = field_model(input, active, fields[from].ty, pos, version) {
            lemma_fields_span(input, active, fields, from + 1, next, version);
        }
    }
}

proof fn lemma_cut_uint(bytes: Seq<u8>, pos: int, width: int, keep: int)
    requires
        0 <= pos,
        0 < width,
        0 <= keep <= bytes.len(),
    ensures
        same_or_eof(read_uint(bytes, pos, width), read_uint(bytes.take(keep), pos, width)),
        same_or_eof(read_int(bytes, pos, width), read_int(bytes.take(keep), pos, width)),
{
    lemma_start_span(bytes.len() as int, pos, width, width);
    if let Ok(start) = read_start(bytes.len() as int, pos, width, width) {
        if start + width <= keep {
            assert(bytes.take(keep).subrange(start, start + width) =~= bytes.subrange(
                start,
                start + width,
            ));
        }
    }
}

proof fn lemma_cut_units(bytes: Seq<u8>, pos: int, count: nat, keep: int)
    requires
        0 <= pos <= bytes.len(),
        0 <= keep <= bytes.len(),
    ensures
        same_or_eof(units_model(bytes, pos, count), units_model(bytes.take(keep), pos, count)),
    decreases count,
{
    if count > 0 {
        lemma_cut_uint(bytes, pos, 2, keep);
        lemma_uint_span(bytes, pos, 2);
        if let Ok((_, next)) = read_uint(bytes, pos, 2) {
            lemma_cut_units(bytes, next, (count - 1) as nat, keep);
        }
    }
}

proof fn lemma_cut_lanes(bytes: Seq<u8>, pos: int, count: nat, keep: int)
    requires
        0 <= pos <= bytes.len(),
        0 <= keep <= bytes.len(),
    ensures
        same_or_eof(lanes_model(bytes, pos, count), lanes_model(bytes.take(keep), pos, count)),
    decreases count,
{
    if count > 0 {
        lemma_cut_uint(bytes, pos, 4, keep);
        lemma_uint_span(bytes, pos, 4);
        if let Ok((_, next)) = read_uint(bytes, pos, 4) {
            lemma_cut_lanes(bytes, next, (count - 1) as nat, keep);
        }
    }
}

proof fn lemma_cut_string(bytes: Seq<u8>, pos: int, keep: int)
    requires
        0 <= pos,
        0 <= keep <= bytes.len(),
    ensures
        same_or_eof(optional_string_model(bytes, pos), optional_string_model(bytes.take(keep), pos)),
        same_or_eof(string_model(bytes, pos), string_model(bytes.take(keep), pos)),
{
    lemma_cut_uint(bytes, pos, 4, keep);
    lemma_uint_span(bytes, pos, 4);
    if let Ok((count, next)) = read_uint(bytes, pos, 4) {
        lemma_cut_units(bytes, next, count, keep);
    }
}

proof fn lemma_cut_floats(bytes: Seq<u8>, pos: int, lanes: nat, padded: bool, keep: int)
    requires
        0 <= pos,
        0 <= keep <= bytes.len(),
    ensures
        same_or_eof(
            floats_model(bytes, pos, lanes, padded),
            floats_model(bytes.take(keep), pos, lanes, padded),
        ),
{
    lemma_start_span(bytes.len() as int, pos, 16, 0);
    if let Ok(start) = read_start(bytes.len() as int, pos, 16, 0) {
        lemma_cut_lanes(bytes, start, lanes, keep);
    }
}

proof fn lemma_cut_raw(bytes: Seq<u8>, pos: int, kind: IntKind, keep: int)
    requires
        0 <= pos,
        0 <= keep <= bytes.len(),
    ensures
        same_or_eof(raw_model(bytes, pos, kind), raw_model(bytes.take(keep), pos, kind)),
{
    lemma_cut_uint(bytes, pos, 1, keep);
    lemma_cut_uint(bytes, pos, 2, keep);
    lemma_cut_uint(bytes, pos, 4, keep);
    lemma_cut_uint(bytes, pos, 8, keep);
}

proof fn lemma_cut_bits(bytes: Seq<u8>, pos: int, kind: FlagKind, keep: int)
    requires
        0 <= pos,
        0 <= keep <= bytes.len(),
    ensures
        same_or_eof(bits_model(bytes, pos, kind), bits_model(bytes.take(keep), pos, kind)),
{
    lemma_cut_uint(bytes, pos, 1, keep);
    lemma_cut_uint(bytes, pos, 2, keep);
    lemma_cut_uint(bytes, pos, 4, keep);
    lemma_cut_uint(bytes, pos, 8, keep);
}

/// Cutting the buffer short leaves a leaf field that decodes as it is, or
/// makes it fail with `UnexpectedEof`.
pub proof fn lemma_cut_leaf(bytes: Seq<u8>, ty: FieldType, pos: int, keep: int)
    requires
        0 <= pos,
        0 <= keep <= bytes.len(),
        ty.is_leaf(),
    ensures
        same_or_eof(leaf_model(bytes, ty, pos), leaf_model(bytes.take(keep), ty, pos)),
{
    let len = bytes.len() as int;
    match ty {
        FieldType::Bool | FieldType::U8 | FieldType::I8 => {
            lemma_cut_uint(bytes, pos, 1, keep);
        },
        FieldType::U16 | FieldType::I16 => {
            lemma_cut_uint(bytes, pos, 2, keep);
        },
        FieldType::U32 | FieldType::I32 | FieldType::F32 => {
            lemma_cut_uint(bytes, pos, 4, keep);
        },
        FieldType::U64 | FieldType::I64 => {
            lemma_cut_uint(bytes, pos, 8, keep);
        },
        FieldType::Guid => {
            lemma_start_span(len, pos, 8, 16);
            if let Ok(start) = read_start(len, pos, 8, 16) {
                if start + 16 <= keep {
                    assert(bytes.take(keep).subrange(start, start + 16) =~= bytes.subrange(
                        start,
                        start + 16,
                    ));
                }
            }
        },
        FieldType::Vec2 | FieldType::Vec3 | FieldType::Vec4 | FieldType::Quat | FieldType::Mat4 => {
            let (lanes, padded) = ty.float_shape().unwrap();
            lemma_cut_floats(bytes, pos, lanes, padded, keep);
        },
        FieldType::Aligner(_) => {},
        FieldType::Placeholder => {
            lemma_cut_uint(bytes, pos, 4, keep);
        },
        FieldType::OptionalString | FieldType::Text => {
            lemma_cut_string(bytes, pos, keep);
        },
        FieldType::Enum(schema) => {
            lemma_cut_raw(bytes, pos, schema.base, keep);
        },
        FieldType::Flags(schema) => {
            lemma_cut_bits(bytes, pos, schema.base, keep);
        },
        FieldType::Offset(schema) => {
            lemma_cut_raw(bytes, pos, schema.base, keep);
        },
        _ => {},
    }
}

/// Cutting the buffer short leaves a field that decodes as it is, or makes
/// it fail with `UnexpectedEof`.
pub proof fn lemma_cut_field(
    input: Input,
    active: Set<int>,
    ty: FieldType,
    pos: int,
    version: u32,
    keep: int,
)
    requires
        0 <= pos <= input.bytes.len(),
        0 <= keep <= input.bytes.len(),
    ensures
        same_or_eof_at(
            field_model(input, active, ty, pos, version),
            field_model(cut(input, keep), active, ty, pos, version),
        ),
    decreases free_slots(input.children.len(), active), 1int, ty, 0int,
{
    let len = input.bytes.len() as int;
    match ty {
        FieldType::Sequence(elem) => {
            lemma_cut_uint(input.bytes, pos, 4, keep);
            lemma_uint_span(input.bytes, pos, 4);
            if let Ok((count, first)) = read_uint(input.bytes, pos, 4) {
                lemma_cut_elements(input, active, *elem, first, version, count, keep);
            }
        },
        FieldType::FixedArray(elem, _) => {
            lemma_cut_uint(input.bytes, pos, 4, keep);
            lemma_uint_span(input.bytes, pos, 4);
            if let Ok((count, first)) = read_uint(input.bytes, pos, 4) {
                lemma_cut_elements(input, active, *elem, first, version, count, keep);
            }
        },
        FieldType::Versioned(gate) => {
            if gate.includes(version) {
                lemma_cut_field(input, active, *gate.inner, pos, version, keep);
            }
        },
        FieldType::Flatten(nested) => {
            lemma_start_span(len, pos, 4, 0);
            if let Ok(first) = read_start(len, pos, 4, 0) {
                lemma_cut_fields(input, active, nested.fields@, 0, first, version, keep);
            }
        },
        FieldType::Child | FieldType::Shared => {
            lemma_cut_uint(input.bytes, pos, 4, keep);
            if let Ok((index, _)) = read_uint(input.bytes, pos, 4) {
                lemma_cut_child(input, active, index as int, keep);
            }
        },
        _ => {
            lemma_cut_leaf(input.bytes, ty, pos, keep);
        },
    }
}

/// Cutting the buffer short leaves elements that decode as they are, or
/// makes them fail with `UnexpectedEof`.
pub proof fn lemma_cut_elements(
    input: Input,
    active: Set<int>,
    elem: FieldType,
    pos: int,
    version: u32,
    count: nat,
    keep: int,
)
    requires
        0 <= pos <= input.bytes.len(),
        0 <= keep <= input.bytes.len(),
    ensures
        same_or_eof_at(
            elements_model(input, active, elem, pos, version, count),
            elements_model(cut(input, keep), active, elem, pos, version, count),
        ),
    decreases free_slots(input.children.len(), active), 1int, elem, count + 1,
{
    if count > 0 {
        lemma_cut_field(input, active, elem, pos, version, keep);
        lemma_field_span(input, active, elem, pos, version);
        if let Ok((_, next)) = field_model(input, active, elem, pos, version) {
            lemma_cut_elements(input, active, elem, next, version, (count - 1) as nat, keep);
        }
    }
}

/// Cutting the buffer short leaves fields that decode as they are, or makes
/// them fail with `UnexpectedEof`.
pub proof fn lemma_cut_fields(
    input: Input,
    active: Set<int>,
    fields: Seq<FieldPlan>,
    from: int,
    pos: int,
    version: u32,
    keep: int,
)
    requires
        0 <= pos <= input.bytes.len(),
        0 <= keep <= input.bytes.len(),
    ensures
        same_or_eof_at(
            fields_model(input, active, fields, from, pos, version),
            fields_model(cut(input, keep), active, fields, from, pos, version),
        ),
    decreases free_slots(input.children.len(), active), 1int, fields, fields.len() - from,
{
    if 0 <= from < fields.len() {
        lemma_cut_field(input, active, fields[from].ty, pos, version, keep);
        lemma_field_span(input, active, fields[from].ty, pos, version);
        if let Ok((_, next)) = field_model(input, active, fields[from].ty, pos, version) {
            lemma_cut_fields(input, active, fields, from + 1, next, version, keep);
        }
    }
}

/// Cutting the buffer short leaves a child that resolves as it is, or makes
/// it fail with `UnexpectedEof`.
pub proof fn lemma_cut_child(input: Input, active: Set<int>, index: int, keep: int)
    requires
        0 <= keep <= input.bytes.len(),
    ensures
        same_or_eof_at(child_model(input, active, index), child_model(cut(input, keep), active, index)),
    decreases free_slots(input.children.len(), active), 0int,
{
    if 0 <= index < input.children.len() && !active.contains(index) {
        lemma_free_slots_insert(input.children.len(), active, index);
        lemma_cut_object(
            input,
            active.insert(index),
            input.children[index].symbol@,
            input.children[index].hash,
            input.children[index].offset as int,
            keep,
        );
    }
}

/// Cutting the buffer short leaves an object that decodes as it is, or
/// makes it fail with `UnexpectedEof`.
pub proof fn lemma_cut_object(
    input: Input,
    active: Set<int>,
    symbol: Seq<char>,
    hash: u32,
    offset: int,
    keep: int,
)
    requires
        0 <= offset,
        0 <= keep <= input.bytes.len(),
    ensures
        same_or_eof_at(
            object_model(input, active, symbol, hash, offset),
            object_model(cut(input, keep), active, symbol, hash, offset),
        ),
    decreases free_slots(input.children.len(), active), 2int,
{
    if let Ok((descriptor, version)) = crate::schema::plan_for(input.catalog, symbol, hash) {
        if offset <= input.bytes.len() {
            lemma_cut_fields(
                input,
                active,
                input.catalog[descriptor].fields@,
                0,
                offset,
                version,
                keep,
            );
        }
    }
}

/// A field that decodes up to `end` fails with `UnexpectedEof` on every
/// buffer that is cut short of `end`.
pub proof fn lemma_truncated_field(
    input: Input,
    active: Set<int>,
    ty: FieldType,
    pos: int,
    version: u32,
    keep: int,
)
    requires
        field_model(input, active, ty, pos, version) is Ok,
        0 <= pos <= keep,
        keep < field_model(input, active, ty, pos, version)->Ok_0.1,
    ensures
        field_model(cut(input, keep), active, ty, pos, version) is Err,
        field_model(cut(input, keep), active, ty, pos, version)->Err_0.kind
            == ErrorKindView::UnexpectedEof,
{
    let end = field_model(input, active, ty, pos, version)->Ok_0.1;
    if pos <= input.bytes.len() {
        lemma_field_span(input, active, ty, pos, version);
        lemma_cut_field(input, active, ty, pos, version, keep);
        lemma_field_span(cut(input, keep), active, ty, pos, version);
    } else {
        lemma_beyond_the_end(input, active, ty, pos, version);
    }
}

/// A field that decodes from an offset beyond the buffer reads nothing: it
/// ends where it started.
proof fn lemma_beyond_the_end(input: Input, active: Set<int>, ty: FieldType, pos: int, version: u32)
    requires
        pos > input.bytes.len(),
    ensures
        field_model(input, active, ty, pos, version) matches Ok((_, end)) ==> end == pos,
    decreases ty,
{
    let len = input.bytes.len() as int;
    match ty {
        FieldType::Sequence(_) | FieldType::FixedArray(_, _) | FieldType::Child | FieldType::Shared => {
            lemma_uint_span(input.bytes, pos, 4);
        },
        FieldType::Versioned(gate) => {
            if gate.includes(version) {
                lemma_beyond_the_end(input, active, *gate.inner, pos, version);
            }
        },
        FieldType::Flatten(_) => {
            lemma_start_span(len, pos, 4, 0);
        },
        _ => {
            lemma_leaf_span(input.bytes, ty, pos);
        },
    }
}

} // verus!
