//! What decoding means: the value that a layout, a buffer and a child table
//! determine, stated without any cache.

use vstd::prelude::*;
use crate::cursor::{read_start, read_uint};
use crate::error::{ErrorKindView, RszErrorView};
use crate::field::leaf_model;
use crate::schema::{plan_for, FieldPlan, FieldType, TypeDescriptor};
use crate::value::{FieldView, ObjectView, ValueView};

verus! {

/// One entry of the child table: where the object's bytes start, and the
/// type and the content hash that the container stores with them.
#[derive(Debug, Clone, PartialEq, Eq)]
pub struct ChildEntry {
    pub offset: usize,
    pub symbol: String,
    pub hash: u32,
}

/// Everything a decode reads: the catalog, the buffer and the child table.
pub struct Input {
    pub catalog: Seq<TypeDescriptor>,
    pub bytes: Seq<u8>,
    pub children: Seq<ChildEntry>,
}

/// The number of indices below `n` that are not in `active`.
pub open spec fn free_slots(n: nat, active: Set<int>) -> nat
    decreases n,
{
    if n == 0 {
        0
    } else if active.contains(n - 1) {
        free_slots((n - 1) as nat, active)
    } else {
        free_slots((n - 1) as nat, active) + 1
    }
}

/// Taking one more index below `n` leaves fewer free.
pub proof fn lemma_free_slots_insert(n: nat, active: Set<int>, index: int)
    ensures
        0 <= index < n && !active.contains(index) ==> free_slots(n, active.insert(index))
            < free_slots(n, active),
        free_slots(n, active.insert(index)) <= free_slots(n, active),
    decreases n,
{
    if n > 0 {
        lemma_free_slots_insert((n - 1) as nat, active, index);
    }
}

/// The value of a field of layout `ty` at `pos`, decoded by schema version
/// `version`, and the offset behind it. `active` holds the indices of the
/// child objects that the field lies inside of.
pub open spec fn field_model(
    input: Input,
    active: Set<int>,
    ty: FieldType,
    pos: int,
    version: u32,
) -> Result<(ValueView, int), RszErrorView>
    decreases free_slots(input.children.len(), active), 1int, ty, 0int,
{
    match ty {
        FieldType::Sequence(elem) => match read_uint(input.bytes, pos, 4) {
            Ok((count, first)) => match elements_model(input, active, *elem, first, version, count) {
                Ok((items, end)) => Ok((ValueView::Sequence(items), end)),
                Err(e) => Err(e),
            },
            Err(kind) => Err(RszErrorView::bare(kind)),
        },
        FieldType::FixedArray(elem, len) => match read_uint(input.bytes, pos, 4) {
            Ok((count, first)) => match elements_model(input, active, *elem, first, version, count) {
                Ok((items, end)) => if count == len {
                    Ok((ValueView::Sequence(items), end))
                } else {
                    Err(
                        RszErrorView::bare(
                            ErrorKindView::ArraySizeMismatch { expected: len, actual: count as usize },
                        ),
                    )
                },
                Err(e) => Err(e),
            },
            Err(kind) => Err(RszErrorView::bare(kind)),
        },
        FieldType::Versioned(gate) => if gate.includes(version) {
            match field_model(input, active, *gate.inner, pos, version) {
                Ok((v, end)) => Ok((ValueView::Versioned(Some(Box::new(v))), end)),
                Err(e) => Err(e),
            }
        } else {
            Ok((ValueView::Versioned(None), pos))
        },
        FieldType::Flatten(nested) => match read_start(input.bytes.len() as int, pos, 4, 0) {
            Ok(first) => match fields_model(input, active, nested.fields@, 0, first, version) {
                Ok((fields, end)) => Ok((ValueView::Flatten(fields), end)),
                Err(e) => Err(e),
            },
            Err(kind) => Err(RszErrorView::bare(kind)),
        },
        FieldType::Child => match read_uint(input.bytes, pos, 4) {
            Ok((index, end)) => match child_model(input, active, index as int) {
                Ok(object) => Ok((ValueView::Child(object), end)),
                Err(e) => Err(e),
            },
            Err(kind) => Err(RszErrorView::bare(kind)),
        },
        FieldType::Shared => match read_uint(input.bytes, pos, 4) {
            Ok((index, end)) => match child_model(input, active, index as int) {
                Ok(object) => Ok((ValueView::Shared(object), end)),
                Err(e) => Err(e),
            },
            Err(kind) => Err(RszErrorView::bare(kind)),
        },
        _ => match leaf_model(input.bytes, ty, pos) {
            Ok((v, end)) => Ok((v, end)),
            Err(kind) => Err(RszErrorView::bare(kind)),
        },
    }
}

/// `count` elements of layout `elem` in a row.
pub open spec fn elements_model(
    input: Input,
    active: Set<int>,
    elem: FieldType,
    pos: int,
    version: u32,
    count: nat,
) -> Result<(Seq<ValueView>, int), RszErrorView>
    decreases free_slots(input.children.len(), active), 1int, elem, count + 1,
{
    if count == 0 {
        Ok((Seq::empty(), pos))
    } else {
        match field_model(input, active, elem, pos, version) {
            Ok((v, next)) => match elements_model(
                input,
                active,
                elem,
                next,
                version,
                (count - 1) as nat,
            ) {
                Ok((rest, end)) => Ok((seq![v] + rest, end)),
                Err(e) => Err(e),
            },
            Err(e) => Err(e),
        }
    }
}

/// The fields `fields[from..]` of a structure in a row. A failure inside a
/// field is reported under the field's name.
pub open spec fn fields_model(
    input: Input,
    active: Set<int>,
    fields: Seq<FieldPlan>,
    from: int,
    pos: int,
    version: u32,
) -> Result<(Seq<FieldView>, int), RszErrorView>
    decreases free_slots(input.children.len(), active), 1int, fields, fields.len() - from,
{
    if from < 0 || from >= fields.len() {
        Ok((Seq::empty(), pos))
    } else {
        match field_model(input, active, fields[from].ty, pos, version) {
            Ok((v, next)) => match fields_model(input, active, fields, from + 1, next, version) {
                Ok((rest, end)) => Ok((seq![FieldView { name: fields[from].name@, value: v }] + rest, end)),
                Err(e) => Err(e),
            },
            Err(e) => Err(e.within(fields[from].name@)),
        }
    }
}

/// The child object that index `index` of the table refers to. Fails with
/// `UnknownChild` where the table has no such entry, and with `ChildCycle`
/// where the reference stands inside that very object.
pub open spec fn child_model(input: Input, active: Set<int>, index: int) -> Result<
    ObjectView,
    RszErrorView,
>
    decreases free_slots(input.children.len(), active), 0int,
{
    if index < 0 || index >= input.children.len() {
        Err(RszErrorView::bare(ErrorKindView::UnknownChild { index: index as u32 }))
    } else if active.contains(index) {
        Err(RszErrorView::bare(ErrorKindView::ChildCycle { index: index as u32 }))
    } else {
        proof {
            lemma_free_slots_insert(input.children.len(), active, index);
        }
        object_model(
            input,
            active.insert(index),
            input.children[index].symbol@,
            input.children[index].hash,
            input.children[index].offset as int,
        )
    }
}

/// The object of type `symbol` whose bytes start at `offset` and whose
/// stored content hash is `hash`: the hash selects the schema version, and
/// the fields of the type's layout follow one another from `offset` on.
pub open spec fn object_model(
    input: Input,
    active: Set<int>,
    symbol: Seq<char>,
    hash: u32,
    offset: int,
) -> Result<ObjectView, RszErrorView>
    decreases free_slots(input.children.len(), active), 2int,
{
    match plan_for(input.catalog, symbol, hash) {
        Ok((descriptor, version)) => if offset > input.bytes.len() {
            Err(RszErrorView::bare(ErrorKindView::UnexpectedEof))
        } else {
            match fields_model(
                input,
                active,
                input.catalog[descriptor].fields@,
                0,
                offset,
                version,
            ) {
                Ok((fields, _)) => Ok(ObjectView { symbol, version, fields }),
                Err(e) => Err(e),
            }
        },
        Err(kind) => Err(RszErrorView::bare(kind)),
    }
}

/// A sequence whose count is 0 decodes to the empty sequence and ends
/// right behind the count: four bytes behind the next multiple of 4.
pub proof fn lemma_empty_sequence(input: Input, active: Set<int>, elem: FieldType, pos: int, version: u32)
    requires
        read_uint(input.bytes, pos, 4) is Ok,
        read_uint(input.bytes, pos, 4)->Ok_0.0 == 0,
    ensures
        field_model(input, active, FieldType::Sequence(Box::new(elem)), pos, version) == Ok::<
            (ValueView, int),
            RszErrorView,
        >((ValueView::Sequence(Seq::empty()), crate::cursor::align_up(pos, 4) + 4)),
{
    let first = read_uint(input.bytes, pos, 4)->Ok_0.1;
    assert(elements_model(input, active, elem, first, version, 0) == Ok::<
        (Seq<ValueView>, int),
        RszErrorView,
    >((Seq::empty(), first)));
}

/// An object whose stored content hash is none of those its type declares
/// fails with `UnknownSchemaVersion`, whatever its bytes are.
pub proof fn lemma_unmatched_hash(input: Input, active: Set<int>, symbol: Seq<char>, hash: u32, offset: int)
    requires
        forall|i: int, j: int|
            0 <= i < input.catalog.len() && input.catalog[i].symbol@ == symbol && 0 <= j
                < input.catalog[i].versions@.len() ==> (#[trigger] input.catalog[i].versions@[j]).hash
                != hash,
    ensures
        object_model(input, active, symbol, hash, offset) == Err::<ObjectView, RszErrorView>(
            RszErrorView::bare(ErrorKindView::UnknownSchemaVersion { symbol, hash }),
        ),
{
    crate::schema::lemma_first_symbol(input.catalog, symbol, 0);
    if let Some(i) = crate::schema::first_symbol(input.catalog, symbol, 0) {
        crate::schema::lemma_first_version(input.catalog[i].versions@, hash, 0);
    }
}

} // verus!
