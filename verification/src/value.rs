//! The decoded side: the value tree that a decode produces, and its
//! mathematical view.

use vstd::prelude::*;
use std::rc::Rc;
use crate::symbolic::{EnumValue, FlagSet};
use crate::text::{hex_byte, push_char, push_hex_byte};

verus! {

/// A 128-bit identifier, as its sixteen bytes in stored order.
#[derive(Debug, Clone, Copy, PartialEq, Eq, Hash)]
pub struct Guid {
    pub bytes: [u8; 16],
}

/// The text form of an identifier: five groups of hexadecimal digits
/// separated by hyphens, the first three groups with their bytes in reverse
/// order.
pub open spec fn guid_text(b: Seq<u8>) -> Seq<char> {
    hex_byte(b[3]) + hex_byte(b[2]) + hex_byte(b[1]) + hex_byte(b[0]) + seq!['-'] + hex_byte(b[5])
        + hex_byte(b[4]) + seq!['-'] + hex_byte(b[7]) + hex_byte(b[6]) + seq!['-'] + hex_byte(b[8])
        + hex_byte(b[9]) + seq!['-'] + hex_byte(b[10]) + hex_byte(b[11]) + hex_byte(b[12])
        + hex_byte(b[13]) + hex_byte(b[14]) + hex_byte(b[15])
}

impl Guid {
    /// The identifier as text, in the form
    /// `xxxxxxxx-xxxx-xxxx-xxxx-xxxxxxxxxxxx`.
    pub fn to_text(&self) -> (s: String)
        ensures
            s@ == guid_text(self.bytes@),
    {
        let b = &self.bytes;
        let mut out = String::new();
        push_hex_byte(&mut out, b[3]);
        push_hex_byte(&mut out, b[2]);
        push_hex_byte(&mut out, b[1]);
        push_hex_byte(&mut out, b[0]);
        push_char(&mut out, '-');
        push_hex_byte(&mut out, b[5]);
        push_hex_byte(&mut out, b[4]);
        push_char(&mut out, '-');
        push_hex_byte(&mut out, b[7]);
        push_hex_byte(&mut out, b[6]);
        push_char(&mut out, '-');
        push_hex_byte(&mut out, b[8]);
        push_hex_byte(&mut out, b[9]);
        push_char(&mut out, '-');
        push_hex_byte(&mut out, b[10]);
        push_hex_byte(&mut out, b[11]);
        push_hex_byte(&mut out, b[12]);
        push_hex_byte(&mut out, b[13]);
        push_hex_byte(&mut out, b[14]);
        push_hex_byte(&mut out, b[15]);
        assert(out@ =~= guid_text(self.bytes@));
        out
    }
}

impl From<Guid> for String {
    /// The identifier as text; see `Guid::to_text`.
    fn from(guid: Guid) -> (s: String)
        ensures
            s@ == guid_text(guid.bytes@),
    {
        guid.to_text()
    }
}

impl vstd::std_specs::convert::FromSpecImpl<Guid> for String {
    open spec fn obeys_from_spec() -> bool {
        false
    }

    open spec fn from_spec(guid: Guid) -> String {
        arbitrary()
    }
}

/// One decoded value.
#[derive(Debug, PartialEq, Eq)]
pub enum DecodedValue {
    Bool(bool),
    U8(u8),
    I8(i8),
    U16(u16),
    I16(i16),
    U32(u32),
    I32(i32),
    U64(u64),
    I64(i64),
    /// The bit pattern of a 32-bit float.
    F32(u32),
    Guid(Guid),
    /// The bit patterns of the lanes of a vector, quaternion or matrix.
    Floats(Vec<u32>),
    /// What an aligner leaves behind: nothing.
    Aligner,
    /// The elements of a sequence or fixed array, in stored order.
    Sequence(Vec<DecodedValue>),
    /// A string, or `None` for the absent one.
    Text(Option<String>),
    /// The value of a version-gated field, or `None` outside its versions.
    Versioned(Option<Box<DecodedValue>>),
    Enum(EnumValue),
    Flags(FlagSet),
    /// An offset identifier, as its presented value.
    Offset(i128),
    /// The fields of a nested structure that is laid out inline.
    Flatten(Vec<DecodedField>),
    /// A child object with a single owner.
    Child(Rc<DecodedObject>),
    /// A child object that every referencing parent shares.
    Shared(Rc<DecodedObject>),
}

/// One decoded field of a structure.
#[derive(Debug, PartialEq, Eq)]
pub struct DecodedField {
    pub name: String,
    pub value: DecodedValue,
}

/// One decoded object: its type, the schema version it was decoded by, and
/// its fields in declaration order.
#[derive(Debug, PartialEq, Eq)]
pub struct DecodedObject {
    pub symbol: String,
    pub version: u32,
    pub fields: Vec<DecodedField>,
}

/// `DecodedValue` as a mathematical value.
pub enum ValueView {
    Bool(bool),
    U8(u8),
    I8(i8),
    U16(u16),
    I16(i16),
    U32(u32),
    I32(i32),
    U64(u64),
    I64(i64),
    F32(u32),
    Guid(Seq<u8>),
    Floats(Seq<u32>),
    Aligner,
    Sequence(Seq<ValueView>),
    Text(Option<Seq<char>>),
    Versioned(Option<Box<ValueView>>),
    Enum(EnumValue),
    Flags(FlagSet),
    Offset(int),
    Flatten(Seq<FieldView>),
    Child(ObjectView),
    Shared(ObjectView),
}

/// `DecodedField` as a mathematical value.
pub struct FieldView {
    pub name: Seq<char>,
    pub value: ValueView,
}

/// `DecodedObject` as a mathematical value.
pub struct ObjectView {
    pub symbol: Seq<char>,
    pub version: u32,
    pub fields: Seq<FieldView>,
}

/// The view of a value.
pub open spec fn value_view(v: DecodedValue) -> ValueView
    decreases v,
{
    match v {
        DecodedValue::Bool(x) => ValueView::Bool(x),
        DecodedValue::U8(x) => ValueView::U8(x),
        DecodedValue::I8(x) => ValueView::I8(x),
        DecodedValue::U16(x) => ValueView::U16(x),
        DecodedValue::I16(x) => ValueView::I16(x),
        DecodedValue::U32(x) => ValueView::U32(x),
        DecodedValue::I32(x) => ValueView::I32(x),
        DecodedValue::U64(x) => ValueView::U64(x),
        DecodedValue::I64(x) => ValueView::I64(x),
        DecodedValue::F32(x) => ValueView::F32(x),
        DecodedValue::Guid(g) => ValueView::Guid(g.bytes@),
        DecodedValue::Floats(lanes) => ValueView::Floats(lanes@),
        DecodedValue::Aligner => ValueView::Aligner,
        DecodedValue::Sequence(items) => ValueView::Sequence(values_view(items@)),
        DecodedValue::Text(None) => ValueView::Text(None),
        DecodedValue::Text(Some(s)) => ValueView::Text(Some(s@)),
        DecodedValue::Versioned(None) => ValueView::Versioned(None),
        DecodedValue::Versioned(Some(inner)) => ValueView::Versioned(
            Some(Box::new(value_view(*inner))),
        ),
        DecodedValue::Enum(x) => ValueView::Enum(x),
        DecodedValue::Flags(x) => ValueView::Flags(x),
        DecodedValue::Offset(x) => ValueView::Offset(x as int),
        DecodedValue::Flatten(fields) => ValueView::Flatten(fields_view(fields@)),
        DecodedValue::Child(object) => ValueView::Child(object_view(*object)),
        DecodedValue::Shared(object) => ValueView::Shared(object_view(*object)),
    }
}

/// The views of a sequence of values.
pub open spec fn values_view(vs: Seq<DecodedValue>) -> Seq<ValueView>
    decreases vs,
{
    // Only indices inside `vs` are ever asked for; the other branch is
    // there for the termination check.
    Seq::new(vs.len(), |i: int| if 0 <= i < vs.len() { value_view(vs[i]) } else { ValueView::Aligner })
}

/// The view of a field.
pub open spec fn field_view(f: DecodedField) -> FieldView
    decreases f,
{
    FieldView { name: f.name@, value: value_view(f.value) }
}

/// The views of a sequence of fields.
pub open spec fn fields_view(fs: Seq<DecodedField>) -> Seq<FieldView>
    decreases fs,
{
    // Only indices inside `fs` are ever asked for; the other branch is
    // there for the termination check.
    Seq::new(
        fs.len(),
        |i: int|
            if 0 <= i < fs.len() {
                field_view(fs[i])
            } else {
                FieldView { name: Seq::empty(), value: ValueView::Aligner }
            },
    )
}

/// The view of an object.
pub open spec fn object_view(o: DecodedObject) -> ObjectView
    decreases o,
{
    ObjectView { symbol: o.symbol@, version: o.version, fields: fields_view(o.fields@) }
}

impl View for DecodedValue {
    type V = ValueView;

    open spec fn view(&self) -> ValueView {
        value_view(*self)
    }
}

impl View for DecodedField {
    type V = FieldView;

    open spec fn view(&self) -> FieldView {
        field_view(*self)
    }
}

impl View for DecodedObject {
    type V = ObjectView;

    open spec fn view(&self) -> ObjectView {
        object_view(*self)
    }
}

} // verus!
