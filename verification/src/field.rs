//! Decoders for the fields that need nothing but the cursor: booleans,
//! strings, identifiers, float vectors and the headers of sequences.
//!
//! Each decoder leaves the cursor where it was when it fails.

use vstd::prelude::*;
use crate::cursor::{read_int, read_start, read_uint, ByteCursor};
use crate::error::{ErrorKind, ErrorKindView, RszError, RszErrorView};
use crate::schema::FieldType;
use crate::symbolic::{FlagKind, IntKind};
use crate::text::{decode_utf16, utf16_text};
use crate::value::{DecodedValue, Guid, ValueView};

verus! {

/// A boolean field: one byte, 0 or 1.
pub open spec fn bool_model(bytes: Seq<u8>, pos: int) -> Result<(bool, int), ErrorKindView> {
    match read_uint(bytes, pos, 1) {
        Ok((v, next)) => if v == 0 {
            Ok((false, next))
        } else if v == 1 {
            Ok((true, next))
        } else {
            Err(ErrorKindView::InvalidBoolValue)
        },
        Err(kind) => Err(kind),
    }
}

/// `count` 16-bit code units in a row.
pub open spec fn units_model(bytes: Seq<u8>, pos: int, count: nat) -> Result<
    (Seq<u16>, int),
    ErrorKindView,
>
    decreases count,
{
    if count == 0 {
        Ok((Seq::empty(), pos))
    } else {
        match read_uint(bytes, pos, 2) {
            Ok((v, next)) => match units_model(bytes, next, (count - 1) as nat) {
                Ok((rest, end)) => Ok((seq![v as u16] + rest, end)),
                Err(kind) => Err(kind),
            },
            Err(kind) => Err(kind),
        }
    }
}

/// An optional string field: a 32-bit count of code units, then the units,
/// the last of which is the terminator 0. A count of 0 is the absent string.
pub open spec fn optional_string_model(bytes: Seq<u8>, pos: int) -> Result<
    (Option<Seq<char>>, int),
    ErrorKindView,
> {
    match read_uint(bytes, pos, 4) {
        Ok((count, next)) => if count == 0 {
            Ok((None, next))
        } else {
            match units_model(bytes, next, count) {
                Ok((units, end)) => if units.last() != 0 {
                    Err(ErrorKindView::MalformedString)
                } else {
                    match utf16_text(units.drop_last()) {
                        Some(text) => Ok((Some(text), end)),
                        None => Err(ErrorKindView::MalformedString),
                    }
                },
                Err(kind) => Err(kind),
            }
        },
        Err(kind) => Err(kind),
    }
}

/// A required string field: an optional string that may not be absent.
pub open spec fn string_model(bytes: Seq<u8>, pos: int) -> Result<(Seq<char>, int), ErrorKindView> {
    match optional_string_model(bytes, pos) {
        Ok((Some(text), end)) => Ok((text, end)),
        Ok((None, _)) => Err(ErrorKindView::NullValue),
        Err(kind) => Err(kind),
    }
}

/// The header of a sequence that is declared always empty: a 32-bit count,
/// which must be 0.
pub open spec fn placeholder_model(bytes: Seq<u8>, pos: int) -> Result<int, ErrorKindView> {
    match read_uint(bytes, pos, 4) {
        Ok((count, next)) => if count == 0 {
            Ok(next)
        } else {
            Err(ErrorKindView::ArraySizeMismatch { expected: 0, actual: count as usize })
        },
        Err(kind) => Err(kind),
    }
}

/// `count` raw bytes at the next multiple of `alignment`.
pub open spec fn aligned_bytes_model(bytes: Seq<u8>, pos: int, alignment: int, count: int) -> Result<
    (Seq<u8>, int),
    ErrorKindView,
> {
    match read_start(bytes.len() as int, pos, alignment, count) {
        Ok(start) => Ok((bytes.subrange(start, start + count), start + count)),
        Err(kind) => Err(kind),
    }
}

/// `count` 32-bit lanes in a row.
pub open spec fn lanes_model(bytes: Seq<u8>, pos: int, count: nat) -> Result<
    (Seq<u32>, int),
    ErrorKindView,
>
    decreases count,
{
    if count == 0 {
        Ok((Seq::empty(), pos))
    } else {
        match read_uint(bytes, pos, 4) {
            Ok((v, next)) => match lanes_model(bytes, next, (count - 1) as nat) {
                Ok((rest, end)) => Ok((seq![v as u32] + rest, end)),
                Err(kind) => Err(kind),
            },
            Err(kind) => Err(kind),
        }
    }
}

/// A vector, quaternion or matrix field: `lanes` float bit patterns that
/// start at a multiple of 16 and, where `padded`, end at one.
pub open spec fn floats_model(bytes: Seq<u8>, pos: int, lanes: nat, padded: bool) -> Result<
    (Seq<u32>, int),
    ErrorKindView,
> {
    match read_start(bytes.len() as int, pos, 16, 0) {
        Ok(start) => match lanes_model(bytes, start, lanes) {
            Ok((values, end)) => if padded {
                match read_start(bytes.len() as int, end, 16, 0) {
                    Ok(after) => Ok((values, after)),
                    Err(kind) => Err(kind),
                }
            } else {
                Ok((values, end))
            },
            Err(kind) => Err(kind),
        },
        Err(kind) => Err(kind),
    }
}

/// The raw integer of an enum or offset field stored as `kind`.
pub open spec fn raw_model(bytes: Seq<u8>, pos: int, kind: IntKind) -> Result<(i64, int), ErrorKindView> {
    match kind {
        IntKind::I8 => match read_int(bytes, pos, 1) {
            Ok((v, next)) => Ok((v as i64, next)),
            Err(e) => Err(e),
        },
        IntKind::U8 => match read_uint(bytes, pos, 1) {
            Ok((v, next)) => Ok((v as i64, next)),
            Err(e) => Err(e),
        },
        IntKind::I16 => match read_int(bytes, pos, 2) {
            Ok((v, next)) => Ok((v as i64, next)),
            Err(e) => Err(e),
        },
        IntKind::U16 => match read_uint(bytes, pos, 2) {
            Ok((v, next)) => Ok((v as i64, next)),
            Err(e) => Err(e),
        },
        IntKind::I32 => match read_int(bytes, pos, 4) {
            Ok((v, next)) => Ok((v as i64, next)),
            Err(e) => Err(e),
        },
        IntKind::U32 => match read_uint(bytes, pos, 4) {
            Ok((v, next)) => Ok((v as i64, next)),
            Err(e) => Err(e),
        },
        IntKind::I64 => match read_int(bytes, pos, 8) {
            Ok((v, next)) => Ok((v as i64, next)),
            Err(e) => Err(e),
        },
    }
}

/// The raw bits of a flag field stored as `kind`.
pub open spec fn bits_model(bytes: Seq<u8>, pos: int, kind: FlagKind) -> Result<(u64, int), ErrorKindView> {
    match match kind {
        FlagKind::U8 => read_uint(bytes, pos, 1),
        FlagKind::U16 => read_uint(bytes, pos, 2),
        FlagKind::U32 => read_uint(bytes, pos, 4),
        FlagKind::U64 => read_uint(bytes, pos, 8),
    } {
        Ok((v, next)) => Ok((v as u64, next)),
        Err(e) => Err(e),
    }
}

impl FieldType {
    /// Whether a field of this layout holds no other field and no object, so
    /// that the cursor alone decodes it.
    pub open spec fn is_leaf(&self) -> bool {
        match *self {
            FieldType::Sequence(_) => false,
            FieldType::FixedArray(_, _) => false,
            FieldType::Versioned(_) => false,
            FieldType::Flatten(_) => false,
            FieldType::Child => false,
            FieldType::Shared => false,
            _ => true,
        }
    }
}

/// The value of a leaf field at `pos` and the offset behind it.
pub open spec fn leaf_model(bytes: Seq<u8>, ty: FieldType, pos: int) -> Result<
    (ValueView, int),
    ErrorKindView,
>
    recommends
        ty.is_leaf(),
{
    match ty {
        FieldType::Bool => match bool_model(bytes, pos) {
            Ok((v, next)) => Ok((ValueView::Bool(v), next)),
            Err(e) => Err(e),
        },
        FieldType::U8 => match read_uint(bytes, pos, 1) {
            Ok((v, next)) => Ok((ValueView::U8(v as u8), next)),
            Err(e) => Err(e),
        },
        FieldType::I8 => match read_int(bytes, pos, 1) {
            Ok((v, next)) => Ok((ValueView::I8(v as i8), next)),
            Err(e) => Err(e),
        },
        FieldType::U16 => match read_uint(bytes, pos, 2) {
            Ok((v, next)) => Ok((ValueView::U16(v as u16), next)),
            Err(e) => Err(e),
        },
        FieldType::I16 => match read_int(bytes, pos, 2) {
            Ok((v, next)) => Ok((ValueView::I16(v as i16), next)),
            Err(e) => Err(e),
        },
        FieldType::U32 => match read_uint(bytes, pos, 4) {
            Ok((v, next)) => Ok((ValueView::U32(v as u32), next)),
            Err(e) => Err(e),
        },
        FieldType::I32 => match read_int(bytes, pos, 4) {
            Ok((v, next)) => Ok((ValueView::I32(v as i32), next)),
            Err(e) => Err(e),
        },
        FieldType::U64 => match read_uint(bytes, pos, 8) {
            Ok((v, next)) => Ok((ValueView::U64(v as u64), next)),
            Err(e) => Err(e),
        },
        FieldType::I64 => match read_int(bytes, pos, 8) {
            Ok((v, next)) => Ok((ValueView::I64(v as i64), next)),
            Err(e) => Err(e),
        },
        FieldType::F32 => match read_uint(bytes, pos, 4) {
            Ok((v, next)) => Ok((ValueView::F32(v as u32), next)),
            Err(e) => Err(e),
        },
        FieldType::Guid => match aligned_bytes_model(bytes, pos, 8, 16) {
            Ok((v, next)) => Ok((ValueView::Guid(v), next)),
            Err(e) => Err(e),
        },
        FieldType::Vec2 | FieldType::Vec3 | FieldType::Vec4 | FieldType::Quat | FieldType::Mat4 => {
            let (lanes, padded) = ty.float_shape().unwrap();
            match floats_model(bytes, pos, lanes, padded) {
                Ok((v, next)) => Ok((ValueView::Floats(v), next)),
                Err(e) => Err(e),
            }
        },
        FieldType::Aligner(a) => match read_start(bytes.len() as int, pos, a.align as int, 0) {
            Ok(next) => Ok((ValueView::Aligner, next)),
            Err(e) => Err(e),
        },
        FieldType::Placeholder => match placeholder_model(bytes, pos) {
            Ok(next) => Ok((ValueView::Sequence(Seq::empty()), next)),
            Err(e) => Err(e),
        },
        FieldType::OptionalString => match optional_string_model(bytes, pos) {
            Ok((v, next)) => Ok((ValueView::Text(v), next)),
            Err(e) => Err(e),
        },
        FieldType::Text => match string_model(bytes, pos) {
            Ok((v, next)) => Ok((ValueView::Text(Some(v)), next)),
            Err(e) => Err(e),
        },
        FieldType::Enum(schema) => match raw_model(bytes, pos, schema.base) {
            Ok((raw, next)) => match schema.decode(raw) {
                Ok(v) => Ok((ValueView::Enum(v), next)),
                Err(e) => Err(e),
            },
            Err(e) => Err(e),
        },
        FieldType::Flags(schema) => match bits_model(bytes, pos, schema.base) {
            Ok((raw, next)) => match schema.decode(raw) {
                Ok(v) => Ok((ValueView::Flags(v), next)),
                Err(e) => Err(e),
            },
            Err(e) => Err(e),
        },
        FieldType::Offset(schema) => match raw_model(bytes, pos, schema.base) {
            Ok((raw, next)) => Ok((ValueView::Offset(schema.decode(raw)), next)),
            Err(e) => Err(e),
        },
        _ => Ok((ValueView::Aligner, pos)),
    }
}

/// Puts the cursor back at `start` and hands the failure on.
fn give_up<T>(cursor: &mut ByteCursor, start: usize, e: RszError) -> (r: Result<T, RszError>)
    requires
        start <= old(cursor).bytes().len(),
    ensures
        final(cursor).bytes() == old(cursor).bytes(),
        final(cursor).offset() == start,
        r == Err::<T, RszError>(e),
{
    let _ = cursor.seek(start);
    Err(e)
}

/// Decodes a boolean; a byte other than 0 and 1 fails with
/// `InvalidBoolValue`.
pub fn decode_bool(cursor: &mut ByteCursor) -> (r: Result<bool, RszError>)
    ensures
        final(cursor).bytes() == old(cursor).bytes(),
        match r {
            Ok(v) => bool_model(old(cursor).bytes(), old(cursor).offset()) == Ok::<
                (bool, int),
                ErrorKindView,
            >((v, final(cursor).offset())),
            Err(e) => final(cursor).offset() == old(cursor).offset() && e@ == RszErrorView::bare(
                e@.kind,
            ) && bool_model(old(cursor).bytes(), old(cursor).offset()) == Err::<
                (bool, int),
                ErrorKindView,
            >(e@.kind),
        },
{
    let start = cursor.position();
    let v = cursor.read_u8()?;
    if v == 0 {
        Ok(false)
    } else if v == 1 {
        Ok(true)
    } else {
        give_up(cursor, start, RszError::new(ErrorKind::InvalidBoolValue))
    }
}

/// Decodes an optional string: absent where the count is 0; otherwise the
/// text before the terminator. A last unit other than 0, or an unpaired
/// surrogate, fails with `MalformedString`.
pub fn decode_optional_string(cursor: &mut ByteCursor) -> (r: Result<Option<String>, RszError>)
    ensures
        final(cursor).bytes() == old(cursor).bytes(),
        match r {
            Ok(Some(s)) => optional_string_model(old(cursor).bytes(), old(cursor).offset()) == Ok::<
                (Option<Seq<char>>, int),
                ErrorKindView,
            >((Some(s@), final(cursor).offset())),
            Ok(None) => optional_string_model(old(cursor).bytes(), old(cursor).offset()) == Ok::<
                (Option<Seq<char>>, int),
                ErrorKindView,
            >((None, final(cursor).offset())),
            Err(e) => final(cursor).offset() == old(cursor).offset() && e@ == RszErrorView::bare(
                e@.kind,
            ) && optional_string_model(old(cursor).bytes(), old(cursor).offset()) == Err::<
                (Option<Seq<char>>, int),
                ErrorKindView,
            >(e@.kind),
        },
{
    let start = cursor.position();
    let count = cursor.read_u32()?;
    if count == 0 {
        return Ok(None);
    }
    let ghost bytes = cursor.bytes();
    let ghost first = cursor.offset();
    let mut units: Vec<u16> = Vec::new();
    let mut i: u32 = 0;
    proof {
        if let Ok((rest, end)) = units_model(bytes, first, count as nat) {
            assert(units@ + rest =~= rest);
        }
    }
    while i < count
        invariant
            i <= count,
            count != 0,
            cursor.bytes() == bytes,
            bytes == old(cursor).bytes(),
            start == old(cursor).offset(),
            start <= bytes.len(),
            read_uint(bytes, start as int, 4) == Ok::<(nat, int), ErrorKindView>(
                (count as nat, first),
            ),
            units@.len() == i,
            units_model(bytes, first, count as nat) == match units_model(
                bytes,
                cursor.offset(),
                (count - i) as nat,
            ) {
                Ok((rest, end)) => Ok((units@ + rest, end)),
                Err(kind) => Err(kind),
            },
        decreases count - i,
    {
        let ghost before = units@;
        let ghost here = cursor.offset();
        match cursor.read_u16() {
            Ok(unit) => {
                units.push(unit);
                proof {
                    if let Ok((rest, end)) = units_model(
                        bytes,
                        cursor.offset(),
                        (count - i - 1) as nat,
                    ) {
                        assert(units@ + rest =~= before + (seq![unit] + rest));
                    }
                }
            },
            Err(e) => {
                return give_up(cursor, start, e);
            },
        }
        i += 1;
    }
    assert(units@ + Seq::<u16>::empty() =~= units@);
    let last = units.pop();
    if last != Some(0) {
        return give_up(cursor, start, RszError::new(ErrorKind::MalformedString));
    }
    match decode_utf16(&units) {
        Some(text) => Ok(Some(text)),
        None => give_up(cursor, start, RszError::new(ErrorKind::MalformedString)),
    }
}

/// Decodes a required string; an absent one fails with `NullValue`.
pub fn decode_string(cursor: &mut ByteCursor) -> (r: Result<String, RszError>)
    ensures
        final(cursor).bytes() == old(cursor).bytes(),
        match r {
            Ok(s) => string_model(old(cursor).bytes(), old(cursor).offset()) == Ok::<
                (Seq<char>, int),
                ErrorKindView,
            >((s@, final(cursor).offset())),
            Err(e) => final(cursor).offset() == old(cursor).offset() && e@ == RszErrorView::bare(
                e@.kind,
            ) && string_model(old(cursor).bytes(), old(cursor).offset()) == Err::<
                (Seq<char>, int),
                ErrorKindView,
            >(e@.kind),
        },
{
    let start = cursor.position();
    match decode_optional_string(cursor)? {
        Some(text) => Ok(text),
        None => give_up(cursor, start, RszError::new(ErrorKind::NullValue)),
    }
}

/// Decodes the header of a sequence that is declared always empty; a count
/// other than 0 fails with `ArraySizeMismatch`.
pub fn decode_placeholder(cursor: &mut ByteCursor) -> (r: Result<(), RszError>)
    ensures
        final(cursor).bytes() == old(cursor).bytes(),
        match r {
            Ok(_) => placeholder_model(old(cursor).bytes(), old(cursor).offset()) == Ok::<
                int,
                ErrorKindView,
            >(final(cursor).offset()),
            Err(e) => final(cursor).offset() == old(cursor).offset() && e@ == RszErrorView::bare(
                e@.kind,
            ) && placeholder_model(old(cursor).bytes(), old(cursor).offset()) == Err::<
                int,
                ErrorKindView,
            >(e@.kind),
        },
{
    let start = cursor.position();
    let count = cursor.read_u32()?;
    if count != 0 {
        return give_up(
            cursor,
            start,
            RszError::new(ErrorKind::ArraySizeMismatch { expected: 0, actual: count as usize }),
        );
    }
    Ok(())
}

/// Decodes `count` raw bytes that start at the next multiple of `alignment`.
pub fn decode_aligned_bytes(cursor: &mut ByteCursor, alignment: u64, count: usize) -> (r: Result<
    Vec<u8>,
    RszError,
>)
    ensures
        final(cursor).bytes() == old(cursor).bytes(),
        match r {
            Ok(v) => aligned_bytes_model(
                old(cursor).bytes(),
                old(cursor).offset(),
                alignment as int,
                count as int,
            ) == Ok::<(Seq<u8>, int), ErrorKindView>((v@, final(cursor).offset())),
            Err(e) => final(cursor).offset() == old(cursor).offset() && e@ == RszErrorView::bare(
                e@.kind,
            ) && aligned_bytes_model(
                old(cursor).bytes(),
                old(cursor).offset(),
                alignment as int,
                count as int,
            ) == Err::<(Seq<u8>, int), ErrorKindView>(e@.kind),
        },
{
    let start = cursor.position();
    cursor.seek_align_up(alignment)?;
    match cursor.read_exact(count) {
        Ok(v) => Ok(v),
        Err(e) => give_up(cursor, start, e),
    }
}

/// Decodes `lanes` float bit patterns that start at a multiple of 16 and,
/// where `padded`, are followed by padding up to the next one.
pub fn decode_floats(cursor: &mut ByteCursor, lanes: usize, padded: bool) -> (r: Result<
    Vec<u32>,
    RszError,
>)
    ensures
        final(cursor).bytes() == old(cursor).bytes(),
        match r {
            Ok(v) => floats_model(old(cursor).bytes(), old(cursor).offset(), lanes as nat, padded)
                == Ok::<(Seq<u32>, int), ErrorKindView>((v@, final(cursor).offset())),
            Err(e) => final(cursor).offset() == old(cursor).offset() && e@ == RszErrorView::bare(
                e@.kind,
            ) && floats_model(old(cursor).bytes(), old(cursor).offset(), lanes as nat, padded)
                == Err::<(Seq<u32>, int), ErrorKindView>(e@.kind),
        },
{
    let start = cursor.position();
    cursor.seek_align_up(16)?;
    let ghost bytes = cursor.bytes();
    let ghost first = cursor.offset();
    let mut values: Vec<u32> = Vec::new();
    let mut i: usize = 0;
    proof {
        if let Ok((rest, end)) = lanes_model(bytes, first, lanes as nat) {
            assert(values@ + rest =~= rest);
        }
    }
    while i < lanes
        invariant
            i <= lanes,
            cursor.bytes() == bytes,
            bytes == old(cursor).bytes(),
            start == old(cursor).offset(),
            start <= bytes.len(),
            read_start(bytes.len() as int, start as int, 16, 0) == Ok::<int, ErrorKindView>(first),
            lanes_model(bytes, first, lanes as nat) == match lanes_model(
                bytes,
                cursor.offset(),
                (lanes - i) as nat,
            ) {
                Ok((rest, end)) => Ok((values@ + rest, end)),
                Err(kind) => Err(kind),
            },
        decreases lanes - i,
    {
        let ghost before = values@;
        match cursor.read_f32() {
            Ok(bits) => {
                values.push(bits);
                proof {
                    if let Ok((rest, end)) = lanes_model(
                        bytes,
                        cursor.offset(),
                        (lanes - i - 1) as nat,
                    ) {
                        assert(values@ + rest =~= before + (seq![bits] + rest));
                    }
                }
            },
            Err(e) => {
                return give_up(cursor, start, e);
            },
        }
        i += 1;
    }
    assert(values@ + Seq::<u32>::empty() =~= values@);
    if padded {
        match cursor.seek_align_up(16) {
            Ok(_) => {},
            Err(e) => {
                return give_up(cursor, start, e);
            },
        }
    }
    Ok(values)
}

/// Reads the raw integer of an enum or offset field stored as `kind`.
pub fn read_raw(cursor: &mut ByteCursor, kind: IntKind) -> (r: Result<i64, RszError>)
    ensures
        final(cursor).bytes() == old(cursor).bytes(),
        match r {
            Ok(v) => raw_model(old(cursor).bytes(), old(cursor).offset(), kind) == Ok::<
                (i64, int),
                ErrorKindView,
            >((v, final(cursor).offset())) && kind.holds(v as int),
            Err(e) => final(cursor).offset() == old(cursor).offset() && e@ == RszErrorView::bare(
                e@.kind,
            ) && raw_model(old(cursor).bytes(), old(cursor).offset(), kind) == Err::<
                (i64, int),
                ErrorKindView,
            >(e@.kind),
        },
{
    match kind {
        IntKind::I8 => {
            let v = cursor.read_i8()?;
            Ok(v as i64)
        },
        IntKind::U8 => {
            let v = cursor.read_u8()?;
            Ok(v as i64)
        },
        IntKind::I16 => {
            let v = cursor.read_i16()?;
            Ok(v as i64)
        },
        IntKind::U16 => {
            let v = cursor.read_u16()?;
            Ok(v as i64)
        },
        IntKind::I32 => {
            let v = cursor.read_i32()?;
            Ok(v as i64)
        },
        IntKind::U32 => {
            let v = cursor.read_u32()?;
            Ok(v as i64)
        },
        IntKind::I64 => {
            let v = cursor.read_i64()?;
            Ok(v)
        },
    }
}

/// Reads the raw bits of a flag field stored as `kind`.
pub fn read_bits(cursor: &mut ByteCursor, kind: FlagKind) -> (r: Result<u64, RszError>)
    ensures
        final(cursor).bytes() == old(cursor).bytes(),
        match r {
            Ok(v) => bits_model(old(cursor).bytes(), old(cursor).offset(), kind) == Ok::<
                (u64, int),
                ErrorKindView,
            >((v, final(cursor).offset())),
            Err(e) => final(cursor).offset() == old(cursor).offset() && e@ == RszErrorView::bare(
                e@.kind,
            ) && bits_model(old(cursor).bytes(), old(cursor).offset(), kind) == Err::<
                (u64, int),
                ErrorKindView,
            >(e@.kind),
        },
{
    match kind {
        FlagKind::U8 => {
            let v = cursor.read_u8()?;
            Ok(v as u64)
        },
        FlagKind::U16 => {
            let v = cursor.read_u16()?;
            Ok(v as u64)
        },
        FlagKind::U32 => {
            let v = cursor.read_u32()?;
            Ok(v as u64)
        },
        FlagKind::U64 => {
            let v = cursor.read_u64()?;
            Ok(v)
        },
    }
}

/// Decodes an identifier: sixteen bytes at the next multiple of 8.
pub fn decode_guid(cursor: &mut ByteCursor) -> (r: Result<Guid, RszError>)
    ensures
        final(cursor).bytes() == old(cursor).bytes(),
        match r {
            Ok(g) => aligned_bytes_model(old(cursor).bytes(), old(cursor).offset(), 8, 16) == Ok::<
                (Seq<u8>, int),
                ErrorKindView,
            >((g.bytes@, final(cursor).offset())),
            Err(e) => final(cursor).offset() == old(cursor).offset() && e@ == RszErrorView::bare(
                e@.kind,
            ) && aligned_bytes_model(old(cursor).bytes(), old(cursor).offset(), 8, 16) == Err::<
                (Seq<u8>, int),
                ErrorKindView,
            >(e@.kind),
        },
{
    let b = decode_aligned_bytes(cursor, 8, 16)?;
    proof {
        old(cursor).lemma_offset_natural();
        let all = old(cursor).bytes();
        let located = read_start(all.len() as int, old(cursor).offset(), 8, 16);
        assert(aligned_bytes_model(all, old(cursor).offset(), 8, 16) is Ok);
        assert(located is Ok);
        let start = located->Ok_0;
        assert(0 <= old(cursor).offset() <= start && start + 16 <= all.len());
        assert(b@ == all.subrange(start, start + 16));
        assert(b@.len() == 16);
    }
    let bytes: [u8; 16] = [
        b[0],
        b[1],
        b[2],
        b[3],
        b[4],
        b[5],
        b[6],
        b[7],
        b[8],
        b[9],
        b[10],
        b[11],
        b[12],
        b[13],
        b[14],
        b[15],
    ];
    assert(bytes@ =~= b@);
    Ok(Guid { bytes })
}

/// Decodes a leaf field of layout `ty` at the cursor.
pub(crate) fn decode_leaf(cursor: &mut ByteCursor, ty: &FieldType) -> (r: Result<
    DecodedValue,
    RszError,
>)
    requires
        ty.is_leaf(),
    ensures
        final(cursor).bytes() == old(cursor).bytes(),
        match r {
            Ok(v) => leaf_model(old(cursor).bytes(), *ty, old(cursor).offset()) == Ok::<
                (ValueView, int),
                ErrorKindView,
            >((v@, final(cursor).offset())),
            Err(e) => final(cursor).offset() == old(cursor).offset() && e@ == RszErrorView::bare(
                e@.kind,
            ) && leaf_model(old(cursor).bytes(), *ty, old(cursor).offset()) == Err::<
                (ValueView, int),
                ErrorKindView,
            >(e@.kind),
        },
{
    let start = cursor.position();
    match ty {
        FieldType::Bool => Ok(DecodedValue::Bool(decode_bool(cursor)?)),
        FieldType::U8 => Ok(DecodedValue::U8(cursor.read_u8()?)),
        FieldType::I8 => Ok(DecodedValue::I8(cursor.read_i8()?)),
        FieldType::U16 => Ok(DecodedValue::U16(cursor.read_u16()?)),
        FieldType::I16 => Ok(DecodedValue::I16(cursor.read_i16()?)),
        FieldType::U32 => Ok(DecodedValue::U32(cursor.read_u32()?)),
        FieldType::I32 => Ok(DecodedValue::I32(cursor.read_i32()?)),
        FieldType::U64 => Ok(DecodedValue::U64(cursor.read_u64()?)),
        FieldType::I64 => Ok(DecodedValue::I64(cursor.read_i64()?)),
        FieldType::F32 => Ok(DecodedValue::F32(cursor.read_f32()?)),
        FieldType::Guid => Ok(DecodedValue::Guid(decode_guid(cursor)?)),
        FieldType::Vec2 => Ok(DecodedValue::Floats(decode_floats(cursor, 2, true)?)),
        FieldType::Vec3 => Ok(DecodedValue::Floats(decode_floats(cursor, 3, true)?)),
        FieldType::Vec4 => Ok(DecodedValue::Floats(decode_floats(cursor, 4, false)?)),
        FieldType::Quat => Ok(DecodedValue::Floats(decode_floats(cursor, 4, false)?)),
        FieldType::Mat4 => Ok(DecodedValue::Floats(decode_floats(cursor, 16, false)?)),
        FieldType::Aligner(a) => {
            cursor.seek_align_up(a.align)?;
            Ok(DecodedValue::Aligner)
        },
        FieldType::Placeholder => {
            decode_placeholder(cursor)?;
            let items: Vec<DecodedValue> = Vec::new();
            assert(crate::value::values_view(items@) =~= Seq::<ValueView>::empty());
            Ok(DecodedValue::Sequence(items))
        },
        FieldType::OptionalString => Ok(DecodedValue::Text(decode_optional_string(cursor)?)),
        FieldType::Text => Ok(DecodedValue::Text(Some(decode_string(cursor)?))),
        FieldType::Enum(schema) => {
            let raw = read_raw(cursor, schema.base)?;
            match schema.from_raw(raw) {
                Ok(v) => Ok(DecodedValue::Enum(v)),
                Err(e) => give_up(cursor, start, e),
            }
        },
        FieldType::Flags(schema) => {
            let raw = read_bits(cursor, schema.base)?;
            match schema.from_bits(raw) {
                Ok(v) => Ok(DecodedValue::Flags(v)),
                Err(e) => give_up(cursor, start, e),
            }
        },
        FieldType::Offset(schema) => {
            let raw = read_raw(cursor, schema.base)?;
            Ok(DecodedValue::Offset(schema.from_raw(raw)))
        },
        _ => Ok(DecodedValue::Aligner),
    }
}

/// A string field whose count is 0 is the absent string and ends right
/// behind the count.
pub proof fn lemma_zero_count_is_absent(bytes: Seq<u8>, pos: int)
    requires
        read_uint(bytes, pos, 4) is Ok,
        read_uint(bytes, pos, 4)->Ok_0.0 == 0,
    ensures
        optional_string_model(bytes, pos) == Ok::<(Option<Seq<char>>, int), ErrorKindView>(
            (None, read_uint(bytes, pos, 4)->Ok_0.1),
        ),
        string_model(bytes, pos) == Err::<(Seq<char>, int), ErrorKindView>(ErrorKindView::NullValue),
{
}

/// A string field whose units are all there and whose last unit is not 0
/// fails with `MalformedString`, whatever the units before it are.
pub proof fn lemma_unterminated_is_malformed(bytes: Seq<u8>, pos: int)
    requires
        read_uint(bytes, pos, 4) is Ok,
        read_uint(bytes, pos, 4)->Ok_0.0 != 0,
        units_model(bytes, read_uint(bytes, pos, 4)->Ok_0.1, read_uint(bytes, pos, 4)->Ok_0.0) is Ok,
        units_model(
            bytes,
            read_uint(bytes, pos, 4)->Ok_0.1,
            read_uint(bytes, pos, 4)->Ok_0.0,
        )->Ok_0.0.last() != 0,
    ensures
        optional_string_model(bytes, pos) == Err::<(Option<Seq<char>>, int), ErrorKindView>(
            ErrorKindView::MalformedString,
        ),
        string_model(bytes, pos) == Err::<(Seq<char>, int), ErrorKindView>(
            ErrorKindView::MalformedString,
        ),
{
}

} // verus!
