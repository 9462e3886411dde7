//! Symbolic integers: enums with unit and ranged variants, bit-flag sets and
//! offset identifiers, each with its exact inverse.

use vstd::prelude::*;
use crate::error::{ErrorKind, ErrorKindView, RszError, RszErrorView};
use crate::text::views;

verus! {

/// The integer type an enum or an offset identifier is stored as.
#[derive(Debug, Clone, Copy, PartialEq, Eq, Structural)]
pub enum IntKind {
    I8,
    U8,
    I16,
    U16,
    I32,
    U32,
    I64,
}

impl IntKind {
    /// The least value of the type.
    pub open spec fn min(self) -> int {
        match self {
            IntKind::I8 => -0x80,
            IntKind::I16 => -0x8000,
            IntKind::I32 => -0x8000_0000,
            IntKind::I64 => -0x8000_0000_0000_0000,
            _ => 0,
        }
    }

    /// The greatest value of the type.
    pub open spec fn max(self) -> int {
        match self {
            IntKind::I8 => 0x7f,
            IntKind::U8 => 0xff,
            IntKind::I16 => 0x7fff,
            IntKind::U16 => 0xffff,
            IntKind::I32 => 0x7fff_ffff,
            IntKind::U32 => 0xffff_ffff,
            IntKind::I64 => 0x7fff_ffff_ffff_ffff,
        }
    }

    /// Whether `raw` is a value of the type.
    pub open spec fn holds(self, raw: int) -> bool {
        self.min() <= raw <= self.max()
    }

    /// Whether `raw` is a value of the type.
    pub fn contains(self, raw: i64) -> (b: bool)
        ensures
            b == self.holds(raw as int),
    {
        match self {
            IntKind::I8 => -0x80 <= raw && raw <= 0x7f,
            IntKind::U8 => 0 <= raw && raw <= 0xff,
            IntKind::I16 => -0x8000 <= raw && raw <= 0x7fff,
            IntKind::U16 => 0 <= raw && raw <= 0xffff,
            IntKind::I32 => -0x8000_0000 <= raw && raw <= 0x7fff_ffff,
            IntKind::U32 => 0 <= raw && raw <= 0xffff_ffff,
            IntKind::I64 => true,
        }
    }
}

/// One declared variant of an enum.
#[derive(Debug, Clone, PartialEq, Eq)]
pub enum EnumVariant {
    /// A variant that stands for the single raw value `value`.
    Unit { name: String, value: i64 },
    /// A variant that stands for every raw value in `start ..= end` and
    /// carries the distance from `start`.
    Range { name: String, start: i64, end: i64 },
}

/// A decoded enum value: the index of the declared variant, and the payload
/// where the variant is ranged.
#[derive(Debug, Clone, Copy, PartialEq, Eq, Structural)]
pub struct EnumValue {
    pub variant: usize,
    pub payload: Option<u64>,
}

impl EnumVariant {
    /// Whether the variant stands for `raw`.
    pub open spec fn covers(&self, raw: i64) -> bool {
        match *self {
            EnumVariant::Unit { value, .. } => raw == value,
            EnumVariant::Range { start, end, .. } => start <= raw <= end,
        }
    }

    /// The payload the variant carries for a raw value it covers.
    pub open spec fn payload_of(&self, raw: i64) -> Option<u64> {
        match *self {
            EnumVariant::Unit { .. } => None,
            EnumVariant::Range { start, .. } => Some((raw - start) as u64),
        }
    }

    /// Whether `payload` is one the variant can carry.
    pub open spec fn admits(&self, payload: Option<u64>) -> bool {
        match *self {
            EnumVariant::Unit { .. } => payload is None,
            EnumVariant::Range { start, end, .. } => payload matches Some(p) && start + p <= end,
        }
    }

    /// The raw value of the variant with `payload`.
    pub open spec fn raw_of(&self, payload: Option<u64>) -> int {
        match *self {
            EnumVariant::Unit { value, .. } => value as int,
            EnumVariant::Range { start, .. } => start + payload.unwrap_or(0),
        }
    }

    /// The declared name of the variant.
    pub fn name(&self) -> (s: &String)
        ensures
            s@ == self.spec_name(),
    {
        match self {
            EnumVariant::Unit { name, .. } => name,
            EnumVariant::Range { name, .. } => name,
        }
    }

    /// The declared name of the variant.
    pub open spec fn spec_name(&self) -> Seq<char> {
        match *self {
            EnumVariant::Unit { name, .. } => name@,
            EnumVariant::Range { name, .. } => name@,
        }
    }
}

/// The index of the first of `variants` that covers `raw`, looking from
/// index `from` on.
pub open spec fn first_cover(variants: Seq<EnumVariant>, raw: i64, from: int) -> Option<int>
    decreases variants.len() - from,
{
    if from < 0 || from >= variants.len() {
        None
    } else if variants[from].covers(raw) {
        Some(from)
    } else {
        first_cover(variants, raw, from + 1)
    }
}

/// `first_cover` finds a covering variant that none before it (from `from`
/// on) covers, and finds none only where none covers.
pub proof fn lemma_first_cover(variants: Seq<EnumVariant>, raw: i64, from: int)
    requires
        0 <= from,
    ensures
        match first_cover(variants, raw, from) {
            Some(i) => from <= i < variants.len() && variants[i].covers(raw) && forall|j: int|
                from <= j < i ==> !(#[trigger] variants[j]).covers(raw),
            None => forall|j: int| from <= j < variants.len() ==> !(#[trigger] variants[j]).covers(raw),
        },
    decreases variants.len() - from,
{
    if from < variants.len() && !variants[from].covers(raw) {
        lemma_first_cover(variants, raw, from + 1);
    }
}

/// An enum as the schema declares it.
#[derive(Debug, Clone, PartialEq, Eq)]
pub struct EnumSchema {
    pub name: String,
    pub base: IntKind,
    pub variants: Vec<EnumVariant>,
}

impl EnumSchema {
    /// What `raw` decodes to: the first declared variant that covers it.
    pub open spec fn decode(&self, raw: i64) -> Result<EnumValue, ErrorKindView> {
        match first_cover(self.variants@, raw, 0) {
            Some(i) => Ok(EnumValue { variant: i as usize, payload: self.variants@[i].payload_of(raw) }),
            None => Err(ErrorKindView::UnknownEnumValue { raw, enum_name: self.name@ }),
        }
    }

    /// Whether `value` names a declared variant with a payload it can carry.
    pub open spec fn admits(&self, value: EnumValue) -> bool {
        value.variant < self.variants@.len() && self.variants@[value.variant as int].admits(
            value.payload,
        )
    }

    /// What an admitted `value` encodes to.
    pub open spec fn encode(&self, value: EnumValue) -> int {
        self.variants@[value.variant as int].raw_of(value.payload)
    }

    /// Decodes `raw` to the first declared variant that covers it; fails
    /// with `UnknownEnumValue` where none does.
    pub fn from_raw(&self, raw: i64) -> (r: Result<EnumValue, RszError>)
        ensures
            match r {
                Ok(v) => self.decode(raw) == Ok::<EnumValue, ErrorKindView>(v),
                Err(e) => e@ == RszErrorView::bare(e@.kind) && self.decode(raw) == Err::<
                    EnumValue,
                    ErrorKindView,
                >(e@.kind),
            },
    {
        let mut i: usize = 0;
        while i < self.variants.len()
            invariant
                i <= self.variants.len(),
                first_cover(self.variants@, raw, 0) == first_cover(self.variants@, raw, i as int),
            decreases self.variants.len() - i,
        {
            match &self.variants[i] {
                EnumVariant::Unit { value, .. } => {
                    if raw == *value {
                        return Ok(EnumValue { variant: i, payload: None });
                    }
                },
                EnumVariant::Range { start, end, .. } => {
                    if *start <= raw && raw <= *end {
                        let payload = (raw as i128 - *start as i128) as u64;
                        return Ok(EnumValue { variant: i, payload: Some(payload) });
                    }
                },
            }
            i += 1;
        }
        Err(RszError::new(ErrorKind::UnknownEnumValue { raw, enum_name: self.name.clone() }))
    }

    /// Encodes `value`: a unit variant to its literal, a ranged variant to
    /// its start plus the payload. `None` where the schema does not admit
    /// the value.
    pub fn into_raw(&self, value: EnumValue) -> (r: Option<i64>)
        ensures
            r is Some <==> self.admits(value),
            r matches Some(raw) ==> raw == self.encode(value),
    {
        if value.variant >= self.variants.len() {
            return None;
        }
        match &self.variants[value.variant] {
            EnumVariant::Unit { value: literal, .. } => {
                match value.payload {
                    None => Some(*literal),
                    Some(_) => None,
                }
            },
            EnumVariant::Range { start, end, .. } => {
                match value.payload {
                    None => None,
                    Some(p) => {
                        let raw: i128 = *start as i128 + p as i128;
                        if raw <= *end as i128 {
                            Some(raw as i64)
                        } else {
                            None
                        }
                    },
                }
            },
        }
    }
}

/// Every raw value that an enum decodes is admitted by the enum and encodes
/// back to the same raw value.
pub proof fn lemma_enum_round_trip(schema: EnumSchema, raw: i64)
    requires
        schema.decode(raw) is Ok,
    ensures
        schema.admits(schema.decode(raw)->Ok_0),
        schema.encode(schema.decode(raw)->Ok_0) == raw,
{
    lemma_first_cover(schema.variants@, raw, 0);
    let i = first_cover(schema.variants@, raw, 0)->Some_0;
    assert(schema.variants@.len() == schema.variants.len());
    assert(i as usize == i);
    let v = schema.decode(raw)->Ok_0;
    assert(v.variant == i);
    match schema.variants@[i] {
        EnumVariant::Unit { .. } => {},
        EnumVariant::Range { start, end, .. } => {
            assert(0 <= raw - start <= u64::MAX);
            assert(((raw - start) as u64) as int == raw - start);
        },
    }
}

/// Every value that an enum admits encodes to a raw value that the enum
/// decodes, and that decodes to a value with the same encoding.
pub proof fn lemma_enum_encode_decodes(schema: EnumSchema, value: EnumValue)
    requires
        schema.admits(value),
        i64::MIN <= schema.encode(value) <= i64::MAX,
    ensures
        schema.decode(schema.encode(value) as i64) is Ok,
        schema.encode(schema.decode(schema.encode(value) as i64)->Ok_0) == schema.encode(value),
{
    let raw = schema.encode(value) as i64;
    lemma_first_cover(schema.variants@, raw, 0);
    assert(schema.variants@[value.variant as int].covers(raw));
}

/// The unsigned integer type a bit-flag set is stored as.
#[derive(Debug, Clone, Copy, PartialEq, Eq, Structural)]
pub enum FlagKind {
    U8,
    U16,
    U32,
    U64,
}

/// One declared flag: a name for a pattern of bits.
#[derive(Debug, Clone, PartialEq, Eq)]
pub struct FlagDecl {
    pub name: String,
    pub bits: u64,
}

/// A decoded set of flags, as its bits.
#[derive(Debug, Clone, Copy, PartialEq, Eq, Structural)]
pub struct FlagSet {
    pub bits: u64,
}

/// The union of the bits of all of `flags`.
pub open spec fn declared_bits(flags: Seq<FlagDecl>) -> u64
    decreases flags.len(),
{
    if flags.len() == 0 {
        0
    } else {
        declared_bits(flags.drop_last()) | flags.last().bits
    }
}

/// Whether a set with the given bits contains the declared flag.
pub open spec fn has_flag(bits: u64, flag: FlagDecl) -> bool {
    bits & flag.bits == flag.bits
}

/// The names of those of `flags` that a set with the given bits contains,
/// in declaration order.
pub open spec fn contained_names(flags: Seq<FlagDecl>, bits: u64) -> Seq<Seq<char>>
    decreases flags.len(),
{
    if flags.len() == 0 {
        Seq::empty()
    } else if has_flag(bits, flags.last()) {
        contained_names(flags.drop_last(), bits).push(flags.last().name@)
    } else {
        contained_names(flags.drop_last(), bits)
    }
}

/// A bit-flag type as the schema declares it.
#[derive(Debug, Clone, PartialEq, Eq)]
pub struct FlagSchema {
    pub name: String,
    pub base: FlagKind,
    pub flags: Vec<FlagDecl>,
}

impl FlagSet {
    /// Whether no bit is set.
    pub fn is_empty(&self) -> (b: bool)
        ensures
            b == (self.bits == 0),
    {
        self.bits == 0
    }

    /// The raw integer of the set.
    pub fn into_bits(&self) -> (raw: u64)
        ensures
            raw == self.bits,
    {
        self.bits
    }
}

impl FlagSchema {
    /// What `raw` decodes to: the set with exactly those bits, unless a bit
    /// outside the declared flags is present.
    pub open spec fn decode(&self, raw: u64) -> Result<FlagSet, ErrorKindView> {
        if raw & !declared_bits(self.flags@) != 0 {
            Err(ErrorKindView::UnknownBitFlag { bits: raw })
        } else {
            Ok(FlagSet { bits: raw })
        }
    }

    /// The union of all declared flags.
    pub fn all_bits(&self) -> (mask: u64)
        ensures
            mask == declared_bits(self.flags@),
    {
        let mut mask: u64 = 0;
        let mut i: usize = 0;
        while i < self.flags.len()
            invariant
                i <= self.flags.len(),
                mask == declared_bits(self.flags@.take(i as int)),
            decreases self.flags.len() - i,
        {
            assert(self.flags@.take(i + 1).drop_last() =~= self.flags@.take(i as int));
            mask = mask | self.flags[i].bits;
            i += 1;
        }
        assert(self.flags@.take(i as int) =~= self.flags@);
        mask
    }

    /// Decodes `raw` to a flag set; fails with `UnknownBitFlag` where a bit
    /// outside the declared flags is present. Zero always decodes, to the
    /// empty set.
    pub fn from_bits(&self, raw: u64) -> (r: Result<FlagSet, RszError>)
        ensures
            match r {
                Ok(v) => self.decode(raw) == Ok::<FlagSet, ErrorKindView>(v),
                Err(e) => e@ == RszErrorView::bare(e@.kind) && self.decode(raw) == Err::<
                    FlagSet,
                    ErrorKindView,
                >(e@.kind),
            },
            raw == 0 ==> r is Ok,
    {
        let mask = self.all_bits();
        assert(0u64 & !mask == 0) by (bit_vector);
        if raw & !mask != 0 {
            Err(RszError::new(ErrorKind::UnknownBitFlag { bits: raw }))
        } else {
            Ok(FlagSet { bits: raw })
        }
    }

    /// The names of the declared flags that `set` contains, in declaration
    /// order.
    pub fn names(&self, set: FlagSet) -> (out: Vec<String>)
        ensures
            views(out@) == contained_names(self.flags@, set.bits),
    {
        let mut out: Vec<String> = Vec::new();
        let mut i: usize = 0;
        assert(views(out@) =~= contained_names(self.flags@.take(0), set.bits));
        while i < self.flags.len()
            invariant
                i <= self.flags.len(),
                views(out@) == contained_names(self.flags@.take(i as int), set.bits),
            decreases self.flags.len() - i,
        {
            let ghost before = views(out@);
            assert(self.flags@.take(i + 1).drop_last() =~= self.flags@.take(i as int));
            if set.bits & self.flags[i].bits == self.flags[i].bits {
                out.push(self.flags[i].name.clone());
                assert(views(out@) =~= before.push(self.flags@[i as int].name@));
            }
            i += 1;
        }
        assert(self.flags@.take(i as int) =~= self.flags@);
        out
    }
}

/// A flag set decoded from `raw` has exactly the bits of `raw`.
pub proof fn lemma_flags_round_trip(schema: FlagSchema, raw: u64)
    requires
        schema.decode(raw) is Ok,
    ensures
        schema.decode(raw)->Ok_0.bits == raw,
{
}

/// Zero decodes to the empty set whatever flags are declared, and the empty
/// set contains no flag that has a bit.
pub proof fn lemma_zero_is_empty(schema: FlagSchema)
    ensures
        schema.decode(0) == Ok::<FlagSet, ErrorKindView>(FlagSet { bits: 0 }),
        forall|flag: FlagDecl| flag.bits != 0 ==> !#[trigger] has_flag(0, flag),
{
    let mask = declared_bits(schema.flags@);
    assert(0u64 & !mask == 0) by (bit_vector);
    assert forall|flag: FlagDecl| flag.bits != 0 implies !#[trigger] has_flag(0, flag) by {
        let b = flag.bits;
        assert(0u64 & b == 0) by (bit_vector);
    }
}

/// An identifier stored as a raw integer and presented shifted by a fixed
/// offset.
#[derive(Debug, Clone, Copy, PartialEq, Eq, Structural)]
pub struct OffsetSchema {
    pub base: IntKind,
    pub offset: i64,
}

impl OffsetSchema {
    /// The presented value of `raw`.
    pub open spec fn decode(&self, raw: i64) -> int {
        raw + self.offset
    }

    /// The raw integer behind a presented value, where it is one of the base
    /// type.
    pub open spec fn encode(&self, value: int) -> Option<i64> {
        if self.base.holds(value - self.offset) {
            Some((value - self.offset) as i64)
        } else {
            None
        }
    }

    /// Shifts `raw` by the declared offset.
    pub fn from_raw(&self, raw: i64) -> (value: i128)
        ensures
            value == self.decode(raw),
    {
        raw as i128 + self.offset as i128
    }

    /// Shifts `value` back; `None` where the result is no value of the base
    /// type.
    pub fn into_raw(&self, value: i128) -> (r: Option<i64>)
        ensures
            r == self.encode(value as int),
    {
        let off = self.offset as i128;
        if value < i64::MIN as i128 + off || value > i64::MAX as i128 + off {
            return None;
        }
        let raw = (value - off) as i64;
        if self.base.contains(raw) {
            Some(raw)
        } else {
            None
        }
    }
}

/// Every raw value of the base type is recovered from its presented value.
pub proof fn lemma_offset_round_trip(schema: OffsetSchema, raw: i64)
    requires
        schema.base.holds(raw as int),
    ensures
        schema.encode(schema.decode(raw)) == Some(raw),
{
}

} // verus!
