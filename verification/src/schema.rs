//! The schema side: the layout of every kind of field, type descriptors, and
//! the dispatch from a content hash to a schema version.

use vstd::prelude::*;
use crate::error::{ErrorKind, ErrorKindView, RszError, RszErrorView};
use crate::symbolic::{EnumSchema, FlagSchema, OffsetSchema};

verus! {

/// A directive that holds no data and forces the next field onto a multiple
/// of `align`.
#[derive(Debug, Clone, Copy, PartialEq, Eq, Structural)]
pub struct Aligner {
    pub align: u64,
}

/// A field that is present only in the schema versions `min ..= max`.
#[derive(Debug, PartialEq, Eq)]
pub struct Versioned {
    pub inner: Box<FieldType>,
    pub min: u32,
    pub max: u32,
}

/// A nested structure that is laid out inline in its parent.
#[derive(Debug, PartialEq, Eq)]
pub struct Flatten {
    pub fields: Vec<FieldPlan>,
}

/// How one field is laid out.
#[derive(Debug, PartialEq, Eq)]
pub enum FieldType {
    Bool,
    U8,
    I8,
    U16,
    I16,
    U32,
    I32,
    U64,
    I64,
    /// A 32-bit float, kept as its bit pattern.
    F32,
    /// Sixteen raw bytes at a multiple of 8.
    Guid,
    /// Two floats at a multiple of 16, padded to the next one.
    Vec2,
    /// Three floats at a multiple of 16, padded to the next one.
    Vec3,
    /// Four floats at a multiple of 16.
    Vec4,
    /// Four floats at a multiple of 16.
    Quat,
    /// Sixteen floats at a multiple of 16.
    Mat4,
    Aligner(Aligner),
    /// A 32-bit count and that many elements.
    Sequence(Box<FieldType>),
    /// A sequence that is always empty.
    Placeholder,
    /// A sequence whose count must be the given length.
    FixedArray(Box<FieldType>, usize),
    /// A string that may be absent.
    OptionalString,
    /// A string that must be present.
    Text,
    Versioned(Versioned),
    Enum(EnumSchema),
    Flags(FlagSchema),
    Offset(OffsetSchema),
    Flatten(Flatten),
    /// A reference to a child object with a single owner.
    Child,
    /// A reference to a child object that several owners may share.
    Shared,
}

/// One named field of a structure.
#[derive(Debug, PartialEq, Eq)]
pub struct FieldPlan {
    pub name: String,
    pub ty: FieldType,
}

/// One pair of a type's version list: the content hash of a layout and the
/// version number it stands for.
#[derive(Debug, Clone, Copy, PartialEq, Eq, Structural)]
pub struct VersionEntry {
    pub hash: u32,
    pub version: u32,
}

/// A type of the catalog: its symbol, the versions it declares, and the
/// fields of its layout in order.
#[derive(Debug, PartialEq, Eq)]
pub struct TypeDescriptor {
    pub symbol: String,
    pub versions: Vec<VersionEntry>,
    pub fields: Vec<FieldPlan>,
}

impl Aligner {
    /// An aligner to multiples of `align`.
    pub fn new(align: u64) -> (a: Aligner)
        ensures
            a.align == align,
    {
        Aligner { align }
    }
}

impl Versioned {
    /// Whether the field is present in schema version `version`.
    pub open spec fn includes(&self, version: u32) -> bool {
        self.min <= version <= self.max
    }

    /// Whether the field is present in schema version `version`.
    pub fn is_present(&self, version: u32) -> (b: bool)
        ensures
            b == self.includes(version),
    {
        self.min <= version && version <= self.max
    }
}

impl FieldType {
    /// For the float vector kinds, the number of lanes and whether the field
    /// is padded to a multiple of 16 behind them.
    pub open spec fn float_shape(&self) -> Option<(nat, bool)> {
        match *self {
            FieldType::Vec2 => Some((2, true)),
            FieldType::Vec3 => Some((3, true)),
            FieldType::Vec4 => Some((4, false)),
            FieldType::Quat => Some((4, false)),
            FieldType::Mat4 => Some((16, false)),
            _ => None,
        }
    }
}

/// The version that the first of `versions` with the given hash stands for,
/// looking from index `from` on.
pub open spec fn first_version(versions: Seq<VersionEntry>, hash: u32, from: int) -> Option<u32>
    decreases versions.len() - from,
{
    if from < 0 || from >= versions.len() {
        None
    } else if versions[from].hash == hash {
        Some(versions[from].version)
    } else {
        first_version(versions, hash, from + 1)
    }
}

/// `first_version` finds an entry with the hash that none before it (from
/// `from` on) has, and finds none only where no entry has the hash.
pub proof fn lemma_first_version(versions: Seq<VersionEntry>, hash: u32, from: int)
    requires
        0 <= from,
    ensures
        match first_version(versions, hash, from) {
            Some(v) => exists|i: int|
                from <= i < versions.len() && (#[trigger] versions[i]).hash == hash && versions[i].version
                    == v && forall|j: int| from <= j < i ==> (#[trigger] versions[j]).hash != hash,
            None => forall|j: int| from <= j < versions.len() ==> (#[trigger] versions[j]).hash != hash,
        },
    decreases versions.len() - from,
{
    if from < versions.len() {
        if versions[from].hash == hash {
            assert(versions[from].hash == hash && forall|j: int|
                from <= j < from ==> (#[trigger] versions[j]).hash != hash);
        } else {
            lemma_first_version(versions, hash, from + 1);
            if let Some(v) = first_version(versions, hash, from + 1) {
                let i = choose|i: int|
                    from + 1 <= i < versions.len() && (#[trigger] versions[i]).hash == hash
                        && versions[i].version == v && forall|j: int|
                        from + 1 <= j < i ==> (#[trigger] versions[j]).hash != hash;
                assert(from <= i < versions.len() && versions[i].hash == hash && versions[i].version
                    == v && forall|j: int| from <= j < i ==> (#[trigger] versions[j]).hash != hash);
            }
        }
    }
}

/// The index of the first descriptor of `catalog` with the given symbol,
/// looking from index `from` on.
pub open spec fn first_symbol(catalog: Seq<TypeDescriptor>, symbol: Seq<char>, from: int) -> Option<
    int,
>
    decreases catalog.len() - from,
{
    if from < 0 || from >= catalog.len() {
        None
    } else if catalog[from].symbol@ == symbol {
        Some(from)
    } else {
        first_symbol(catalog, symbol, from + 1)
    }
}

/// `first_symbol` finds a descriptor of the catalog.
pub proof fn lemma_first_symbol(catalog: Seq<TypeDescriptor>, symbol: Seq<char>, from: int)
    requires
        0 <= from,
    ensures
        match first_symbol(catalog, symbol, from) {
            Some(i) => from <= i < catalog.len() && catalog[i].symbol@ == symbol && forall|j: int|
                from <= j < i ==> (#[trigger] catalog[j]).symbol@ != symbol,
            None => forall|j: int| from <= j < catalog.len() ==> (#[trigger] catalog[j]).symbol@ != symbol,
        },
    decreases catalog.len() - from,
{
    if from < catalog.len() && catalog[from].symbol@ != symbol {
        lemma_first_symbol(catalog, symbol, from + 1);
    }
}

/// The layout to decode an object of type `symbol` with content hash `hash`
/// by: the index of its descriptor in the catalog and the schema version
/// that the hash selects.
pub open spec fn plan_for(catalog: Seq<TypeDescriptor>, symbol: Seq<char>, hash: u32) -> Result<
    (int, u32),
    ErrorKindView,
> {
    match first_symbol(catalog, symbol, 0) {
        Some(i) => match first_version(catalog[i].versions@, hash, 0) {
            Some(version) => Ok((i, version)),
            None => Err(ErrorKindView::UnknownSchemaVersion { symbol, hash }),
        },
        None => Err(ErrorKindView::UnknownSchemaVersion { symbol, hash }),
    }
}

impl TypeDescriptor {
    /// The schema version that the content hash `hash` selects: that of the
    /// first declared pair with the hash. Fails with `UnknownSchemaVersion`
    /// where no declared pair has it.
    pub fn resolve_version(&self, hash: u32) -> (r: Result<u32, RszError>)
        ensures
            match r {
                Ok(version) => first_version(self.versions@, hash, 0) == Some(version),
                Err(e) => first_version(self.versions@, hash, 0) is None && e@ == RszErrorView::bare(
                    ErrorKindView::UnknownSchemaVersion { symbol: self.symbol@, hash },
                ),
            },
    {
        let mut i: usize = 0;
        while i < self.versions.len()
            invariant
                i <= self.versions.len(),
                first_version(self.versions@, hash, 0) == first_version(
                    self.versions@,
                    hash,
                    i as int,
                ),
            decreases self.versions.len() - i,
        {
            if self.versions[i].hash == hash {
                return Ok(self.versions[i].version);
            }
            i += 1;
        }
        Err(
            RszError::new(
                ErrorKind::UnknownSchemaVersion { symbol: self.symbol.clone(), hash },
            ),
        )
    }
}

/// Finds the first descriptor of the catalog with the given symbol.
pub fn find_descriptor(catalog: &Vec<TypeDescriptor>, symbol: &String) -> (r: Option<usize>)
    ensures
        match r {
            Some(i) => first_symbol(catalog@, symbol@, 0) == Some(i as int) && i < catalog@.len(),
            None => first_symbol(catalog@, symbol@, 0) is None,
        },
{
    let mut i: usize = 0;
    while i < catalog.len()
        invariant
            i <= catalog.len(),
            first_symbol(catalog@, symbol@, 0) == first_symbol(catalog@, symbol@, i as int),
        decreases catalog.len() - i,
    {
        if catalog[i].symbol == *symbol {
            return Some(i);
        }
        i += 1;
    }
    None
}

/// Selects the layout for an object of type `symbol` with content hash
/// `hash`: its descriptor's index in the catalog and the schema version.
/// Fails with `UnknownSchemaVersion` where the catalog has no such type or
/// the type declares no pair with the hash.
pub fn resolve_plan(catalog: &Vec<TypeDescriptor>, symbol: &String, hash: u32) -> (r: Result<
    (usize, u32),
    RszError,
>)
    ensures
        match r {
            Ok((i, version)) => plan_for(catalog@, symbol@, hash) == Ok::<(int, u32), ErrorKindView>(
                (i as int, version),
            ) && i < catalog@.len(),
            Err(e) => e@ == RszErrorView::bare(e@.kind) && plan_for(catalog@, symbol@, hash) == Err::<
                (int, u32),
                ErrorKindView,
            >(e@.kind),
        },
{
    proof {
        lemma_first_symbol(catalog@, symbol@, 0);
    }
    match find_descriptor(catalog, symbol) {
        Some(i) => match catalog[i].resolve_version(hash) {
            Ok(version) => Ok((i, version)),
            Err(e) => Err(e),
        },
        None => Err(
            RszError::new(ErrorKind::UnknownSchemaVersion { symbol: symbol.clone(), hash }),
        ),
    }
}

} // verus!
