//! Decode failures: what went wrong, and under which field.

use vstd::prelude::*;
use crate::text::views;

verus! {

/// The reason a decode failed.
#[derive(Debug, Clone, PartialEq, Eq)]
pub enum ErrorKind {
    /// Fewer bytes remain than the read (or its padding) needs.
    UnexpectedEof,
    /// No multiple of the requested alignment at or after the current
    /// offset is representable in 64 bits.
    AlignmentOverflow,
    /// A boolean byte other than 0 or 1.
    InvalidBoolValue,
    /// A string without its terminator, or with a broken surrogate sequence.
    MalformedString,
    /// A sequence whose count differs from the length its type fixes.
    ArraySizeMismatch { expected: usize, actual: usize },
    /// A raw integer that no declared variant of the enum covers.
    UnknownEnumValue { raw: i64, enum_name: String },
    /// A raw integer with a bit outside the declared flags.
    UnknownBitFlag { bits: u64 },
    /// A content hash that selects no declared version of the type.
    UnknownSchemaVersion { symbol: String, hash: u32 },
    /// An absent value where one is required.
    NullValue,
    /// A child reference that names no entry of the session's table.
    UnknownChild { index: u32 },
    /// A child reference to an object that is still being decoded.
    ChildCycle { index: u32 },
}

/// `ErrorKind` with its strings as character sequences.
pub enum ErrorKindView {
    UnexpectedEof,
    AlignmentOverflow,
    InvalidBoolValue,
    MalformedString,
    ArraySizeMismatch { expected: usize, actual: usize },
    UnknownEnumValue { raw: i64, enum_name: Seq<char> },
    UnknownBitFlag { bits: u64 },
    UnknownSchemaVersion { symbol: Seq<char>, hash: u32 },
    NullValue,
    UnknownChild { index: u32 },
    ChildCycle { index: u32 },
}

impl View for ErrorKind {
    type V = ErrorKindView;

    open spec fn view(&self) -> ErrorKindView {
        match *self {
            ErrorKind::UnexpectedEof => ErrorKindView::UnexpectedEof,
            ErrorKind::AlignmentOverflow => ErrorKindView::AlignmentOverflow,
            ErrorKind::InvalidBoolValue => ErrorKindView::InvalidBoolValue,
            ErrorKind::MalformedString => ErrorKindView::MalformedString,
            ErrorKind::ArraySizeMismatch { expected, actual } => ErrorKindView::ArraySizeMismatch {
                expected,
                actual,
            },
            ErrorKind::UnknownEnumValue { raw, enum_name } => ErrorKindView::UnknownEnumValue {
                raw,
                enum_name: enum_name@,
            },
            ErrorKind::UnknownBitFlag { bits } => ErrorKindView::UnknownBitFlag { bits },
            ErrorKind::UnknownSchemaVersion { symbol, hash } => ErrorKindView::UnknownSchemaVersion {
                symbol: symbol@,
                hash,
            },
            ErrorKind::NullValue => ErrorKindView::NullValue,
            ErrorKind::UnknownChild { index } => ErrorKindView::UnknownChild { index },
            ErrorKind::ChildCycle { index } => ErrorKindView::ChildCycle { index },
        }
    }
}

/// A failure together with the names of the fields it passed through,
/// outermost first.
#[derive(Debug, Clone, PartialEq, Eq)]
pub struct RszError {
    pub kind: ErrorKind,
    pub path: Vec<String>,
}

/// `RszError` with its strings as character sequences.
pub struct RszErrorView {
    pub kind: ErrorKindView,
    pub path: Seq<Seq<char>>,
}

impl RszErrorView {
    /// A failure that has not passed through any field yet.
    pub open spec fn bare(kind: ErrorKindView) -> RszErrorView {
        RszErrorView { kind, path: Seq::empty() }
    }

    /// The same failure, seen from the enclosing field `name`.
    pub open spec fn within(self, name: Seq<char>) -> RszErrorView {
        RszErrorView { kind: self.kind, path: seq![name] + self.path }
    }
}

/// The names of `path` joined by dots.
pub open spec fn dotted(path: Seq<Seq<char>>) -> Seq<char>
    decreases path.len(),
{
    if path.len() == 0 {
        Seq::empty()
    } else if path.len() == 1 {
        path[0]
    } else {
        dotted(path.drop_last()) + seq!['.'] + path.last()
    }
}

impl View for RszError {
    type V = RszErrorView;

    open spec fn view(&self) -> RszErrorView {
        RszErrorView { kind: self.kind@, path: views(self.path@) }
    }
}

impl RszError {
    /// A failure of the given kind with an empty field path.
    pub fn new(kind: ErrorKind) -> (e: RszError)
        ensures
            e@ == RszErrorView::bare(kind@),
            e.kind == kind,
    {
        let e = RszError { kind, path: Vec::new() };
        assert(e@.path =~= Seq::<Seq<char>>::empty());
        e
    }

    /// Records that the failure happened inside the field `name`.
    pub fn context(self, name: &str) -> (e: RszError)
        ensures
            e@ == self@.within(name@),
            e.kind == self.kind,
    {
        let mut path = self.path;
        let ghost before = path@;
        path.insert(0, String::from_str(name));
        let e = RszError { kind: self.kind, path };
        assert(e@.path =~= seq![name@] + self@.path);
        e
    }

    /// The field path as one string, names separated by dots.
    pub fn dotted_path(&self) -> (s: String)
        ensures
            s@ == dotted(self@.path),
    {
        let mut out = String::new();
        let mut i: usize = 0;
        while i < self.path.len()
            invariant
                i <= self.path.len(),
                out@ == dotted(self@.path.take(i as int)),
            decreases self.path.len() - i,
        {
            if i > 0 {
                out.append(".");
            }
            out.append(self.path[i].as_str());
            proof {
                reveal_strlit(".");
                let p = self@.path;
                assert(p.take(i + 1).drop_last() =~= p.take(i as int));
                assert(p.take(i + 1).last() == p[i as int]);
                assert("."@ =~= seq!['.']);
            }
            i += 1;
        }
        assert(self@.path.take(i as int) =~= self@.path);
        out
    }
}

} // verus!
