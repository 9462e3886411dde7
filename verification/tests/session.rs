use std::rc::Rc;

use mhrice::error::{ErrorKind, RszError};
use mhrice::model::ChildEntry;
use mhrice::schema::{
    find_descriptor, resolve_plan, Aligner, FieldPlan, FieldType, Flatten, TypeDescriptor,
    VersionEntry, Versioned,
};
use mhrice::session::DecodeSession;
use mhrice::symbolic::{
    EnumSchema, EnumValue, EnumVariant, FlagDecl, FlagKind, FlagSchema, FlagSet, IntKind,
    OffsetSchema,
};
use mhrice::value::{DecodedField, DecodedObject, DecodedValue};

fn plan(name: &str, ty: FieldType) -> FieldPlan {
    FieldPlan { name: name.to_string(), ty }
}

fn descriptor(symbol: &str, versions: &[(u32, u32)], fields: Vec<FieldPlan>) -> TypeDescriptor {
    TypeDescriptor {
        symbol: symbol.to_string(),
        versions: versions.iter().map(|&(hash, version)| VersionEntry { hash, version }).collect(),
        fields,
    }
}

fn entry(offset: usize, symbol: &str, hash: u32) -> ChildEntry {
    ChildEntry { offset, symbol: symbol.to_string(), hash }
}

fn field(name: &str, value: DecodedValue) -> DecodedField {
    DecodedField { name: name.to_string(), value }
}

fn u32s(values: &[u32]) -> Vec<u8> {
    values.iter().flat_map(|v| v.to_le_bytes()).collect()
}

fn decode(ty: &FieldType, version: u32, bytes: Vec<u8>) -> (Result<DecodedValue, RszError>, usize) {
    let catalog = vec![];
    let mut session = DecodeSession::new(&catalog, bytes, vec![]);
    let r = session.decode_field(ty, version);
    (r, session.position())
}

#[test]
fn empty_sequence_consumes_its_count_only() {
    let ty = FieldType::Sequence(Box::new(FieldType::U32));
    let (r, pos) = decode(&ty, 0, vec![0, 0, 0, 0, 9, 9, 9, 9]);
    assert_eq!(r.unwrap(), DecodedValue::Sequence(vec![]));
    assert_eq!(pos, 4);
}

#[test]
fn empty_sequence_after_padding() {
    let catalog = vec![];
    let mut session = DecodeSession::new(&catalog, vec![5, 0xEE, 0xEE, 0xEE, 0, 0, 0, 0, 7], vec![]);
    assert_eq!(session.decode_field(&FieldType::U8, 0).unwrap(), DecodedValue::U8(5));
    let ty = FieldType::Sequence(Box::new(FieldType::U64));
    assert_eq!(session.decode_field(&ty, 0).unwrap(), DecodedValue::Sequence(vec![]));
    assert_eq!(session.position(), 8);
}

#[test]
fn sequence_keeps_order_and_duplicates() {
    let ty = FieldType::Sequence(Box::new(FieldType::U16));
    let (r, pos) = decode(&ty, 0, vec![3, 0, 0, 0, 7, 0, 5, 0, 7, 0]);
    assert_eq!(
        r.unwrap(),
        DecodedValue::Sequence(vec![
            DecodedValue::U16(7),
            DecodedValue::U16(5),
            DecodedValue::U16(7)
        ])
    );
    assert_eq!(pos, 10);
}

#[test]
fn sequence_elements_are_aligned_one_by_one() {
    let ty = FieldType::Sequence(Box::new(FieldType::U64));
    let mut bytes = u32s(&[2, 0xDEAD_BEEF]);
    bytes.extend_from_slice(&1u64.to_le_bytes());
    bytes.extend_from_slice(&2u64.to_le_bytes());
    let (r, pos) = decode(&ty, 0, bytes);
    assert_eq!(r.unwrap(), DecodedValue::Sequence(vec![DecodedValue::U64(1), DecodedValue::U64(2)]));
    assert_eq!(pos, 24);
}

#[test]
fn truncated_sequence_is_eof() {
    let ty = FieldType::Sequence(Box::new(FieldType::U32));
    let (r, _) = decode(&ty, 0, u32s(&[3, 1, 2]));
    let e = r.unwrap_err();
    assert_eq!(e.kind, ErrorKind::UnexpectedEof);
    assert!(e.path.is_empty());
    let (r, _) = decode(&ty, 0, vec![1, 0]);
    assert_eq!(r.unwrap_err().kind, ErrorKind::UnexpectedEof);
    let (r, _) = decode(&ty, 0, u32s(&[0xFFFF_FFFF, 1]));
    assert_eq!(r.unwrap_err().kind, ErrorKind::UnexpectedEof);
}

#[test]
fn nested_sequences() {
    let ty = FieldType::Sequence(Box::new(FieldType::Sequence(Box::new(FieldType::U8))));
    let (r, pos) = decode(&ty, 0, vec![2, 0, 0, 0, 1, 0, 0, 0, 9, 0, 0, 0, 2, 0, 0, 0, 8, 7]);
    assert_eq!(
        r.unwrap(),
        DecodedValue::Sequence(vec![
            DecodedValue::Sequence(vec![DecodedValue::U8(9)]),
            DecodedValue::Sequence(vec![DecodedValue::U8(8), DecodedValue::U8(7)]),
        ])
    );
    assert_eq!(pos, 18);
}

#[test]
fn fixed_array_checks_its_length() {
    let ty = FieldType::FixedArray(Box::new(FieldType::I32), 2);
    let (r, pos) = decode(&ty, 0, u32s(&[2, 0xFFFF_FFFF, 5]));
    assert_eq!(r.unwrap(), DecodedValue::Sequence(vec![DecodedValue::I32(-1), DecodedValue::I32(5)]));
    assert_eq!(pos, 12);
    let (r, _) = decode(&ty, 0, u32s(&[3, 1, 2, 3]));
    assert_eq!(r.unwrap_err().kind, ErrorKind::ArraySizeMismatch { expected: 2, actual: 3 });
    let (r, _) = decode(&ty, 0, u32s(&[1, 1]));
    assert_eq!(r.unwrap_err().kind, ErrorKind::ArraySizeMismatch { expected: 2, actual: 1 });
    let (r, _) = decode(&ty, 0, u32s(&[3, 1, 2]));
    assert_eq!(r.unwrap_err().kind, ErrorKind::UnexpectedEof);
    let empty = FieldType::FixedArray(Box::new(FieldType::I32), 0);
    let (r, pos) = decode(&empty, 0, u32s(&[0]));
    assert_eq!(r.unwrap(), DecodedValue::Sequence(vec![]));
    assert_eq!(pos, 4);
}

#[test]
fn placeholder_sequence() {
    let (r, pos) = decode(&FieldType::Placeholder, 0, u32s(&[0]));
    assert_eq!(r.unwrap(), DecodedValue::Sequence(vec![]));
    assert_eq!(pos, 4);
    let (r, _) = decode(&FieldType::Placeholder, 0, u32s(&[1]));
    assert_eq!(r.unwrap_err().kind, ErrorKind::ArraySizeMismatch { expected: 0, actual: 1 });
}

#[test]
fn versioned_field_follows_the_version() {
    let ty = FieldType::Versioned(Versioned { inner: Box::new(FieldType::U32), min: 2, max: 4 });
    for version in [2, 3, 4] {
        let (r, pos) = decode(&ty, version, u32s(&[77]));
        assert_eq!(r.unwrap(), DecodedValue::Versioned(Some(Box::new(DecodedValue::U32(77)))));
        assert_eq!(pos, 4);
    }
    for version in [0, 1, 5, u32::MAX] {
        let (r, pos) = decode(&ty, version, u32s(&[77]));
        assert_eq!(r.unwrap(), DecodedValue::Versioned(None));
        assert_eq!(pos, 0);
    }
    let (r, _) = decode(&ty, 3, vec![1]);
    assert_eq!(r.unwrap_err().kind, ErrorKind::UnexpectedEof);
    let (r, _) = decode(&ty, 9, vec![]);
    assert_eq!(r.unwrap(), DecodedValue::Versioned(None));
    let gate = Versioned { inner: Box::new(FieldType::U8), min: 5, max: 1 };
    assert!(!gate.is_present(3));
}

#[test]
fn aligner_moves_without_a_value() {
    let catalog = vec![];
    let mut session = DecodeSession::new(&catalog, vec![1, 0, 0, 0, 0, 0, 0, 0, 2], vec![]);
    session.decode_field(&FieldType::U8, 0).unwrap();
    let r = session.decode_field(&FieldType::Aligner(Aligner::new(8)), 0);
    assert_eq!(r.unwrap(), DecodedValue::Aligner);
    assert_eq!(session.position(), 8);
    assert_eq!(session.decode_field(&FieldType::U8, 0).unwrap(), DecodedValue::U8(2));
    let r = session.decode_field(&FieldType::Aligner(Aligner::new(16)), 0);
    assert_eq!(r.unwrap_err().kind, ErrorKind::UnexpectedEof);
    assert_eq!(session.position(), 9);
}

#[test]
fn leaf_fields_through_the_session() {
    let (r, _) = decode(&FieldType::Bool, 0, vec![1]);
    assert_eq!(r.unwrap(), DecodedValue::Bool(true));
    let (r, _) = decode(&FieldType::Bool, 0, vec![2]);
    assert_eq!(r.unwrap_err().kind, ErrorKind::InvalidBoolValue);
    let (r, _) = decode(&FieldType::I8, 0, vec![0x80]);
    assert_eq!(r.unwrap(), DecodedValue::I8(-128));
    let (r, _) = decode(&FieldType::I16, 0, vec![0xFF, 0x7F]);
    assert_eq!(r.unwrap(), DecodedValue::I16(0x7FFF));
    let (r, _) = decode(&FieldType::I64, 0, vec![0xFF; 8]);
    assert_eq!(r.unwrap(), DecodedValue::I64(-1));
    let (r, _) = decode(&FieldType::U64, 0, vec![0xFF; 8]);
    assert_eq!(r.unwrap(), DecodedValue::U64(u64::MAX));
    let (r, _) = decode(&FieldType::F32, 0, 2.5f32.to_bits().to_le_bytes().to_vec());
    assert_eq!(r.unwrap(), DecodedValue::F32(2.5f32.to_bits()));
    let (r, _) = decode(&FieldType::OptionalString, 0, u32s(&[0]));
    assert_eq!(r.unwrap(), DecodedValue::Text(None));
    let (r, _) = decode(&FieldType::Text, 0, vec![2, 0, 0, 0, 0x48, 0, 0, 0]);
    assert_eq!(r.unwrap(), DecodedValue::Text(Some("H".to_string())));
    let (r, _) = decode(&FieldType::Text, 0, u32s(&[0]));
    assert_eq!(r.unwrap_err().kind, ErrorKind::NullValue);
    let (r, pos) = decode(&FieldType::Guid, 0, (0u8..16).collect());
    match r.unwrap() {
        DecodedValue::Guid(g) => assert_eq!(g.bytes.to_vec(), (0u8..16).collect::<Vec<u8>>()),
        other => panic!("not a guid: {:?}", other),
    }
    assert_eq!(pos, 16);
}

#[test]
fn float_vector_fields() {
    let lanes: Vec<u32> = (1..=16).map(|i| (i as f32).to_bits()).collect();
    let bytes = u32s(&lanes);
    let (r, pos) = decode(&FieldType::Vec2, 0, bytes.clone());
    assert_eq!(r.unwrap(), DecodedValue::Floats(lanes[..2].to_vec()));
    assert_eq!(pos, 16);
    let (r, pos) = decode(&FieldType::Vec3, 0, bytes.clone());
    assert_eq!(r.unwrap(), DecodedValue::Floats(lanes[..3].to_vec()));
    assert_eq!(pos, 16);
    let (r, pos) = decode(&FieldType::Vec4, 0, bytes.clone());
    assert_eq!(r.unwrap(), DecodedValue::Floats(lanes[..4].to_vec()));
    assert_eq!(pos, 16);
    let (r, pos) = decode(&FieldType::Quat, 0, bytes.clone());
    assert_eq!(r.unwrap(), DecodedValue::Floats(lanes[..4].to_vec()));
    assert_eq!(pos, 16);
    let (r, pos) = decode(&FieldType::Mat4, 0, bytes.clone());
    assert_eq!(r.unwrap(), DecodedValue::Floats(lanes.clone()));
    assert_eq!(pos, 64);
    let (r, _) = decode(&FieldType::Vec2, 0, bytes[..12].to_vec());
    assert_eq!(r.unwrap_err().kind, ErrorKind::UnexpectedEof);
    let (r, _) = decode(&FieldType::Mat4, 0, bytes[..63].to_vec());
    assert_eq!(r.unwrap_err().kind, ErrorKind::UnexpectedEof);
}

#[test]
fn symbolic_fields() {
    let parts = FieldType::Enum(EnumSchema {
        name: "BrokenPartsTypes".to_string(),
        base: IntKind::I32,
        variants: vec![
            EnumVariant::Unit { name: "None".to_string(), value: 0 },
            EnumVariant::Range { name: "RandomId".to_string(), start: 1, end: 100 },
        ],
    });
    let (r, pos) = decode(&parts, 0, u32s(&[50]));
    assert_eq!(r.unwrap(), DecodedValue::Enum(EnumValue { variant: 1, payload: Some(49) }));
    assert_eq!(pos, 4);
    let (r, pos) = decode(&parts, 0, u32s(&[101]));
    assert_eq!(
        r.unwrap_err().kind,
        ErrorKind::UnknownEnumValue { raw: 101, enum_name: "BrokenPartsTypes".to_string() }
    );
    assert_eq!(pos, 0);
    let (r, _) = decode(&parts, 0, u32s(&[0xFFFF_FFFF]));
    assert_eq!(
        r.unwrap_err().kind,
        ErrorKind::UnknownEnumValue { raw: -1, enum_name: "BrokenPartsTypes".to_string() }
    );
    let (r, _) = decode(&parts, 0, vec![0, 0]);
    assert_eq!(r.unwrap_err().kind, ErrorKind::UnexpectedEof);

    let flags = FieldType::Flags(FlagSchema {
        name: "Ab".to_string(),
        base: FlagKind::U8,
        flags: vec![
            FlagDecl { name: "A".to_string(), bits: 1 },
            FlagDecl { name: "B".to_string(), bits: 2 },
        ],
    });
    let (r, pos) = decode(&flags, 0, vec![3]);
    assert_eq!(r.unwrap(), DecodedValue::Flags(FlagSet { bits: 3 }));
    assert_eq!(pos, 1);
    let (r, pos) = decode(&flags, 0, vec![4]);
    assert_eq!(r.unwrap_err().kind, ErrorKind::UnknownBitFlag { bits: 4 });
    assert_eq!(pos, 0);
    let (r, _) = decode(&flags, 0, vec![0]);
    assert_eq!(r.unwrap(), DecodedValue::Flags(FlagSet { bits: 0 }));

    let id = FieldType::Offset(OffsetSchema { base: IntKind::U16, offset: 1 });
    let (r, pos) = decode(&id, 0, vec![0xFF, 0xFF]);
    assert_eq!(r.unwrap(), DecodedValue::Offset(0x1_0000));
    assert_eq!(pos, 2);
}

#[test]
fn flattened_object_is_decoded_inline_after_aligning_to_four() {
    let inner = Flatten { fields: vec![plan("a", FieldType::U8), plan("b", FieldType::U16)] };
    let catalog = vec![];
    let mut session =
        DecodeSession::new(&catalog, vec![1, 0xEE, 0xEE, 0xEE, 2, 0xEE, 3, 0, 4], vec![]);
    session.decode_field(&FieldType::U8, 0).unwrap();
    let r = session.decode_field(&FieldType::Flatten(inner), 0).unwrap();
    assert_eq!(
        r,
        DecodedValue::Flatten(vec![
            field("a", DecodedValue::U8(2)),
            field("b", DecodedValue::U16(3))
        ])
    );
    assert_eq!(session.position(), 8);
    assert_eq!(session.decode_count(), 0);
}

#[test]
fn errors_carry_the_dotted_field_path() {
    let inner = Flatten {
        fields: vec![
            plan("first", FieldType::U8),
            plan("flag", FieldType::Bool),
        ],
    };
    let outer = Flatten {
        fields: vec![
            plan("head", FieldType::U32),
            plan("list", FieldType::Sequence(Box::new(FieldType::Flatten(inner)))),
        ],
    };
    let mut bytes = u32s(&[1, 1]);
    bytes.extend_from_slice(&[9, 7]);
    let (r, _) = decode(&FieldType::Flatten(outer), 0, bytes);
    let e = r.unwrap_err();
    assert_eq!(e.kind, ErrorKind::InvalidBoolValue);
    assert_eq!(e.path, vec!["list".to_string(), "flag".to_string()]);
    assert_eq!(e.dotted_path(), "list.flag");
}

#[test]
fn error_context_builds_the_path_outermost_first() {
    let e = RszError::new(ErrorKind::NullValue);
    assert_eq!(e.dotted_path(), "");
    let e = e.context("leaf");
    assert_eq!(e.dotted_path(), "leaf");
    let e = e.context("mid").context("root");
    assert_eq!(e.kind, ErrorKind::NullValue);
    assert_eq!(e.path, vec!["root".to_string(), "mid".to_string(), "leaf".to_string()]);
    assert_eq!(e.dotted_path(), "root.mid.leaf");
}

fn leaf_catalog() -> Vec<TypeDescriptor> {
    vec![
        descriptor("Leaf", &[(0xAAAA, 0), (0xBBBB, 1)], vec![
            plan("id", FieldType::U32),
            plan(
                "extra",
                FieldType::Versioned(Versioned { inner: Box::new(FieldType::U32), min: 1, max: 1 }),
            ),
        ]),
        descriptor("Pair", &[(0x1111, 0)], vec![
            plan("left", FieldType::Shared),
            plan("right", FieldType::Shared),
        ]),
        descriptor("Node", &[(0x2222, 0)], vec![plan("next", FieldType::Child)]),
    ]
}

#[test]
fn shared_children_resolve_once_to_one_object() {
    let catalog = leaf_catalog();
    // Pair at 0 refers to child 0 twice; the leaf lies at 8.
    let bytes = u32s(&[0, 0, 42]);
    let mut session = DecodeSession::new(&catalog, bytes, vec![entry(8, "Leaf", 0xAAAA)]);
    assert!(session.cached_child(0).is_none());
    let root = session.decode_root(&"Pair".to_string(), 0x1111, 0).unwrap();
    assert_eq!(session.decode_count(), 1);
    assert_eq!(session.position(), 0);
    assert_eq!(root.symbol, "Pair");
    assert_eq!(root.version, 0);
    let (left, right) = match (&root.fields[0].value, &root.fields[1].value) {
        (DecodedValue::Shared(l), DecodedValue::Shared(r)) => (l.clone(), r.clone()),
        other => panic!("not two shared children: {:?}", other),
    };
    assert!(Rc::ptr_eq(&left, &right));
    assert_eq!(
        *left,
        DecodedObject {
            symbol: "Leaf".to_string(),
            version: 0,
            fields: vec![field("id", DecodedValue::U32(42)), field("extra", DecodedValue::Versioned(None))],
        }
    );
    let again = session.resolve_child(0).unwrap();
    assert!(Rc::ptr_eq(&left, &again));
    assert!(Rc::ptr_eq(&left, &session.cached_child(0).unwrap()));
    assert_eq!(session.decode_count(), 1);
}

#[test]
fn resolving_a_child_twice_decodes_it_once() {
    let catalog = leaf_catalog();
    let mut session = DecodeSession::new(&catalog, u32s(&[7, 8]), vec![entry(0, "Leaf", 0xBBBB)]);
    assert_eq!(session.decode_count(), 0);
    let first = session.resolve_child(0).unwrap();
    assert_eq!(session.decode_count(), 1);
    let second = session.resolve_child(0).unwrap();
    assert_eq!(session.decode_count(), 1);
    assert!(Rc::ptr_eq(&first, &second));
    assert_eq!(first.version, 1);
    assert_eq!(
        first.fields,
        vec![
            field("id", DecodedValue::U32(7)),
            field("extra", DecodedValue::Versioned(Some(Box::new(DecodedValue::U32(8))))),
        ]
    );
}

#[test]
fn owned_child_field() {
    let catalog = leaf_catalog();
    // Node at 0 refers to child 1; child 1 is a leaf at 4.
    let bytes = u32s(&[1, 5]);
    let children = vec![entry(0, "Node", 0x2222), entry(4, "Leaf", 0xAAAA)];
    let mut session = DecodeSession::new(&catalog, bytes, children);
    let node = session.resolve_child(0).unwrap();
    assert_eq!(session.decode_count(), 2);
    match &node.fields[0].value {
        DecodedValue::Child(leaf) => {
            assert_eq!(leaf.symbol, "Leaf");
            assert_eq!(leaf.fields[0], field("id", DecodedValue::U32(5)));
            assert!(Rc::ptr_eq(leaf, &session.cached_child(1).unwrap()));
        }
        other => panic!("not a child: {:?}", other),
    }
}

#[test]
fn content_hash_selects_the_schema_version() {
    let catalog = leaf_catalog();
    let mut session = DecodeSession::new(&catalog, u32s(&[7, 8]), vec![]);
    let old = session.decode_root(&"Leaf".to_string(), 0xAAAA, 0).unwrap();
    assert_eq!(old.version, 0);
    assert_eq!(old.fields[1].value, DecodedValue::Versioned(None));
    let new = session.decode_root(&"Leaf".to_string(), 0xBBBB, 0).unwrap();
    assert_eq!(new.version, 1);
    assert_eq!(new.fields[1].value, DecodedValue::Versioned(Some(Box::new(DecodedValue::U32(8)))));
    assert_eq!(catalog[0].resolve_version(0xBBBB).unwrap(), 1);
    assert_eq!(resolve_plan(&catalog, &"Pair".to_string(), 0x1111).unwrap(), (1, 0));
    assert_eq!(find_descriptor(&catalog, &"Node".to_string()), Some(2));
    assert_eq!(find_descriptor(&catalog, &"Nope".to_string()), None);
}

#[test]
fn first_matching_version_pair_wins() {
    let d = descriptor("T", &[(5, 10), (6, 11), (5, 12)], vec![]);
    assert_eq!(d.resolve_version(5).unwrap(), 10);
    assert_eq!(d.resolve_version(6).unwrap(), 11);
}

#[test]
fn unmatched_content_hash_is_an_unknown_schema_version() {
    let catalog = leaf_catalog();
    let unknown = ErrorKind::UnknownSchemaVersion { symbol: "Leaf".to_string(), hash: 0xCCCC };
    assert_eq!(catalog[0].resolve_version(0xCCCC).unwrap_err().kind, unknown);
    let mut session =
        DecodeSession::new(&catalog, u32s(&[7, 8]), vec![entry(0, "Leaf", 0xCCCC)]);
    let e = session.decode_root(&"Leaf".to_string(), 0xCCCC, 0).unwrap_err();
    assert_eq!(e.kind, unknown);
    assert!(e.path.is_empty());
    assert_eq!(session.resolve_child(0).unwrap_err().kind, unknown);
    assert_eq!(session.decode_count(), 1);
    let none = descriptor("Bare", &[], vec![]);
    assert_eq!(
        none.resolve_version(0).unwrap_err().kind,
        ErrorKind::UnknownSchemaVersion { symbol: "Bare".to_string(), hash: 0 }
    );
}

#[test]
fn unknown_type_is_an_unknown_schema_version() {
    let catalog = leaf_catalog();
    let mut session = DecodeSession::new(&catalog, vec![], vec![]);
    let e = session.decode_root(&"Missing".to_string(), 1, 0).unwrap_err();
    assert_eq!(e.kind, ErrorKind::UnknownSchemaVersion { symbol: "Missing".to_string(), hash: 1 });
}

#[test]
fn child_failure_is_reported_under_the_referring_field() {
    let catalog = leaf_catalog();
    let bytes = u32s(&[0, 0]);
    let mut session = DecodeSession::new(&catalog, bytes, vec![entry(6, "Leaf", 0xBBBB)]);
    let e = session.decode_root(&"Pair".to_string(), 0x1111, 0).unwrap_err();
    assert_eq!(e.kind, ErrorKind::UnexpectedEof);
    assert_eq!(e.dotted_path(), "left.id");
    assert!(session.cached_child(0).is_none());
}

#[test]
fn child_index_outside_the_table() {
    let catalog = leaf_catalog();
    let mut session = DecodeSession::new(&catalog, u32s(&[3]), vec![entry(0, "Leaf", 0xAAAA)]);
    assert_eq!(session.resolve_child(1).unwrap_err().kind, ErrorKind::UnknownChild { index: 1 });
    let e = session.decode_root(&"Node".to_string(), 0x2222, 0).unwrap_err();
    assert_eq!(e.kind, ErrorKind::UnknownChild { index: 3 });
    assert_eq!(e.dotted_path(), "next");
}

#[test]
fn child_that_refers_to_itself_is_a_cycle() {
    let catalog = leaf_catalog();
    // Child 0 is a node whose `next` is child 1, whose `next` is child 0.
    let bytes = u32s(&[1, 0]);
    let children = vec![entry(0, "Node", 0x2222), entry(4, "Node", 0x2222)];
    let mut session = DecodeSession::new(&catalog, bytes, children);
    let e = session.resolve_child(0).unwrap_err();
    assert_eq!(e.kind, ErrorKind::ChildCycle { index: 0 });
    assert_eq!(e.dotted_path(), "next.next");
    assert!(session.cached_child(0).is_none());
    assert!(session.cached_child(1).is_none());
    let e = session.resolve_child(1).unwrap_err();
    assert_eq!(e.kind, ErrorKind::ChildCycle { index: 1 });
}

#[test]
fn child_beyond_the_buffer_is_eof() {
    let catalog = vec![descriptor("Empty", &[(1, 0)], vec![])];
    let children = vec![entry(4, "Empty", 1), entry(5, "Empty", 1)];
    let mut session = DecodeSession::new(&catalog, vec![0; 4], children);
    assert_eq!(session.resolve_child(0).unwrap().fields.len(), 0);
    assert_eq!(session.resolve_child(1).unwrap_err().kind, ErrorKind::UnexpectedEof);
}

#[test]
fn session_seek_moves_the_cursor() {
    let catalog = vec![];
    let mut session = DecodeSession::new(&catalog, vec![1, 2, 3], vec![]);
    session.seek(2).unwrap();
    assert_eq!(session.position(), 2);
    assert_eq!(session.decode_field(&FieldType::U8, 0).unwrap(), DecodedValue::U8(3));
    assert_eq!(session.seek(4).unwrap_err().kind, ErrorKind::UnexpectedEof);
    assert_eq!(session.position(), 3);
}

#[test]
fn every_truncation_of_a_decodable_field_is_eof() {
    let inner = Flatten {
        fields: vec![
            plan("tag", FieldType::U8),
            plan("name", FieldType::OptionalString),
            plan("values", FieldType::Sequence(Box::new(FieldType::U16))),
            plan("wide", FieldType::U64),
        ],
    };
    let ty = FieldType::Sequence(Box::new(FieldType::Flatten(inner)));
    let mut bytes = u32s(&[2]);
    for round in 0..2u8 {
        while bytes.len() % 4 != 0 {
            bytes.push(0xEE);
        }
        bytes.push(round);
        bytes.extend_from_slice(&[0xEE; 3]);
        bytes.extend(u32s(&[3]));
        bytes.extend_from_slice(&[0x41, 0, 0x42, 0, 0, 0]);
        while bytes.len() % 4 != 0 {
            bytes.push(0xEE);
        }
        bytes.extend(u32s(&[2]));
        bytes.extend_from_slice(&[1, 0, 2, 0]);
        while bytes.len() % 8 != 0 {
            bytes.push(0xEE);
        }
        bytes.extend_from_slice(&(round as u64 + 100).to_le_bytes());
    }
    let (full, end) = decode(&ty, 0, bytes.clone());
    let full = full.unwrap();
    assert_eq!(end, bytes.len());
    match &full {
        DecodedValue::Sequence(items) => assert_eq!(items.len(), 2),
        other => panic!("not a sequence: {:?}", other),
    }
    for keep in 0..end {
        let (r, pos) = decode(&ty, 0, bytes[..keep].to_vec());
        assert_eq!(r.unwrap_err().kind, ErrorKind::UnexpectedEof);
        assert_eq!(pos, 0);
    }
    let mut longer = bytes.clone();
    longer.extend_from_slice(&[1, 2, 3]);
    let (r, pos) = decode(&ty, 0, longer);
    assert_eq!(r.unwrap(), full);
    assert_eq!(pos, end);
}

#[test]
fn truncating_a_child_is_eof_under_the_referring_field() {
    let catalog = leaf_catalog();
    let bytes = u32s(&[0, 0, 42]);
    for keep in 0..bytes.len() {
        let mut session =
            DecodeSession::new(&catalog, bytes[..keep].to_vec(), vec![entry(8, "Leaf", 0xAAAA)]);
        let e = session.decode_root(&"Pair".to_string(), 0x1111, 0).unwrap_err();
        assert_eq!(e.kind, ErrorKind::UnexpectedEof);
        assert_eq!(session.position(), 0);
    }
}

#[test]
fn failed_field_leaves_the_cursor_where_it_was() {
    let catalog = vec![];
    let mut session = DecodeSession::new(&catalog, u32s(&[2, 1]), vec![]);
    session.seek(0).unwrap();
    let ty = FieldType::Sequence(Box::new(FieldType::U32));
    assert_eq!(session.decode_field(&ty, 0).unwrap_err().kind, ErrorKind::UnexpectedEof);
    assert_eq!(session.position(), 0);
    assert_eq!(session.decode_field(&FieldType::U32, 0).unwrap(), DecodedValue::U32(2));
}
