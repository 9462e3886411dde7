use mhrice::error::ErrorKind;
use mhrice::symbolic::{
    EnumSchema, EnumValue, EnumVariant, FlagDecl, FlagKind, FlagSchema, FlagSet, IntKind,
    OffsetSchema,
};

fn broken_parts() -> EnumSchema {
    EnumSchema {
        name: "BrokenPartsTypes".to_string(),
        base: IntKind::I32,
        variants: vec![
            EnumVariant::Unit { name: "None".to_string(), value: 0 },
            EnumVariant::Range { name: "RandomId".to_string(), start: 1, end: 100 },
        ],
    }
}

fn ab_flags() -> FlagSchema {
    FlagSchema {
        name: "Ab".to_string(),
        base: FlagKind::U32,
        flags: vec![
            FlagDecl { name: "A".to_string(), bits: 0x1 },
            FlagDecl { name: "B".to_string(), bits: 0x2 },
        ],
    }
}

#[test]
fn enum_unit_and_ranged_variants_decode() {
    let schema = broken_parts();
    assert_eq!(schema.from_raw(0).unwrap(), EnumValue { variant: 0, payload: None });
    assert_eq!(schema.from_raw(50).unwrap(), EnumValue { variant: 1, payload: Some(49) });
    assert_eq!(schema.from_raw(1).unwrap(), EnumValue { variant: 1, payload: Some(0) });
    assert_eq!(schema.from_raw(100).unwrap(), EnumValue { variant: 1, payload: Some(99) });
}

#[test]
fn enum_value_outside_every_variant_is_unknown() {
    let schema = broken_parts();
    let e = schema.from_raw(101).unwrap_err();
    assert_eq!(
        e.kind,
        ErrorKind::UnknownEnumValue { raw: 101, enum_name: "BrokenPartsTypes".to_string() }
    );
    assert!(e.path.is_empty());
    assert!(matches!(schema.from_raw(-1).unwrap_err().kind, ErrorKind::UnknownEnumValue { .. }));
}

#[test]
fn enum_round_trips_every_declared_raw_value() {
    let schema = broken_parts();
    for raw in 0..=100i64 {
        let v = schema.from_raw(raw).unwrap();
        assert_eq!(schema.into_raw(v), Some(raw));
    }
}

#[test]
fn enum_first_declared_variant_wins() {
    let schema = EnumSchema {
        name: "Overlap".to_string(),
        base: IntKind::I32,
        variants: vec![
            EnumVariant::Range { name: "Low".to_string(), start: 0, end: 10 },
            EnumVariant::Unit { name: "Five".to_string(), value: 5 },
            EnumVariant::Range { name: "High".to_string(), start: 5, end: 20 },
        ],
    };
    assert_eq!(schema.from_raw(5).unwrap(), EnumValue { variant: 0, payload: Some(5) });
    assert_eq!(schema.from_raw(11).unwrap(), EnumValue { variant: 2, payload: Some(6) });
    assert_eq!(schema.into_raw(EnumValue { variant: 1, payload: None }), Some(5));
    assert_eq!(schema.variants[2].name(), "High");
}

#[test]
fn enum_encode_rejects_what_the_schema_does_not_admit() {
    let schema = broken_parts();
    assert_eq!(schema.into_raw(EnumValue { variant: 2, payload: None }), None);
    assert_eq!(schema.into_raw(EnumValue { variant: 0, payload: Some(0) }), None);
    assert_eq!(schema.into_raw(EnumValue { variant: 1, payload: None }), None);
    assert_eq!(schema.into_raw(EnumValue { variant: 1, payload: Some(100) }), None);
    assert_eq!(schema.into_raw(EnumValue { variant: 1, payload: Some(99) }), Some(100));
}

#[test]
fn enum_range_over_the_whole_64_bit_domain() {
    let schema = EnumSchema {
        name: "Wide".to_string(),
        base: IntKind::I64,
        variants: vec![EnumVariant::Range { name: "All".to_string(), start: i64::MIN, end: i64::MAX }],
    };
    let v = schema.from_raw(i64::MAX).unwrap();
    assert_eq!(v, EnumValue { variant: 0, payload: Some(u64::MAX) });
    assert_eq!(schema.into_raw(v), Some(i64::MAX));
    let v = schema.from_raw(i64::MIN).unwrap();
    assert_eq!(v, EnumValue { variant: 0, payload: Some(0) });
    assert_eq!(schema.into_raw(v), Some(i64::MIN));
}

#[test]
fn int_kind_ranges() {
    assert!(IntKind::U8.contains(255));
    assert!(!IntKind::U8.contains(256));
    assert!(!IntKind::U8.contains(-1));
    assert!(IntKind::I8.contains(-128));
    assert!(!IntKind::I8.contains(128));
    assert!(IntKind::I16.contains(-0x8000));
    assert!(!IntKind::U16.contains(0x1_0000));
    assert!(IntKind::U32.contains(0xFFFF_FFFF));
    assert!(!IntKind::I32.contains(0x8000_0000));
    assert!(IntKind::I64.contains(i64::MIN));
}

#[test]
fn flags_decode_declared_bits() {
    let schema = ab_flags();
    let both = schema.from_bits(0x3).unwrap();
    assert_eq!(both, FlagSet { bits: 0x3 });
    assert_eq!(schema.names(both), vec!["A".to_string(), "B".to_string()]);
    let b = schema.from_bits(0x2).unwrap();
    assert_eq!(schema.names(b), vec!["B".to_string()]);
    assert_eq!(b.into_bits(), 0x2);
    assert!(!b.is_empty());
    assert_eq!(schema.all_bits(), 0x3);
}

#[test]
fn flags_reject_an_undeclared_bit() {
    let schema = ab_flags();
    let e = schema.from_bits(0x4).unwrap_err();
    assert_eq!(e.kind, ErrorKind::UnknownBitFlag { bits: 0x4 });
    assert_eq!(schema.from_bits(0x7).unwrap_err().kind, ErrorKind::UnknownBitFlag { bits: 0x7 });
}

#[test]
fn flags_zero_is_the_empty_set() {
    let schema = ab_flags();
    let none = schema.from_bits(0).unwrap();
    assert!(none.is_empty());
    assert_eq!(schema.names(none), Vec::<String>::new());
    let bare = FlagSchema { name: "Bare".to_string(), base: FlagKind::U8, flags: vec![] };
    assert!(bare.from_bits(0).unwrap().is_empty());
    assert_eq!(bare.from_bits(1).unwrap_err().kind, ErrorKind::UnknownBitFlag { bits: 1 });
}

#[test]
fn flags_round_trip() {
    let schema = ab_flags();
    for raw in 0..4u64 {
        assert_eq!(schema.from_bits(raw).unwrap().into_bits(), raw);
    }
}

#[test]
fn offset_shifts_and_shifts_back() {
    let schema = OffsetSchema { base: IntKind::U32, offset: 1 };
    assert_eq!(schema.from_raw(0), 1);
    assert_eq!(schema.from_raw(41), 42);
    assert_eq!(schema.from_raw(0xFFFF_FFFF), 0x1_0000_0000);
    assert_eq!(schema.into_raw(42), Some(41));
    assert_eq!(schema.into_raw(0x1_0000_0000), Some(0xFFFF_FFFF));
    assert_eq!(schema.into_raw(0), None);
    assert_eq!(schema.into_raw(0x1_0000_0001), None);
    let wide = OffsetSchema { base: IntKind::I64, offset: i64::MAX };
    assert_eq!(wide.from_raw(i64::MAX), 2 * (i64::MAX as i128));
    assert_eq!(wide.into_raw(2 * (i64::MAX as i128)), Some(i64::MAX));
    assert_eq!(wide.into_raw(2 * (i64::MAX as i128) + 1), None);
    assert_eq!(wide.into_raw(i128::MIN), None);
}

#[test]
fn offset_round_trips_the_base_range() {
    let schema = OffsetSchema { base: IntKind::I8, offset: -100 };
    for raw in -128..=127i64 {
        assert_eq!(schema.into_raw(schema.from_raw(raw)), Some(raw));
    }
}
