use strict_codec::codec::{decode, encode};
use strict_codec::compile::compile;
use strict_codec::schema::{
    DecodeError, EncodeError, FieldDescriptor, LeafType, ReprWidth, SkipKind, StructDescriptor,
    TypeDescriptor, UnionDescriptor, VariantDescriptor,
};
use strict_codec::values::{value_matches, FieldValue, LeafValue, StructValue, UnionValue, Value};

fn plain_struct(fields: Vec<FieldDescriptor>) -> TypeDescriptor {
    TypeDescriptor::Struct(StructDescriptor { use_tlv: false, fields })
}

fn variant(value: u64, explicit_value: Option<u64>) -> VariantDescriptor {
    VariantDescriptor { value, explicit_value, fields: Vec::new() }
}

#[test]
fn round_trip_struct() {
    let plan = compile(&plain_struct(vec![
        FieldDescriptor::Normal(LeafType::U8),
        FieldDescriptor::Normal(LeafType::U16),
        FieldDescriptor::Normal(LeafType::Bytes),
    ]))
    .unwrap();
    let v = Value::Struct(StructValue {
        fields: vec![
            FieldValue::Leaf(LeafValue::U8(0x7F)),
            FieldValue::Leaf(LeafValue::U16(0xBEEF)),
            FieldValue::Leaf(LeafValue::Bytes(vec![1, 2, 3, 4])),
        ],
    });
    let bytes = encode(&plan, &v).unwrap();
    assert_eq!(bytes, vec![0x7F, 0xEF, 0xBE, 4, 0, 1, 2, 3, 4]);
    let back = decode(&plan, &bytes).unwrap();
    assert_eq!(back, v);
}

#[test]
fn round_trip_union_with_fields() {
    let u = TypeDescriptor::TaggedUnion(UnionDescriptor {
        by_order: true,
        by_value: false,
        repr_width: Some(ReprWidth::W2),
        variants: vec![
            variant(1, None),
            VariantDescriptor {
                value: 2,
                explicit_value: None,
                fields: vec![
                    FieldDescriptor::Normal(LeafType::U32),
                    FieldDescriptor::Normal(LeafType::Bytes),
                ],
            },
        ],
    });
    let plan = compile(&u).unwrap();
    let v = Value::TaggedUnion(UnionValue {
        ordinal: 1,
        fields: vec![
            FieldValue::Leaf(LeafValue::U32(0x01020304)),
            FieldValue::Leaf(LeafValue::Bytes(vec![9])),
        ],
    });
    let bytes = encode(&plan, &v).unwrap();
    assert_eq!(bytes, vec![1, 0, 4, 3, 2, 1, 1, 0, 9]);
    let back = decode(&plan, &bytes).unwrap();
    assert_eq!(back, v);
}

#[test]
fn by_order_tags_encode_ordinals() {
    // Four variants declared in order, each carrying its own intrinsic
    // value; by-order tagging still yields tags 0, 1, 2, 3.
    let u = TypeDescriptor::TaggedUnion(UnionDescriptor {
        by_order: true,
        by_value: false,
        repr_width: Some(ReprWidth::W2),
        variants: vec![variant(1, None), variant(2, None), variant(4, None), variant(8, None)],
    });
    let plan = compile(&u).unwrap();
    for (ordinal, expect) in [
        (0usize, vec![0x00u8, 0x00]),
        (1, vec![0x01, 0x00]),
        (2, vec![0x02, 0x00]),
        (3, vec![0x03, 0x00]),
    ] {
        let v = Value::TaggedUnion(UnionValue { ordinal, fields: Vec::new() });
        assert_eq!(encode(&plan, &v).unwrap(), expect);
    }
}

#[test]
fn by_value_with_explicit_overrides() {
    // All variants carry custom values apart from the first one; an
    // explicit value overrides the intrinsic one; four-byte width.
    let u = TypeDescriptor::TaggedUnion(UnionDescriptor {
        by_order: false,
        by_value: true,
        repr_width: Some(ReprWidth::W4),
        variants: vec![
            variant(1, None),
            variant(2, Some(0x10)),
            variant(4, Some(0x1000)),
            variant(8, Some(0x100000)),
        ],
    });
    let plan = compile(&u).unwrap();
    for (ordinal, expect) in [
        (0usize, vec![0x01u8, 0x00, 0x00, 0x00]),
        (1, vec![0x10, 0x00, 0x00, 0x00]),
        (2, vec![0x00, 0x10, 0x00, 0x00]),
        (3, vec![0x00, 0x00, 0x10, 0x00]),
    ] {
        let v = Value::TaggedUnion(UnionValue { ordinal, fields: Vec::new() });
        assert_eq!(encode(&plan, &v).unwrap(), expect);
    }
}

#[test]
fn skipping_struct_example() {
    // Two fields: a byte sequence and a skipped optional flag.  The
    // populated flag leaves no bytes, and decoding restores the default.
    let plan = compile(&plain_struct(vec![
        FieldDescriptor::Normal(LeafType::Bytes),
        FieldDescriptor::Skipped(SkipKind::OptionalBool),
    ]))
    .unwrap();
    let v = Value::Struct(StructValue {
        fields: vec![
            FieldValue::Leaf(LeafValue::Bytes(b"abc".to_vec())),
            FieldValue::OptFlag(Some(true)),
        ],
    });
    let bytes = encode(&plan, &v).unwrap();
    assert_eq!(bytes, vec![0x03, 0x00, b'a', b'b', b'c']);
    let back = decode(&plan, &bytes).unwrap();
    match back {
        Value::Struct(sv) => {
            assert_eq!(sv.fields[0], FieldValue::Leaf(LeafValue::Bytes(b"abc".to_vec())));
            assert_eq!(sv.fields[1], FieldValue::OptFlag(None));
        },
        _ => panic!("expected a structure value"),
    }
}

#[test]
fn skipped_field_bytes_identical() {
    let plan = compile(&plain_struct(vec![
        FieldDescriptor::Normal(LeafType::Bytes),
        FieldDescriptor::Skipped(SkipKind::OptionalBool),
    ]))
    .unwrap();
    let populated = Value::Struct(StructValue {
        fields: vec![
            FieldValue::Leaf(LeafValue::Bytes(b"abc".to_vec())),
            FieldValue::OptFlag(Some(true)),
        ],
    });
    let defaulted = Value::Struct(StructValue {
        fields: vec![
            FieldValue::Leaf(LeafValue::Bytes(b"abc".to_vec())),
            FieldValue::OptFlag(None),
        ],
    });
    assert_eq!(encode(&plan, &populated).unwrap(), encode(&plan, &defaulted).unwrap());
}

#[test]
fn trailing_byte_rejected() {
    let plan = compile(&plain_struct(vec![FieldDescriptor::Normal(LeafType::U16)])).unwrap();
    let v = Value::Struct(StructValue { fields: vec![FieldValue::Leaf(LeafValue::U16(0x0102))] });
    let mut bytes = encode(&plan, &v).unwrap();
    assert!(decode(&plan, &bytes).is_ok());
    bytes.push(0x00);
    assert_eq!(decode(&plan, &bytes), Err(DecodeError::TrailingBytes));
}

#[test]
fn truncated_input_rejected() {
    let plan = compile(&plain_struct(vec![FieldDescriptor::Normal(LeafType::U16)])).unwrap();
    let bytes = vec![0x01];
    assert_eq!(decode(&plan, &bytes), Err(DecodeError::TruncatedInput));
}

#[test]
fn length_mismatch_rejected() {
    let plan = compile(&plain_struct(vec![FieldDescriptor::Normal(LeafType::Bytes)])).unwrap();
    // A declared length of five with only three bytes remaining.
    let bytes = vec![0x05, 0x00, b'a', b'b', b'c'];
    assert_eq!(decode(&plan, &bytes), Err(DecodeError::LengthMismatch));
}

#[test]
fn unknown_tag_rejected() {
    let u = TypeDescriptor::TaggedUnion(UnionDescriptor {
        by_order: true,
        by_value: false,
        repr_width: None,
        variants: vec![variant(0, None), variant(1, None)],
    });
    let plan = compile(&u).unwrap();
    assert_eq!(decode(&plan, &vec![9u8]), Err(DecodeError::UnknownTag(9)));
}

#[test]
fn encode_length_overflow() {
    let plan = compile(&plain_struct(vec![FieldDescriptor::Normal(LeafType::Bytes)])).unwrap();
    let v = Value::Struct(StructValue {
        fields: vec![FieldValue::Leaf(LeafValue::Bytes(vec![0u8; 0x10000]))],
    });
    assert_eq!(encode(&plan, &v), Err(EncodeError::LengthMismatch));
}

#[test]
fn value_matches_checks_shape() {
    let plan = compile(&plain_struct(vec![
        FieldDescriptor::Normal(LeafType::U8),
        FieldDescriptor::Skipped(SkipKind::OptionalBool),
    ]))
    .unwrap();
    let good = Value::Struct(StructValue {
        fields: vec![FieldValue::Leaf(LeafValue::U8(1)), FieldValue::OptFlag(None)],
    });
    assert!(value_matches(&plan, &good));
    let wrong_leaf = Value::Struct(StructValue {
        fields: vec![FieldValue::Leaf(LeafValue::U16(1)), FieldValue::OptFlag(None)],
    });
    assert!(!value_matches(&plan, &wrong_leaf));
    let wrong_arity = Value::Struct(StructValue {
        fields: vec![FieldValue::Leaf(LeafValue::U8(1))],
    });
    assert!(!value_matches(&plan, &wrong_arity));
    let wrong_kind = Value::TaggedUnion(UnionValue { ordinal: 0, fields: Vec::new() });
    assert!(!value_matches(&plan, &wrong_kind));
}

#[test]
fn value_matches_rejects_unsorted_capture() {
    let plan = compile(&TypeDescriptor::Struct(StructDescriptor {
        use_tlv: true,
        fields: vec![FieldDescriptor::TlvCapture],
    }))
    .unwrap();
    let sorted = Value::Struct(StructValue {
        fields: vec![FieldValue::Capture(vec![(1, vec![0x11]), (3, vec![0x33])])],
    });
    assert!(value_matches(&plan, &sorted));
    let unsorted = Value::Struct(StructValue {
        fields: vec![FieldValue::Capture(vec![(3, vec![0x33]), (1, vec![0x11])])],
    });
    assert!(!value_matches(&plan, &unsorted));
}

#[test]
fn default_repr_width_is_one_byte() {
    let u = TypeDescriptor::TaggedUnion(UnionDescriptor {
        by_order: false,
        by_value: false,
        repr_width: None,
        variants: vec![variant(0, None), variant(0, None)],
    });
    let plan = compile(&u).unwrap();
    let v = Value::TaggedUnion(UnionValue { ordinal: 1, fields: Vec::new() });
    assert_eq!(encode(&plan, &v).unwrap(), vec![0x01]);
}
