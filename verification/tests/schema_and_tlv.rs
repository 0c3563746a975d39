use strict_codec::codec::{decode, encode};
use strict_codec::compile::compile;
use strict_codec::schema::{
    DecodeError, FieldDescriptor, LeafType, ReprWidth, SchemaError, SkipKind, StructDescriptor,
    TypeDescriptor, UnionDescriptor, VariantDescriptor,
};
use strict_codec::values::{FieldValue, LeafValue, StructValue, UnionValue, Value};

fn variant(value: u64, explicit_value: Option<u64>) -> VariantDescriptor {
    VariantDescriptor { value, explicit_value, fields: Vec::new() }
}

fn union_desc(
    by_order: bool,
    by_value: bool,
    repr_width: Option<ReprWidth>,
    variants: Vec<VariantDescriptor>,
) -> TypeDescriptor {
    TypeDescriptor::TaggedUnion(UnionDescriptor { by_order, by_value, repr_width, variants })
}

#[test]
fn tag_conflict_detected() {
    let d = union_desc(false, true, None, vec![variant(5, None), variant(5, None)]);
    assert_eq!(compile(&d), Err(SchemaError::TagConflict { a: 0, b: 1, tag: 5 }));
}

#[test]
fn explicit_override_conflicts_with_ordinal() {
    // By-order tagging gives the first variant tag zero; an explicit zero
    // on the second variant collides with it.
    let d = union_desc(true, false, None, vec![variant(1, None), variant(2, Some(0))]);
    assert_eq!(compile(&d), Err(SchemaError::TagConflict { a: 0, b: 1, tag: 0 }));
}

#[test]
fn both_strategies_rejected() {
    let d = union_desc(true, true, None, vec![variant(0, None)]);
    assert_eq!(compile(&d), Err(SchemaError::InvalidTagStrategyCombination));
}

#[test]
fn tag_overflow_rejected() {
    let d = union_desc(false, true, Some(ReprWidth::W1), vec![variant(0x100, None)]);
    assert_eq!(compile(&d), Err(SchemaError::TagOverflow { variant: 0, tag: 0x100 }));
}

#[test]
fn tlv_roles_demand_the_directive() {
    let d = TypeDescriptor::Struct(StructDescriptor {
        use_tlv: false,
        fields: vec![FieldDescriptor::TlvTagged(2, LeafType::U8)],
    });
    assert_eq!(compile(&d), Err(SchemaError::TlvNotEnabled));
}

#[test]
fn multiple_capture_fields_rejected() {
    let d = TypeDescriptor::Struct(StructDescriptor {
        use_tlv: true,
        fields: vec![FieldDescriptor::TlvCapture, FieldDescriptor::TlvCapture],
    });
    assert_eq!(compile(&d), Err(SchemaError::MultipleTlvCaptureFields));
}

#[test]
fn duplicate_tlv_ids_rejected() {
    let d = TypeDescriptor::Struct(StructDescriptor {
        use_tlv: true,
        fields: vec![
            FieldDescriptor::TlvTagged(7, LeafType::U8),
            FieldDescriptor::TlvTagged(7, LeafType::U16),
        ],
    });
    assert_eq!(compile(&d), Err(SchemaError::TagConflict { a: 0, b: 1, tag: 7 }));
}

fn tlv_struct() -> TypeDescriptor {
    TypeDescriptor::Struct(StructDescriptor {
        use_tlv: true,
        fields: vec![
            FieldDescriptor::Normal(LeafType::U8),
            FieldDescriptor::TlvTagged(2, LeafType::U16),
            FieldDescriptor::TlvCapture,
        ],
    })
}

#[test]
fn tlv_known_field_round_trip() {
    let plan = compile(&tlv_struct()).unwrap();
    let v = Value::Struct(StructValue {
        fields: vec![
            FieldValue::Leaf(LeafValue::U8(9)),
            FieldValue::OptLeaf(Some(LeafValue::U16(0x1234))),
            FieldValue::Capture(Vec::new()),
        ],
    });
    let bytes = encode(&plan, &v).unwrap();
    // Main body, then one entry: id 2, length 2, payload 34 12.
    assert_eq!(bytes, vec![9, 0x02, 0x00, 0x02, 0x00, 0x34, 0x12]);
    let back = decode(&plan, &bytes).unwrap();
    assert_eq!(back, v);
}

#[test]
fn tlv_absent_field_decodes_absent() {
    let plan = compile(&tlv_struct()).unwrap();
    let bytes = vec![9u8];
    let back = decode(&plan, &bytes).unwrap();
    match back {
        Value::Struct(sv) => {
            assert_eq!(sv.fields[1], FieldValue::OptLeaf(None));
            assert_eq!(sv.fields[2], FieldValue::Capture(Vec::new()));
        },
        _ => panic!("expected a structure value"),
    }
}

#[test]
fn tlv_unknown_even_id_fails() {
    let plan = compile(&tlv_struct()).unwrap();
    // One unknown entry with the even id 4.
    let bytes = vec![9u8, 0x04, 0x00, 0x02, 0x00, 0xAA, 0xBB];
    assert_eq!(decode(&plan, &bytes), Err(DecodeError::UnknownMandatoryTlv(4)));
}

#[test]
fn tlv_unknown_odd_id_captured() {
    let plan = compile(&tlv_struct()).unwrap();
    // The same stream with the id changed to the adjacent odd value.
    let bytes = vec![9u8, 0x05, 0x00, 0x02, 0x00, 0xAA, 0xBB];
    let back = decode(&plan, &bytes).unwrap();
    match back {
        Value::Struct(sv) => {
            assert_eq!(sv.fields[2], FieldValue::Capture(vec![(5, vec![0xAA, 0xBB])]));
        },
        _ => panic!("expected a structure value"),
    }
}

#[test]
fn tlv_captured_entries_reencode_in_ascending_order() {
    let plan = compile(&tlv_struct()).unwrap();
    // Two unknown odd entries arriving in descending id order.
    let bytes = vec![9u8, 0x07, 0x00, 0x01, 0x00, 0x11, 0x05, 0x00, 0x01, 0x00, 0x22];
    let back = decode(&plan, &bytes).unwrap();
    match &back {
        Value::Struct(sv) => {
            assert_eq!(
                sv.fields[2],
                FieldValue::Capture(vec![(5, vec![0x22]), (7, vec![0x11])]),
            );
        },
        _ => panic!("expected a structure value"),
    }
    let re = encode(&plan, &back).unwrap();
    assert_eq!(re, vec![9u8, 0x05, 0x00, 0x01, 0x00, 0x22, 0x07, 0x00, 0x01, 0x00, 0x11]);
}

#[test]
fn tlv_known_field_payload_leftover_rejected() {
    let plan = compile(&tlv_struct()).unwrap();
    // The known id 2 carries a 16-bit integer, but the entry declares
    // three payload bytes: one byte would be left over inside the entry.
    let bytes = vec![9u8, 0x02, 0x00, 0x03, 0x00, 0x34, 0x12, 0xFF];
    assert_eq!(decode(&plan, &bytes), Err(DecodeError::LengthMismatch));
}

#[test]
fn skipped_union_field_restored_to_default() {
    let d = TypeDescriptor::TaggedUnion(UnionDescriptor {
        by_order: true,
        by_value: false,
        repr_width: None,
        variants: vec![VariantDescriptor {
            value: 0,
            explicit_value: None,
            fields: vec![
                FieldDescriptor::Normal(LeafType::U8),
                FieldDescriptor::Skipped(SkipKind::Plain(LeafType::U32)),
            ],
        }],
    });
    let plan = compile(&d).unwrap();
    let v = Value::TaggedUnion(UnionValue {
        ordinal: 0,
        fields: vec![
            FieldValue::Leaf(LeafValue::U8(5)),
            FieldValue::Leaf(LeafValue::U32(77)),
        ],
    });
    let bytes = encode(&plan, &v).unwrap();
    assert_eq!(bytes, vec![0x00, 0x05]);
    let back = decode(&plan, &bytes).unwrap();
    match back {
        Value::TaggedUnion(uv) => {
            assert_eq!(uv.ordinal, 0);
            assert_eq!(uv.fields[0], FieldValue::Leaf(LeafValue::U8(5)));
            assert_eq!(uv.fields[1], FieldValue::Leaf(LeafValue::U32(0)));
        },
        _ => panic!("expected a union value"),
    }
}

#[test]
fn tlv_truncated_entry_rejected() {
    let plan = compile(&tlv_struct()).unwrap();
    // An entry header cut off after the id.
    let bytes = vec![9u8, 0x05, 0x00];
    assert_eq!(decode(&plan, &bytes), Err(DecodeError::TruncatedInput));
}

#[test]
fn tlv_entry_payload_overrun_rejected() {
    let plan = compile(&tlv_struct()).unwrap();
    // A declared payload length running past the end of the input.
    let bytes = vec![9u8, 0x05, 0x00, 0x04, 0x00, 0xAA];
    assert_eq!(decode(&plan, &bytes), Err(DecodeError::LengthMismatch));
}
