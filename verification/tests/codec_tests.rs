use alloydb::codec::{deserialize_meta, deserialize_vector, serialize_meta, serialize_vector};
use alloydb::index::fields_equal;
use alloydb::metadata::{FieldValue, MetaData};
use alloydb::record::{RecordId, VectorRecord};

fn rich_fields() -> Vec<(String, FieldValue)> {
    vec![
        ("u".to_string(), FieldValue::UUIDValue(0x1234_5678_9abc_def0)),
        (
            "s".to_string(),
            FieldValue::StringValue("grüße, 世界".to_string()),
        ),
        ("a".to_string(), FieldValue::U8Value(250)),
        ("b".to_string(), FieldValue::U16Value(65_000)),
        ("c".to_string(), FieldValue::U32Value(4_000_000_000)),
        ("d".to_string(), FieldValue::U64Value(u64::MAX - 1)),
        ("e".to_string(), FieldValue::I8Value(-120)),
        ("f".to_string(), FieldValue::I16Value(-32_000)),
        ("g".to_string(), FieldValue::I32Value(-2_000_000_000)),
        ("h".to_string(), FieldValue::I64Value(i64::MIN + 1)),
        ("i".to_string(), FieldValue::F32Value(3.5f32.to_bits())),
        ("j".to_string(), FieldValue::F64Value((-0.25f64).to_bits())),
    ]
}

#[test]
fn metadata_round_trips_through_serialization() {
    let m = MetaData::new(
        RecordId { value: 42 },
        "the original text".to_string(),
        77,
        rich_fields(),
    );
    let bytes = serialize_meta(&m);
    let back = deserialize_meta(&bytes).unwrap();
    assert_eq!(back.id, m.id);
    assert_eq!(back.original_text, m.original_text);
    assert_eq!(back.vector_offset, m.vector_offset);
    assert!(fields_equal(&back.custom_fields, &m.custom_fields));
    assert_eq!(back.custom_fields.len(), m.custom_fields.len());
}

#[test]
fn vector_round_trips_through_serialization() {
    let v = VectorRecord::new(
        RecordId { value: 9 },
        vec![1.0f32.to_bits(), 2.5f32.to_bits(), (-3.75f32).to_bits()],
    );
    let bytes = serialize_vector(&v);
    let back = deserialize_vector(&bytes).unwrap();
    assert_eq!(back.id, v.id);
    assert_eq!(back.values, v.values);
}

#[test]
fn size_matches_serialized_length() {
    let m = MetaData::new(
        RecordId { value: 1 },
        "abc".to_string(),
        0,
        rich_fields(),
    );
    assert_eq!(m.size(), serialize_meta(&m).len());

    let empty = MetaData::new(RecordId { value: 2 }, String::new(), 0, Vec::new());
    assert_eq!(empty.size(), serialize_meta(&empty).len());
}

#[test]
fn size_of_empty_record_counts_the_fixed_parts() {
    // 16 bytes of identifier, 8 bytes of length prefix for the empty text
    // (an empty string costs exactly its prefix), 8 bytes of vector offset.
    let empty = MetaData::new(RecordId { value: 3 }, String::new(), 0, Vec::new());
    assert_eq!(empty.size(), 32);

    // One field: length-prefixed one-byte key, one tag byte, one payload byte.
    let one = MetaData::new(
        RecordId { value: 3 },
        String::new(),
        0,
        vec![("k".to_string(), FieldValue::U8Value(7))],
    );
    assert_eq!(one.size(), 32 + 8 + 1 + 1 + 1);
}

#[test]
fn truncated_or_garbled_bytes_do_not_parse() {
    assert!(deserialize_meta(&[1, 2, 3]).is_none());
    assert!(deserialize_vector(&[1, 2, 3]).is_none());

    let m = MetaData::new(RecordId { value: 5 }, "x".to_string(), 1, Vec::new());
    let bytes = serialize_meta(&m);
    assert!(deserialize_meta(&bytes[..bytes.len() - 1]).is_none());

    let v = VectorRecord::new(RecordId { value: 5 }, vec![1, 2]);
    let vb = serialize_vector(&v);
    assert!(deserialize_vector(&vb[..vb.len() - 1]).is_none());
}

#[test]
fn get_id_returns_the_identifier() {
    let m = MetaData::new(RecordId { value: 11 }, String::new(), 0, Vec::new());
    assert_eq!(m.get_id().value, 11);
    let v = VectorRecord::new(RecordId { value: 12 }, Vec::new());
    assert_eq!(v.get_id().value, 12);
}
