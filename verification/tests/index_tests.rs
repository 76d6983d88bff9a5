use alloydb::index::{fields_equal, Index};
use alloydb::metadata::FieldValue;
use alloydb::AlloyError;

fn bits(values: &[f32]) -> Vec<u32> {
    values.iter().map(|v| v.to_bits()).collect()
}

#[test]
fn test_insert_and_get() {
    let dir = tempfile::tempdir().unwrap();
    let db = sled::open(dir.path()).unwrap();
    let mut index = Index::new("test", &db).unwrap();

    let metadata: Vec<(String, FieldValue)> = Vec::new();
    let vector = bits(&[1.0, 2.0, 3.0]);

    let id = index.insert(metadata.clone(), vector.clone()).unwrap();

    let metadata_record = index.get_metadata(&id).unwrap().unwrap();
    let vector_record = index.get_vector(&id).unwrap().unwrap();

    assert!(fields_equal(&metadata_record.custom_fields, &metadata));
    assert_eq!(vector_record.values, vector);
}

#[test]
fn test_query_by_id() {
    let dir = tempfile::tempdir().unwrap();
    let db = sled::open(dir.path()).unwrap();
    let mut index = Index::new("test", &db).unwrap();

    let metadata: Vec<(String, FieldValue)> = Vec::new();
    let vector = bits(&[1.0, 2.0, 3.0]);

    let id = index.insert(metadata.clone(), vector.clone()).unwrap();

    let records = index.query(Some(&id), None).unwrap();

    assert_eq!(records.len(), 1);
    assert_eq!(records[0].1.values, vector);
}

#[test]
fn test_query_by_metadata() {
    let dir = tempfile::tempdir().unwrap();
    let db = sled::open(dir.path()).unwrap();
    let mut index = Index::new("test", &db).unwrap();

    let metadata1 = vec![(
        "foo".to_string(),
        FieldValue::StringValue("bar".to_string()),
    )];
    let vector1 = bits(&[1.0, 2.0, 3.0]);

    index.insert(metadata1.clone(), vector1.clone()).unwrap();

    let search_metadata = vec![(
        "foo".to_string(),
        FieldValue::StringValue("bar".to_string()),
    )];
    let records = index.query(None, Some(&search_metadata)).unwrap();

    assert_eq!(records.len(), 1);
    assert_eq!(records[0].1.values, vector1);
}

#[test]
fn test_query_by_id_and_metadata() {
    let dir = tempfile::tempdir().unwrap();
    let db = sled::open(dir.path()).unwrap();
    let mut index = Index::new("test", &db).unwrap();

    let metadata1 = vec![(
        "foo".to_string(),
        FieldValue::StringValue("bar".to_string()),
    )];
    let vector1 = bits(&[1.0, 2.0, 3.0]);

    let id1 = index.insert(metadata1.clone(), vector1.clone()).unwrap();

    let search_metadata = vec![(
        "foo".to_string(),
        FieldValue::StringValue("bar".to_string()),
    )];
    let records = index.query(Some(&id1), Some(&search_metadata)).unwrap();

    assert_eq!(records.len(), 1);
    assert_eq!(records[0].1.values, vector1);
}

#[test]
fn query_with_no_selector_is_invalid() {
    let dir = tempfile::tempdir().unwrap();
    let db = sled::open(dir.path()).unwrap();
    let index = Index::new("test", &db).unwrap();

    let r = index.query(None, None);
    assert!(matches!(r, Err(AlloyError::InvalidQuery)));
}

#[test]
fn metadata_filter_is_exact_set_equality() {
    let dir = tempfile::tempdir().unwrap();
    let db = sled::open(dir.path()).unwrap();
    let mut index = Index::new("test", &db).unwrap();

    let bar = vec![(
        "foo".to_string(),
        FieldValue::StringValue("bar".to_string()),
    )];
    let baz = vec![(
        "foo".to_string(),
        FieldValue::StringValue("baz".to_string()),
    )];
    let v1 = bits(&[1.0, 0.0]);
    let v2 = bits(&[0.0, 1.0]);

    let id_bar = index.insert(bar.clone(), v1.clone()).unwrap();
    let id_baz = index.insert(baz.clone(), v2.clone()).unwrap();

    let records = index.query(None, Some(&bar)).unwrap();
    assert_eq!(records.len(), 1);
    assert_eq!(records[0].0.id, id_bar);
    assert_eq!(records[0].1.values, v1);

    // A filter that is a subset of a record's fields matches nothing: the
    // comparison is set equality, not containment.
    let superset = vec![
        (
            "foo".to_string(),
            FieldValue::StringValue("bar".to_string()),
        ),
        ("extra".to_string(), FieldValue::U8Value(1)),
    ];
    let id_both = index.insert(superset.clone(), v2.clone()).unwrap();
    assert_ne!(id_both, id_baz);
    // Only the record whose fields are exactly {"foo": "bar"} comes back.
    let exact = index
        .query(None, Some(&vec![(
            "foo".to_string(),
            FieldValue::StringValue("bar".to_string()),
        )]))
        .unwrap();
    assert_eq!(exact.len(), 1);
    assert_eq!(exact[0].0.id, id_bar);
}

#[test]
fn pairing_holds_after_insert() {
    let dir = tempfile::tempdir().unwrap();
    let db = sled::open(dir.path()).unwrap();
    let mut index = Index::new("test", &db).unwrap();

    let id = index.insert(Vec::new(), bits(&[4.0])).unwrap();
    assert!(index.get_metadata(&id).unwrap().is_some());
    assert!(index.get_vector(&id).unwrap().is_some());
}

#[test]
fn point_lookup_of_absent_id_is_empty() {
    let dir = tempfile::tempdir().unwrap();
    let db = sled::open(dir.path()).unwrap();
    let mut index = Index::new("test", &db).unwrap();
    index.insert(Vec::new(), bits(&[1.0])).unwrap();

    let other = alloydb::record::RecordId { value: 7 };
    let records = index.query(Some(&other), None).unwrap();
    assert_eq!(records.len(), 0);
    assert!(index.get_metadata(&other).unwrap().is_none());
}

#[test]
fn fresh_ids_are_version_four_and_distinct() {
    let dir = tempfile::tempdir().unwrap();
    let db = sled::open(dir.path()).unwrap();
    let mut index = Index::new("test", &db).unwrap();

    let a = index.insert(Vec::new(), bits(&[1.0])).unwrap();
    let b = index.insert(Vec::new(), bits(&[1.0])).unwrap();
    assert_ne!(a, b);
    assert_eq!((a.value >> 76) & 0xf, 4);
    assert_eq!((a.value >> 62) & 0x3, 2);
}

#[test]
fn all_metadata_and_all_vectors_list_every_record() {
    let dir = tempfile::tempdir().unwrap();
    let db = sled::open(dir.path()).unwrap();
    let mut index = Index::new("test", &db).unwrap();

    let id1 = index
        .insert(
            vec![("a".to_string(), FieldValue::U8Value(1))],
            bits(&[1.0]),
        )
        .unwrap();
    let id2 = index
        .insert(
            vec![("b".to_string(), FieldValue::U8Value(2))],
            bits(&[2.0]),
        )
        .unwrap();

    let metas = index.all_metadata().unwrap();
    assert_eq!(metas.len(), 2);
    let mut meta_ids: Vec<u128> = metas.iter().map(|m| m.id.value).collect();
    meta_ids.sort();
    let mut want = vec![id1.value, id2.value];
    want.sort();
    assert_eq!(meta_ids, want);

    let vectors = index.all_vectors().unwrap();
    assert_eq!(vectors.len(), 2);
    let mut vec_ids: Vec<u128> = vectors.iter().map(|v| v.id.value).collect();
    vec_ids.sort();
    assert_eq!(vec_ids, want);
}

#[test]
fn missing_vector_counterpart_is_a_consistency_error() {
    let dir = tempfile::tempdir().unwrap();
    let db = sled::open(dir.path()).unwrap();
    let mut index = Index::new("test", &db).unwrap();

    let fields = vec![(
        "foo".to_string(),
        FieldValue::StringValue("bar".to_string()),
    )];
    let id = index.insert(fields.clone(), bits(&[1.0])).unwrap();

    // Break the pairing invariant behind the library's back: remove the
    // vector entry through a second handle to the same tree.
    let tree = db.open_tree("test").unwrap();
    let mut vk = vec![0x76u8, 0x2e];
    vk.extend_from_slice(&id.value.to_le_bytes());
    tree.remove(vk).unwrap();

    assert!(matches!(
        index.query(Some(&id), None),
        Err(AlloyError::ConsistencyError)
    ));
    assert!(matches!(
        index.query(None, Some(&fields)),
        Err(AlloyError::ConsistencyError)
    ));
}

#[test]
fn malformed_stored_entry_is_corrupt_format() {
    let dir = tempfile::tempdir().unwrap();
    let db = sled::open(dir.path()).unwrap();
    let mut index = Index::new("test", &db).unwrap();
    index.insert(Vec::new(), bits(&[1.0])).unwrap();

    // Plant bytes that do not parse as a metadata record, through a second
    // handle to the same tree.
    let tree = db.open_tree("test").unwrap();
    let mut mk = vec![0x6du8, 0x2e];
    mk.extend_from_slice(&7u128.to_le_bytes());
    tree.insert(mk, &[1, 2, 3][..]).unwrap();

    assert!(matches!(
        index.all_metadata(),
        Err(AlloyError::CorruptFormat)
    ));
    let planted = alloydb::record::RecordId { value: 7 };
    assert!(matches!(
        index.get_metadata(&planted),
        Err(AlloyError::CorruptFormat)
    ));
}

#[test]
fn namespace_scans_come_in_ascending_key_order_and_restart_alike() {
    let dir = tempfile::tempdir().unwrap();
    let db = sled::open(dir.path()).unwrap();
    let mut index = Index::new("test", &db).unwrap();

    for n in 0..5u32 {
        index
            .insert(vec![("n".to_string(), FieldValue::U32Value(n))], bits(&[n as f32]))
            .unwrap();
    }

    let key_of = |id: u128| -> Vec<u8> {
        let mut k = vec![0x6du8, 0x2e];
        k.extend_from_slice(&id.to_le_bytes());
        k
    };
    let metas = index.all_metadata().unwrap();
    assert_eq!(metas.len(), 5);
    for w in metas.windows(2) {
        assert!(key_of(w[0].id.value) < key_of(w[1].id.value));
    }

    // Re-invoking on the unchanged index yields the same sequence.
    let again = index.all_metadata().unwrap();
    let ids: Vec<u128> = metas.iter().map(|m| m.id.value).collect();
    let ids_again: Vec<u128> = again.iter().map(|m| m.id.value).collect();
    assert_eq!(ids, ids_again);
}
