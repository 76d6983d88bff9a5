use alloydb::db::{AlloyDB, Record};
use alloydb::metadata::FieldValue;
use alloydb::AlloyError;

fn bits(values: &[f32]) -> Vec<u32> {
    values.iter().map(|v| v.to_bits()).collect()
}

fn fresh_db(dir: &tempfile::TempDir) -> AlloyDB {
    let path = dir.path().join("store");
    AlloyDB::create(path.to_str().unwrap()).unwrap()
}

#[test]
fn basic_insert_and_query_through_the_facade() {
    let dir = tempfile::tempdir().unwrap();
    let mut db = fresh_db(&dir);
    db.create_index("docs").unwrap();

    let record = Record { metadata: Vec::new(), vector: bits(&[1.0, 2.0, 3.0]) };
    let id = db.upsert("docs", record).unwrap();

    let pairs = db.query("docs", Some(&id), None).unwrap();
    assert_eq!(pairs.len(), 1);
    assert_eq!(pairs[0].1.values, bits(&[1.0, 2.0, 3.0]));
}

#[test]
fn duplicate_index_names_are_rejected() {
    let dir = tempfile::tempdir().unwrap();
    let mut db = fresh_db(&dir);
    db.create_index("docs").unwrap();
    assert_eq!(db.create_index("docs"), Err(AlloyError::DuplicateIndex));
    db.create_index("other").unwrap();
}

#[test]
fn unknown_index_names_are_not_found() {
    let dir = tempfile::tempdir().unwrap();
    let mut db = fresh_db(&dir);
    let record = Record { metadata: Vec::new(), vector: bits(&[1.0]) };
    assert!(matches!(
        db.upsert("missing", record),
        Err(AlloyError::IndexNotFound)
    ));
    assert!(matches!(
        db.query("missing", None, None),
        Err(AlloyError::IndexNotFound)
    ));
}

#[test]
fn facade_query_without_selectors_is_invalid() {
    let dir = tempfile::tempdir().unwrap();
    let mut db = fresh_db(&dir);
    db.create_index("docs").unwrap();
    assert!(matches!(
        db.query("docs", None, None),
        Err(AlloyError::InvalidQuery)
    ));
}

#[test]
fn facade_query_by_metadata_filters_exactly() {
    let dir = tempfile::tempdir().unwrap();
    let mut db = fresh_db(&dir);
    db.create_index("docs").unwrap();

    let bar = vec![(
        "foo".to_string(),
        FieldValue::StringValue("bar".to_string()),
    )];
    let baz = vec![(
        "foo".to_string(),
        FieldValue::StringValue("baz".to_string()),
    )];
    let id_bar = db
        .upsert("docs", Record { metadata: bar.clone(), vector: bits(&[1.0]) })
        .unwrap();
    db.upsert("docs", Record { metadata: baz, vector: bits(&[2.0]) })
        .unwrap();

    let pairs = db.query("docs", None, Some(&bar)).unwrap();
    assert_eq!(pairs.len(), 1);
    assert_eq!(pairs[0].0.id, id_bar);
    assert_eq!(pairs[0].1.values, bits(&[1.0]));
}
