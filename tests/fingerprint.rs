use pcf_del_archive::error::CascadeError;
use pcf_del_archive::fingerprint::{
    calculate_column_hash, calculate_table_hash, check_schema, schema_hash, ColumnInfo, TableSchema,
};

fn column(name: &str, ty: &str) -> ColumnInfo {
    ColumnInfo { name: name.to_string(), declared_type: ty.to_string() }
}

fn users() -> Vec<TableSchema> {
    vec![TableSchema {
        name: "users".to_string(),
        columns: vec![column("id", "INTEGER"), column("name", "TEXT")],
    }]
}

const USERS_FINGERPRINT: &str = "635c1113d930fc6049dd8dcaa15c44934207003fc55e198d4913407c337bce98";

#[test]
fn column_hash_exact_value() {
    assert_eq!(
        calculate_column_hash("id", "INTEGER"),
        "2b1ce8dd362cce5317611afdcab2ba78bb7d8724d9802a5e3fe020d5f65b4f51"
    );
}

#[test]
fn table_hash_exact_value() {
    let hashes = vec![calculate_column_hash("id", "INTEGER"), calculate_column_hash("name", "TEXT")];
    assert_eq!(
        calculate_table_hash("users", &hashes),
        "16189957db424b41dd317642c27ef724f5b6222c231440b7a0715924969bab95"
    );
}

#[test]
fn schema_hash_exact_value() {
    assert_eq!(schema_hash(&users()), USERS_FINGERPRINT);
}

#[test]
fn empty_schema_hash() {
    assert_eq!(
        schema_hash(&[]),
        "e3b0c44298fc1c149afbf4c8996fb92427ae41e4649b934ca495991b7852b855"
    );
}

#[test]
fn fingerprint_is_deterministic() {
    assert_eq!(schema_hash(&users()), schema_hash(&users()));
}

#[test]
fn fingerprint_changes_with_schema() {
    let base = schema_hash(&users());
    let mut renamed = users();
    renamed[0].columns[1].name = "full_name".to_string();
    assert_ne!(schema_hash(&renamed), base);
    let mut retyped = users();
    retyped[0].columns[0].declared_type = "TEXT".to_string();
    assert_ne!(schema_hash(&retyped), base);
    let mut added = users();
    added.push(TableSchema { name: "orders".to_string(), columns: vec![column("id", "INTEGER")] });
    assert_ne!(schema_hash(&added), base);
    assert_ne!(schema_hash(&[]), base);
    let mut table_renamed = users();
    table_renamed[0].name = "people".to_string();
    assert_ne!(schema_hash(&table_renamed), base);
}

#[test]
fn check_schema_accepts_matching_fingerprint() {
    assert!(check_schema(&users(), USERS_FINGERPRINT).is_ok());
}

#[test]
fn check_schema_reports_mismatch() {
    match check_schema(&users(), "deadbeef") {
        Err(CascadeError::SchemaMismatch { expected, actual }) => {
            assert_eq!(expected, "deadbeef");
            assert_eq!(actual, USERS_FINGERPRINT);
        }
        other => panic!("unexpected result: {:?}", other),
    }
}

#[test]
fn digests_are_64_lowercase_hex_digits() {
    for h in [
        calculate_column_hash("Name", "TEXT"),
        calculate_table_hash("T", &[]),
        schema_hash(&users()),
    ] {
        assert_eq!(h.len(), 64);
        assert!(h.chars().all(|c| c.is_ascii_digit() || ('a'..='f').contains(&c)));
    }
}
