use fam_core_lib::db;

#[test]
fn test_version_signatures_migration() {
    let mut store = db::Store::new();
    let now: i64 = 1_700_000_000;

    db::init_db(&mut store).expect("Failed to init db");

    let version = db::get_db_version(&store).expect("Failed to get version");
    assert!(version.parse::<i32>().unwrap() >= 7, "Database version should be at least 7");

    assert!(store.schema.version_signatures, "Table version_signatures should exist");
    assert_eq!(store.version_signatures.len(), 0);

    let test_signature = vec![0u8; 64];
    let test_public_key = vec![1u8; 32];

    store.version_log.push(db::VersionLogRecord {
        id: 1,
        entity: "test".to_string(),
        entity_id: 1,
        action: "create".to_string(),
        payload: "{}".to_string(),
        ts: now,
    });
    let version_log_id = 1;

    db::audit::record_signature(
        &mut store,
        version_log_id,
        test_signature.clone(),
        test_public_key.clone(),
        now,
    )
    .expect("Failed to insert signature");

    let row = store
        .version_signatures
        .iter()
        .find(|g| g.version_id == version_log_id)
        .expect("Failed to read signature");
    assert_eq!(row.id, 1);
    assert_eq!(row.ts, now);
    assert_eq!(row.signature.len(), 64, "Signature should be 64 bytes");
    assert_eq!(row.public_key.len(), 32, "Public key should be 32 bytes");
    assert_eq!(row.signature, test_signature);
    assert_eq!(row.public_key, test_public_key);

    // A signature of zeros is no signature of the payload.
    assert_eq!(db::verify_version_signature(&store, version_log_id).ok().unwrap_or(false), false);
}
