use fam_core_lib::db;

fn account_version_id(store: &db::Store, account_id: i64) -> i64 {
    store
        .version_log
        .iter()
        .find(|r| r.entity == "account" && r.entity_id == account_id)
        .expect("Failed to get version_id")
        .id
}

fn overwrite_payload(store: &mut db::Store, version_id: i64, payload: &str) {
    for record in store.version_log.iter_mut() {
        if record.id == version_id {
            record.payload = payload.to_string();
        }
    }
}

#[test]
fn test_verify_version_signature_valid() {
    let mut store = db::Store::new();
    let now: i64 = 1_700_000_000;

    db::init_db(&mut store).expect("Failed to init db");

    let account_id =
        db::create_account(&mut store, "Test Account".to_string(), "cash".to_string(), now)
            .expect("Failed to create account");
    let version_id = account_version_id(&store, account_id);

    let is_valid =
        db::verify_version_signature(&store, version_id).expect("Failed to verify signature");
    assert!(is_valid, "Signature should be valid");
}

#[test]
fn test_verify_version_signature_invalid() {
    let mut store = db::Store::new();
    let now: i64 = 1_700_000_000;

    db::init_db(&mut store).expect("Failed to init db");

    let account_id =
        db::create_account(&mut store, "Original Account".to_string(), "cash".to_string(), now)
            .expect("Failed to create account");
    let version_id = account_version_id(&store, account_id);

    overwrite_payload(
        &mut store,
        version_id,
        r#"{"id":1,"name":"TAMPERED","acc_type":"cash","created_at":1234567890}"#,
    );

    let is_valid =
        db::verify_version_signature(&store, version_id).expect("Failed to verify signature");
    assert!(!is_valid, "Tampered signature should be invalid");
}

#[test]
fn test_verify_version_signature_not_found() {
    let mut store = db::Store::new();

    db::init_db(&mut store).expect("Failed to init db");

    let result = db::verify_version_signature(&store, 999);
    assert!(result.is_err(), "Should return error for non-existent version_id");
    assert_eq!(result, Err(db::DbError::NotFound));
}

#[test]
fn test_verify_multiple_versions() {
    let mut store = db::Store::new();
    let now: i64 = 1_700_000_000;

    db::init_db(&mut store).expect("Failed to init db");

    let acc1 = db::create_account(&mut store, "Account 1".to_string(), "cash".to_string(), now)
        .expect("Failed to create account 1");
    let _acc2 =
        db::create_account(&mut store, "Account 2".to_string(), "deposit".to_string(), now)
            .expect("Failed to create account 2");
    let _acc3 =
        db::create_account(&mut store, "Account 3".to_string(), "investment".to_string(), now)
            .expect("Failed to create account 3");
    let _op_id = db::add_operation(&mut store, acc1, 100_000, "Test op".to_string(), now)
        .expect("Failed to add operation");

    let mut version_ids: Vec<i64> = store.version_log.iter().map(|r| r.id).collect();
    version_ids.sort();
    assert_eq!(version_ids, vec![1, 2, 3, 4, 5]);

    for &version_id in version_ids.iter() {
        let is_valid = db::verify_version_signature(&store, version_id)
            .expect(&format!("Failed to verify version {}", version_id));
        assert!(is_valid, "Version {} should be valid", version_id);
    }

    let tampered_id = version_ids[1];
    overwrite_payload(&mut store, tampered_id, "{\"tampered\":true}");

    for &version_id in version_ids.iter() {
        let is_valid = db::verify_version_signature(&store, version_id)
            .expect(&format!("Failed to verify version {}", version_id));
        if version_id == tampered_id {
            assert!(!is_valid, "Tampered version {} should be invalid", version_id);
        } else {
            assert!(is_valid, "Version {} should still be valid", version_id);
        }
    }
}
