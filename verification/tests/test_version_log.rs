use fam_core_lib::db;

#[test]
fn test_write_version_log() {
    let mut store = db::Store::new();
    let now: i64 = 1_700_000_000;

    db::init_db(&mut store).expect("DB init failed");

    let account_id =
        db::create_account(&mut store, "Test Account".to_string(), "cash".to_string(), now)
            .expect("Account creation failed");

    assert_eq!(store.version_log.len(), 1);

    let record = &store.version_log[0];
    assert_eq!(record.entity, "account");
    assert_eq!(record.entity_id, account_id);
    assert_eq!(record.action, "create");
    assert!(record.payload.contains("\"name\":\"Test Account\""));
    assert!(record.payload.contains("\"type\":\"cash\""));
    assert_eq!(
        record.payload,
        "{\"id\":1,\"name\":\"Test Account\",\"type\":\"cash\",\"created_at\":1700000000}"
    );
}

#[test]
fn test_serialize_entity() {
    let account = db::Account {
        id: 123,
        name: "Тестовый счёт".to_string(),
        acc_type: "cash".to_string(),
        created_at: 1700000000,
    };

    let json = db::serialize_entity(&account).expect("Account serialization failed");
    assert!(json.contains("\"id\":123"));
    assert!(json.contains("\"name\":\"Тестовый счёт\""));
    assert!(json.contains("\"type\":\"cash\""));
    assert!(json.contains("\"created_at\":1700000000"));

    let operation = db::Operation {
        id: 456,
        account_id: 123,
        amount: 10_050,
        description: "Тестовая операция".to_string(),
        ts: 1700000100,
    };

    let json = db::serialize_entity(&operation).expect("Operation serialization failed");
    assert!(json.contains("\"id\":456"));
    assert!(json.contains("\"account_id\":123"));
    assert!(json.contains("\"amount\":100.5"));
    assert!(json.contains("\"description\":\"Тестовая операция\""));
    assert!(json.contains("\"ts\":1700000100"));

    let state = db::State { id: 789, account_id: 123, balance: 123_456, ts: 1700000200 };

    let json = db::serialize_entity(&state).expect("State serialization failed");
    assert!(json.contains("\"id\":789"));
    assert!(json.contains("\"account_id\":123"));
    assert!(json.contains("\"balance\":1234.56"));
    assert!(json.contains("\"ts\":1700000200"));
}

#[test]
fn test_add_operation_logging() {
    let mut store = db::Store::new();
    let now: i64 = 1_700_000_000;

    db::init_db(&mut store).expect("DB init failed");

    let account_id =
        db::create_account(&mut store, "Test Account".to_string(), "cash".to_string(), now)
            .expect("Account creation failed");

    let operation_id =
        db::add_operation(&mut store, account_id, 10_050, "Тестовая операция".to_string(), now)
            .expect("Operation creation failed");

    assert_eq!(store.version_log.len(), 3);

    let record = store.version_log.iter().find(|r| r.entity == "operation").unwrap();
    assert_eq!(record.entity, "operation");
    assert_eq!(record.entity_id, operation_id);
    assert_eq!(record.action, "create");
    assert!(record.payload.contains("\"amount\":100.5"));
    assert!(record.payload.contains("\"description\":\"Тестовая операция\""));

    let state_record = store.version_log.iter().find(|r| r.entity == "state").unwrap();
    assert_eq!(state_record.entity, "state");
    assert_eq!(state_record.action, "create");
    assert!(state_record.payload.contains("\"balance\":100.5"));
    assert!(state_record.payload.contains(&format!("\"account_id\":{}", account_id)));
}

#[test]
fn test_list_version_log() {
    let mut store = db::Store::new();
    let now: i64 = 1_700_000_000;

    db::init_db(&mut store).expect("DB init failed");

    let account1_id =
        db::create_account(&mut store, "Account 1".to_string(), "cash".to_string(), now).unwrap();
    let _account2_id =
        db::create_account(&mut store, "Account 2".to_string(), "card".to_string(), now).unwrap();

    db::add_operation(&mut store, account1_id, 10_000, "Op 1".to_string(), now).unwrap();

    let all_records = db::list_version_log(&store, None, None).unwrap();
    assert_eq!(all_records.len(), 4);

    let account_records =
        db::list_version_log(&store, Some("account".to_string()), None).unwrap();
    assert_eq!(account_records.len(), 2);
    for record in &account_records {
        assert_eq!(record.entity, "account");
    }

    let operation_records =
        db::list_version_log(&store, Some("operation".to_string()), None).unwrap();
    assert_eq!(operation_records.len(), 1);
    assert_eq!(operation_records[0].entity, "operation");

    let state_records = db::list_version_log(&store, Some("state".to_string()), None).unwrap();
    assert_eq!(state_records.len(), 1);

    let account1_records = db::list_version_log(&store, None, Some(account1_id)).unwrap();
    assert_eq!(account1_records.len(), 3);

    let specific_records =
        db::list_version_log(&store, Some("account".to_string()), Some(account1_id)).unwrap();
    assert_eq!(specific_records.len(), 1);
    assert_eq!(specific_records[0].entity, "account");
    assert_eq!(specific_records[0].entity_id, account1_id);
    assert!(specific_records[0].payload.contains("Account 1"));
}
