use fam_core_lib::db;

#[test]
fn test_sqlcipher_and_migrations() {
    let mut store = db::Store::new();
    let mut now: i64 = 1_700_000_000;

    let init_result = db::init_db(&mut store);
    assert!(init_result.is_ok());

    let version_result = db::get_db_version(&store);
    assert!(version_result.is_ok());
    let version = version_result.unwrap();
    assert_eq!(version, "7");

    let account_result =
        db::create_account(&mut store, "Тестовый счёт".to_string(), "cash".to_string(), now);
    assert!(account_result.is_ok());
    let account_id = account_result.unwrap();

    let accounts_result = db::list_accounts(&store);
    assert!(accounts_result.is_ok());
    let accounts = accounts_result.unwrap();
    assert_eq!(accounts.len(), 1);
    assert_eq!(accounts[0].name, "Тестовый счёт");
    assert_eq!(accounts[0].acc_type, "cash");

    let op_result =
        db::add_operation(&mut store, account_id, 10_050, "Тестовая операция".to_string(), now);
    assert!(op_result.is_ok());
    let _op_id = op_result.unwrap();

    let ops_result = db::get_operations(&store, account_id);
    assert!(ops_result.is_ok());
    let operations = ops_result.unwrap();
    assert_eq!(operations.len(), 1);
    assert_eq!(operations[0].amount, 10_050);
    assert_eq!(operations[0].description, "Тестовая операция");

    let balance = db::get_account_balance(&store, account_id).unwrap();
    assert_eq!(balance, 10_050);

    now += 1;
    let op2_result = db::add_operation(&mut store, account_id, -2_030, "Расход".to_string(), now);
    assert!(op2_result.is_ok(), "{:?}", op2_result.err());

    let new_balance = db::get_account_balance(&store, account_id).unwrap();
    assert_eq!(new_balance, 10_050 - 2_030);

    let states_count = store.states.iter().filter(|s| s.account_id == account_id).count();
    assert_eq!(states_count, 2);
}

#[test]
fn test_migration_version_tracking() {
    let mut store = db::Store::new();

    db::init_db(&mut store).unwrap();

    let version: String = store.meta[0].clone();
    let version_num: i32 = version.parse().unwrap_or(0);
    assert!(version_num >= 4);
}
