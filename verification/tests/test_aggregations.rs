use fam_core_lib::db;

#[test]
fn test_aggregation_functions() {
    let mut store = db::Store::new();
    let mut now: i64 = 1_700_000_000;

    db::init_db(&mut store).expect("Failed to init db");

    let acc1 = db::create_account(&mut store, "Account 1".to_string(), "cash".to_string(), now)
        .expect("Failed to create account 1");
    let acc2 = db::create_account(&mut store, "Account 2".to_string(), "bank".to_string(), now)
        .expect("Failed to create account 2");
    let acc3 = db::create_account(&mut store, "Account 3".to_string(), "card".to_string(), now)
        .expect("Failed to create account 3");

    let balance1 = db::get_account_balance(&store, acc1).expect("Failed to get balance 1");
    let balance2 = db::get_account_balance(&store, acc2).expect("Failed to get balance 2");
    let balance3 = db::get_account_balance(&store, acc3).expect("Failed to get balance 3");

    assert_eq!(balance1, 0, "Account 1 should start with 0.0 balance");
    assert_eq!(balance2, 0, "Account 2 should start with 0.0 balance");
    assert_eq!(balance3, 0, "Account 3 should start with 0.0 balance");

    let net_worth = db::get_net_worth(&store).expect("Failed to get net worth");
    assert_eq!(net_worth, 0, "Initial net worth should be 0.0");

    db::add_operation(&mut store, acc1, 100_000, "Initial deposit".to_string(), now)
        .expect("Failed to add operation 1");
    now += 1;
    db::add_operation(&mut store, acc2, 50_000, "Salary".to_string(), now)
        .expect("Failed to add operation 2");
    now += 1;
    db::add_operation(&mut store, acc1, -20_000, "Purchase".to_string(), now)
        .expect("Failed to add operation 3");
    now += 1;
    db::add_operation(&mut store, acc3, 30_000, "Transfer".to_string(), now)
        .expect("Failed to add operation 4");

    let balance1_updated =
        db::get_account_balance(&store, acc1).expect("Failed to get updated balance 1");
    let balance2_updated =
        db::get_account_balance(&store, acc2).expect("Failed to get updated balance 2");
    let balance3_updated =
        db::get_account_balance(&store, acc3).expect("Failed to get updated balance 3");

    assert_eq!(balance1_updated, 80_000, "Account 1 balance should be 800.0 (1000 - 200)");
    assert_eq!(balance2_updated, 50_000, "Account 2 balance should be 500.0");
    assert_eq!(balance3_updated, 30_000, "Account 3 balance should be 300.0");

    let net_worth_updated = db::get_net_worth(&store).expect("Failed to get updated net worth");
    assert_eq!(net_worth_updated, 160_000, "Net worth should be 1600.0 (800 + 500 + 300)");

    now += 1;
    db::add_operation(&mut store, acc1, 10_000, "Bonus".to_string(), now)
        .expect("Failed to add operation 5");

    let balance1_final =
        db::get_account_balance(&store, acc1).expect("Failed to get final balance 1");
    assert_eq!(balance1_final, 90_000, "Account 1 final balance should be 900.0 (800 + 100)");

    let net_worth_final = db::get_net_worth(&store).expect("Failed to get final net worth");
    assert_eq!(net_worth_final, 170_000, "Final net worth should be 1700.0 (900 + 500 + 300)");
}
