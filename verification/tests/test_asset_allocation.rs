use fam_core_lib::db;

#[test]
fn test_asset_allocation() {
    let mut store = db::Store::new();
    let mut now: i64 = 1_700_000_000;

    db::init_db(&mut store).expect("Failed to init db");

    let allocation_empty = db::get_asset_allocation(&store).expect("Failed to get empty allocation");
    assert_eq!(allocation_empty.len(), 0, "Empty database should have no asset allocation");

    let acc1 = db::create_account(&mut store, "Cash Wallet".to_string(), "cash".to_string(), now)
        .expect("Failed to create account 1");
    let acc2 =
        db::create_account(&mut store, "Savings Account".to_string(), "deposit".to_string(), now)
            .expect("Failed to create account 2");
    let acc3 =
        db::create_account(&mut store, "Checking Account".to_string(), "bank".to_string(), now)
            .expect("Failed to create account 3");
    let acc4 = db::create_account(&mut store, "Credit Card".to_string(), "card".to_string(), now)
        .expect("Failed to create account 4");
    let acc5 = db::create_account(&mut store, "Second Cash".to_string(), "cash".to_string(), now)
        .expect("Failed to create account 5");

    let allocation_no_ops =
        db::get_asset_allocation(&store).expect("Failed to get allocation without operations");
    assert_eq!(
        allocation_no_ops.len(),
        0,
        "Accounts without operations should not appear in allocation"
    );

    db::add_operation(&mut store, acc1, 100_000, "Initial cash".to_string(), now)
        .expect("Failed to add operation 1");
    now += 1;
    db::add_operation(&mut store, acc2, 500_000, "Deposit".to_string(), now)
        .expect("Failed to add operation 2");
    now += 1;
    db::add_operation(&mut store, acc3, 200_000, "Bank transfer".to_string(), now)
        .expect("Failed to add operation 3");
    now += 1;
    db::add_operation(&mut store, acc4, -50_000, "Credit card debt".to_string(), now)
        .expect("Failed to add operation 4");
    now += 1;
    db::add_operation(&mut store, acc5, 30_000, "Second cash deposit".to_string(), now)
        .expect("Failed to add operation 5");
    now += 1;
    db::add_operation(&mut store, acc1, -20_000, "Cash expense".to_string(), now)
        .expect("Failed to add operation 6");

    let allocation = db::get_asset_allocation(&store).expect("Failed to get asset allocation");
    assert_eq!(allocation.len(), 4, "Should have 4 asset types");
    for i in 1..allocation.len() {
        assert!(
            allocation[i].total_balance <= allocation[i - 1].total_balance,
            "Asset allocation should be sorted by total_balance DESC"
        );
    }

    let cash_alloc =
        allocation.iter().find(|a| a.asset_type == "cash").expect("Cash type not found");
    assert_eq!(cash_alloc.total_balance, 110_000, "Cash total should be 1100.0 (800 + 300)");
    assert_eq!(cash_alloc.account_count, 2, "Cash should have 2 accounts");

    let deposit_alloc =
        allocation.iter().find(|a| a.asset_type == "deposit").expect("Deposit type not found");
    assert_eq!(deposit_alloc.total_balance, 500_000, "Deposit total should be 5000.0");
    assert_eq!(deposit_alloc.account_count, 1, "Deposit should have 1 account");

    let bank_alloc =
        allocation.iter().find(|a| a.asset_type == "bank").expect("Bank type not found");
    assert_eq!(bank_alloc.total_balance, 200_000, "Bank total should be 2000.0");
    assert_eq!(bank_alloc.account_count, 1, "Bank should have 1 account");

    let card_alloc =
        allocation.iter().find(|a| a.asset_type == "card").expect("Card type not found");
    assert_eq!(card_alloc.total_balance, -50_000, "Card total should be -500.0");
    assert_eq!(card_alloc.account_count, 1, "Card should have 1 account");

    let total: i128 = allocation.iter().map(|a| a.total_balance).sum();
    assert_eq!(total, 760_000, "Total of all assets should be 7600.0");

    let total_accounts: u64 = allocation.iter().map(|a| a.account_count).sum();
    assert_eq!(total_accounts, 5, "Total account count should be 5");
}
