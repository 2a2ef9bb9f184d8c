use fam_core_lib::db;

#[test]
fn test_integrity_setup() {
    let mut store = db::Store::new();
    let now: i64 = 1_700_000_000;

    db::init_db(&mut store).unwrap();

    let acc1 =
        db::create_account(&mut store, "Cash".to_string(), "cash".to_string(), now).unwrap();
    let acc2 =
        db::create_account(&mut store, "Card".to_string(), "card".to_string(), now).unwrap();
    let _acc3 =
        db::create_account(&mut store, "Bank".to_string(), "bank".to_string(), now).unwrap();

    db::add_operation(&mut store, acc1, 100_000, "Initial".to_string(), now).unwrap();
    db::add_operation(&mut store, acc1, -20_000, "Expense".to_string(), now).unwrap();
    db::add_operation(&mut store, acc2, 50_000, "Income".to_string(), now).unwrap();
}
