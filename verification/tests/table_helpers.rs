use fam_core_lib::db::ledger::{account_exists, find_latest_state, get_current_balance};
use fam_core_lib::db::{
    arrange_rows, copy_bytes, init_db, next_id, sorted_rows, Account, Record, Row, State, Store,
};

fn state(id: i64, account_id: i64, balance: i64, ts: i64) -> State {
    State { id, account_id, balance, ts }
}

#[test]
fn the_next_identifier_follows_the_largest() {
    let mut rows: Vec<State> = Vec::new();
    assert_eq!(next_id(&rows), Some(1));
    rows.push(state(1, 1, 0, 0));
    rows.push(state(7, 1, 0, 0));
    rows.push(state(3, 1, 0, 0));
    assert_eq!(next_id(&rows), Some(8));
    rows.push(state(-5, 1, 0, 0));
    assert_eq!(next_id(&rows), Some(8));
    rows.push(state(i64::MAX - 1, 1, 0, 0));
    assert_eq!(next_id(&rows), Some(i64::MAX));
    rows.push(state(i64::MAX, 1, 0, 0));
    assert_eq!(next_id(&rows), None);
    let negative = vec![state(-9, 1, 0, 0)];
    assert_eq!(next_id(&negative), Some(1));
}

#[test]
fn rows_are_copied_field_by_field() {
    let account = Account {
        id: 4,
        name: "n".to_string(),
        acc_type: "t".to_string(),
        created_at: 9,
    };
    assert_eq!(account.duplicate(), account);
    assert_eq!(account.id(), 4);
    assert_eq!(copy_bytes(&vec![1, 2, 3]), vec![1, 2, 3]);
    assert_eq!(copy_bytes(&Vec::new()), Vec::<u8>::new());
}

#[test]
fn rows_are_read_in_the_order_given() {
    let rows = vec![state(1, 1, 10, 0), state(2, 1, 20, 0), state(3, 1, 30, 0)];
    let picked = arrange_rows(&rows, &vec![2, 0, 2]);
    let balances: Vec<i64> = picked.iter().map(|s| s.balance).collect();
    assert_eq!(balances, vec![30, 10, 30]);
    let sorted = sorted_rows(&rows, &vec![(5, 0), (1, 0), (5, 0)]);
    let ids: Vec<i64> = sorted.iter().map(|s| s.id).collect();
    assert_eq!(ids, vec![2, 1, 3]);
}

#[test]
fn the_latest_snapshot_of_an_account_is_found() {
    let rows = vec![
        state(1, 1, 10, 5),
        state(2, 2, 20, 9),
        state(3, 1, 30, 7),
        state(4, 1, 40, 6),
        state(5, 1, 50, 7),
    ];
    assert_eq!(find_latest_state(&rows, 1), Some(state(5, 1, 50, 7)));
    assert_eq!(find_latest_state(&rows, 2), Some(state(2, 2, 20, 9)));
    assert_eq!(find_latest_state(&rows, 3), None);
    let mut store = Store::new();
    init_db(&mut store).unwrap();
    store.states = rows;
    assert_eq!(get_current_balance(&store, 1), 50);
    assert_eq!(get_current_balance(&store, 3), 0);
    assert!(!account_exists(&store, 1));
    store.accounts.push(Account {
        id: 1,
        name: "n".to_string(),
        acc_type: "t".to_string(),
        created_at: 0,
    });
    assert!(account_exists(&store, 1));
    assert!(!account_exists(&store, 2));
}
