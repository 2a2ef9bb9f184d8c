//! The mutations of the ledger: creating an account and adding an operation.
//!
//! Each mutation writes its rows, one audit record per row and one signature
//! per audit record, or nothing at all.

use crate::db::audit::{
    audit_appended, audit_fault, check_audit_ready, lemma_append_keeps_keyed, write_version_log,
};
use crate::db::integrity::{
    consistent, lemma_account_created_consistent, lemma_operation_added_consistent,
};
use crate::db::payload::{
    account_payload, operation_payload, serialize_entity, state_payload, Entity,
};
use crate::db::{
    ids, lemma_views_push, max_id, next_id, next_row_id, occurrences, row_ids, Account,
    AccountView, DbError, Operation, OperationView, State, StorageFault, Store, StoreView,
};
use vstd::prelude::*;

verus! {

/// The later of the balance snapshots of an account: the one with the
/// greater timestamp, and among equal timestamps the one with the greater
/// identifier.
pub open spec fn not_earlier(s: State, than: State) -> bool {
    s.ts > than.ts || (s.ts == than.ts && s.id >= than.id)
}

/// The latest balance snapshot of an account, `None` where it has none.
pub open spec fn latest_state(states: Seq<State>, account_id: i64) -> Option<State>
    decreases states.len(),
{
    if states.len() == 0 {
        None
    } else {
        let s = states.last();
        match latest_state(states.drop_last(), account_id) {
            None => if s.account_id == account_id {
                Some(s)
            } else {
                None
            },
            Some(best) => if s.account_id == account_id && not_earlier(s, best) {
                Some(s)
            } else {
                Some(best)
            },
        }
    }
}

/// The current balance of an account: that of its latest snapshot, and zero
/// where it has none.
pub open spec fn account_balance(states: Seq<State>, account_id: i64) -> i64 {
    match latest_state(states, account_id) {
        Some(s) => s.balance,
        None => 0,
    }
}

/// What the latest snapshot is: a snapshot of the account that no other
/// snapshot of the account is later than.
pub proof fn lemma_latest_state(states: Seq<State>, account_id: i64)
    ensures
        match latest_state(states, account_id) {
            Some(best) => {
                &&& best.account_id == account_id
                &&& states.contains(best)
                &&& forall|i: int|
                    0 <= i < states.len() && (#[trigger] states[i]).account_id == account_id
                        ==> not_earlier(best, states[i])
            },
            None => forall|i: int|
                0 <= i < states.len() ==> (#[trigger] states[i]).account_id != account_id,
        },
    decreases states.len(),
{
    if states.len() > 0 {
        let shorter = states.drop_last();
        let s = states.last();
        lemma_latest_state(shorter, account_id);
        assert(states[states.len() - 1] == s);
        match latest_state(shorter, account_id) {
            None => {
                assert forall|i: int| 0 <= i < states.len() - 1 implies (
                #[trigger] states[i]).account_id != account_id by {
                    assert(shorter[i] == states[i]);
                }
            },
            Some(best) => {
                let k = choose|k: int| 0 <= k < shorter.len() && shorter[k] == best;
                assert(states[k] == best);
                assert forall|i: int|
                    0 <= i < states.len() - 1 && (#[trigger] states[i]).account_id
                        == account_id implies not_earlier(best, states[i]) by {
                    assert(shorter[i] == states[i]);
                }
            },
        }
    }
}

/// The timestamp that a new operation on an account gets at the time `now`:
/// `now`, or where the account has a snapshot that is not older than `now`,
/// one second after its latest. `None` where no second is left.
pub open spec fn operation_ts(states: Seq<State>, account_id: i64, now: i64) -> Option<i64> {
    match latest_state(states, account_id) {
        None => Some(now),
        Some(last) => if last.ts < now {
            Some(now)
        } else if last.ts < i64::MAX {
            Some((last.ts + 1) as i64)
        } else {
            None
        },
    }
}

/// Why an account cannot be created, `None` where it can.
pub open spec fn create_account_fault(s: StoreView) -> Option<DbError> {
    if !s.schema.accounts {
        Some(DbError::StorageError(StorageFault::NoSuchTable))
    } else if next_row_id(ids(s.accounts)) is None {
        Some(DbError::StorageError(StorageFault::RowIdExhausted))
    } else {
        audit_fault(s, 1)
    }
}

/// The account that is created next.
pub open spec fn next_account(
    s: StoreView,
    name: Seq<char>,
    acc_type: Seq<char>,
    now: i64,
) -> AccountView {
    AccountView { id: (max_id(ids(s.accounts)) + 1) as i64, name, acc_type, created_at: now }
}

/// The store with one more account.
pub open spec fn with_account(s: StoreView, a: AccountView) -> StoreView {
    StoreView { accounts: s.accounts.push(a), ..s }
}

/// The store after an account was created: the account row, and the audit
/// record of its creation with its signature.
pub open spec fn account_created(
    s: StoreView,
    name: Seq<char>,
    acc_type: Seq<char>,
    now: i64,
) -> StoreView {
    let a = next_account(s, name, acc_type, now);
    audit_appended(with_account(s, a), "account"@, a.id, "create"@, account_payload(a), now)
}

/// Why an operation cannot be added, `None` where it can. The checks come
/// in this order: the tables, the account, the identifiers, the timestamp,
/// the new balance, the audit trail.
pub open spec fn add_operation_fault(s: StoreView, account_id: i64, amount: i64, now: i64) -> Option<
    DbError,
> {
    if !s.schema.accounts || !s.schema.operations || !s.schema.states {
        Some(DbError::StorageError(StorageFault::NoSuchTable))
    } else if occurrences(ids(s.accounts), account_id) == 0 {
        Some(DbError::StorageError(StorageFault::ForeignKey))
    } else if next_row_id(ids(s.operations)) is None || next_row_id(ids(s.states)) is None {
        Some(DbError::StorageError(StorageFault::RowIdExhausted))
    } else if operation_ts(s.states, account_id, now) is None {
        Some(DbError::StorageError(StorageFault::TimestampExhausted))
    } else if !(i64::MIN <= account_balance(s.states, account_id) + amount <= i64::MAX) {
        Some(DbError::StorageError(StorageFault::BalanceOutOfRange))
    } else {
        audit_fault(s, 2)
    }
}

/// The operation that is added next.
pub open spec fn next_operation(
    s: StoreView,
    account_id: i64,
    amount: i64,
    description: Seq<char>,
    now: i64,
) -> OperationView {
    OperationView {
        id: (max_id(ids(s.operations)) + 1) as i64,
        account_id,
        amount,
        description,
        ts: operation_ts(s.states, account_id, now).unwrap(),
    }
}

/// The balance snapshot that the next operation leaves: the current balance
/// of the account plus the amount, at the timestamp of the operation.
pub open spec fn next_state(s: StoreView, account_id: i64, amount: i64, now: i64) -> State {
    State {
        id: (max_id(ids(s.states)) + 1) as i64,
        account_id,
        balance: (account_balance(s.states, account_id) + amount) as i64,
        ts: operation_ts(s.states, account_id, now).unwrap(),
    }
}

/// The store with one more operation.
pub open spec fn with_operation(s: StoreView, o: OperationView) -> StoreView {
    StoreView { operations: s.operations.push(o), ..s }
}

/// The store with one more balance snapshot.
pub open spec fn with_state(s: StoreView, t: State) -> StoreView {
    StoreView { states: s.states.push(t), ..s }
}

/// The store after the operation row and its audit record were written.
pub open spec fn operation_logged(
    s: StoreView,
    account_id: i64,
    amount: i64,
    description: Seq<char>,
    now: i64,
) -> StoreView {
    let o = next_operation(s, account_id, amount, description, now);
    audit_appended(with_operation(s, o), "operation"@, o.id, "create"@, operation_payload(o), o.ts)
}

/// The store after an operation was added: the operation row and its audit
/// record, then the balance snapshot and its audit record, all at one
/// timestamp.
pub open spec fn operation_added(
    s: StoreView,
    account_id: i64,
    amount: i64,
    description: Seq<char>,
    now: i64,
) -> StoreView {
    let t = next_state(s, account_id, amount, now);
    audit_appended(
        with_state(operation_logged(s, account_id, amount, description, now), t),
        "state"@,
        t.id,
        "create"@,
        state_payload(t),
        t.ts,
    )
}

/// Finds the latest balance snapshot of an account.
pub fn find_latest_state(states: &Vec<State>, account_id: i64) -> (r: Option<State>)
    ensures
        r == latest_state(states@, account_id),
{
    let mut best: Option<State> = None;
    let mut i: usize = 0;
    while i < states.len()
        invariant
            i <= states.len(),
            best == latest_state(states@.take(i as int), account_id),
        decreases states.len() - i,
    {
        let s = states[i];
        proof {
            assert(states@.take(i + 1).drop_last() =~= states@.take(i as int));
            assert(states@.take(i + 1).last() == s);
        }
        if s.account_id == account_id {
            best = match best {
                None => Some(s),
                Some(b) => if s.ts > b.ts || (s.ts == b.ts && s.id >= b.id) {
                    Some(s)
                } else {
                    Some(b)
                },
            };
        }
        i = i + 1;
    }
    assert(states@.take(states@.len() as int) =~= states@);
    best
}

/// Reads the current balance of an account from the snapshots.
pub fn get_current_balance(store: &Store, account_id: i64) -> (r: i64)
    ensures
        r == account_balance(store@.states, account_id),
{
    match find_latest_state(&store.states, account_id) {
        Some(s) => s.balance,
        None => 0,
    }
}

/// Says whether an account with the identifier exists.
pub fn account_exists(store: &Store, account_id: i64) -> (r: bool)
    ensures
        r == (occurrences(ids(store@.accounts), account_id) > 0),
{
    let mut found = false;
    let mut i: usize = 0;
    let ghost all = ids(store@.accounts);
    while i < store.accounts.len()
        invariant
            i <= store.accounts.len(),
            all == ids(store@.accounts),
            found == (occurrences(all.take(i as int), account_id) > 0),
        decreases store.accounts.len() - i,
    {
        proof {
            assert(all.take(i + 1).drop_last() =~= all.take(i as int));
            assert(all.take(i + 1).last() == store.accounts@[i as int].id);
        }
        if store.accounts[i].id == account_id {
            found = true;
        }
        i = i + 1;
    }
    assert(all.take(store.accounts@.len() as int) =~= all);
    found
}

/// Creates an account at the time `now` and returns its identifier. The
/// account row, the audit record of its creation and the signature of that
/// record are written together.
pub fn create_account(store: &mut Store, name: String, acc_type: String, now: i64) -> (r: Result<
    i64,
    DbError,
>)
    requires
        name@.len() > 0,
        acc_type@.len() > 0,
    ensures
        match create_account_fault(old(store)@) {
            Some(e) => r == Err::<i64, DbError>(e) && final(store)@ == old(store)@,
            None => {
                &&& r == Ok::<i64, DbError>(next_account(old(store)@, name@, acc_type@, now).id)
                &&& final(store)@ == account_created(old(store)@, name@, acc_type@, now)
            },
        },
        consistent(old(store)@) ==> consistent(final(store)@),
{
    if !store.schema.accounts {
        return Err(DbError::StorageError(StorageFault::NoSuchTable));
    }
    proof {
        assert(row_ids(store.accounts@) =~= ids(store@.accounts));
    }
    let account_id = match next_id(&store.accounts) {
        Some(id) => id,
        None => {
            return Err(DbError::StorageError(StorageFault::RowIdExhausted));
        },
    };
    match check_audit_ready(store, 1) {
        Ok(()) => {},
        Err(e) => {
            return Err(e);
        },
    }
    let account = Account { id: account_id, name, acc_type, created_at: now };
    let kind = account.entity_kind();
    let payload_json = match serialize_entity(&account) {
        Ok(text) => text,
        Err(e) => {
            return Err(e);
        },
    };
    proof {
        lemma_views_push(store.accounts@, account);
    }
    store.accounts.push(account);
    assert(store@ == with_account(old(store)@, next_account(old(store)@, name@, acc_type@, now)));
    let written = write_version_log(
        store,
        kind,
        account_id,
        "create",
        payload_json.as_str(),
        now,
    );
    proof {
        if consistent(old(store)@) {
            lemma_account_created_consistent(old(store)@, name@, acc_type@, now);
        }
    }
    match written {
        Ok(()) => Ok(account_id),
        Err(e) => Err(e),
    }
}

/// Adds an operation to an account at the time `now` and returns its
/// identifier. The operation, the balance snapshot that it leaves, their two
/// audit records and the two signatures are written together.
pub fn add_operation(
    store: &mut Store,
    account_id: i64,
    amount: i64,
    description: String,
    now: i64,
) -> (r: Result<i64, DbError>)
    ensures
        match add_operation_fault(old(store)@, account_id, amount, now) {
            Some(e) => r == Err::<i64, DbError>(e) && final(store)@ == old(store)@,
            None => {
                &&& r == Ok::<i64, DbError>(
                    next_operation(old(store)@, account_id, amount, description@, now).id,
                )
                &&& final(store)@ == operation_added(
                    old(store)@,
                    account_id,
                    amount,
                    description@,
                    now,
                )
            },
        },
        consistent(old(store)@) ==> consistent(final(store)@),
{
    if !store.schema.accounts || !store.schema.operations || !store.schema.states {
        return Err(DbError::StorageError(StorageFault::NoSuchTable));
    }
    if !account_exists(store, account_id) {
        return Err(DbError::StorageError(StorageFault::ForeignKey));
    }
    proof {
        assert(row_ids(store.operations@) =~= ids(store@.operations));
        assert(row_ids(store.states@) =~= ids(store@.states));
    }
    let operation_id = match next_id(&store.operations) {
        Some(id) => id,
        None => {
            return Err(DbError::StorageError(StorageFault::RowIdExhausted));
        },
    };
    let state_id = match next_id(&store.states) {
        Some(id) => id,
        None => {
            return Err(DbError::StorageError(StorageFault::RowIdExhausted));
        },
    };
    let latest = find_latest_state(&store.states, account_id);
    let ts: i64 = match latest {
        None => now,
        Some(last) => if last.ts < now {
            now
        } else if last.ts < i64::MAX {
            last.ts + 1
        } else {
            return Err(DbError::StorageError(StorageFault::TimestampExhausted));
        },
    };
    let current_balance: i64 = match latest {
        Some(last) => last.balance,
        None => 0,
    };
    let new_balance: i64 = match current_balance.checked_add(amount) {
        Some(balance) => balance,
        None => {
            return Err(DbError::StorageError(StorageFault::BalanceOutOfRange));
        },
    };
    match check_audit_ready(store, 2) {
        Ok(()) => {},
        Err(e) => {
            return Err(e);
        },
    }
    let ghost s = old(store)@;
    let operation = Operation { id: operation_id, account_id, amount, description, ts };
    let operation_kind = operation.entity_kind();
    let operation_json = match serialize_entity(&operation) {
        Ok(text) => text,
        Err(e) => {
            return Err(e);
        },
    };
    proof {
        lemma_views_push(store.operations@, operation);
    }
    store.operations.push(operation);
    assert(store@ == with_operation(s, next_operation(s, account_id, amount, description@, now)));
    match write_version_log(
        store,
        operation_kind,
        operation_id,
        "create",
        operation_json.as_str(),
        ts,
    ) {
        Ok(()) => {},
        Err(e) => {
            return Err(e);
        },
    }
    let ghost logged = operation_logged(s, account_id, amount, description@, now);
    assert(store@ == logged);
    proof {
        let o = next_operation(s, account_id, amount, description@, now);
        lemma_append_keeps_keyed(
            with_operation(s, o),
            "operation"@,
            o.id,
            "create"@,
            operation_payload(o),
            o.ts,
        );
    }
    let state = State { id: state_id, account_id, balance: new_balance, ts };
    let state_json = match serialize_entity(&state) {
        Ok(text) => text,
        Err(e) => {
            return Err(e);
        },
    };
    store.states.push(state);
    assert(store@ == with_state(logged, next_state(s, account_id, amount, now)));
    let written = write_version_log(
        store,
        state.entity_kind(),
        state_id,
        "create",
        state_json.as_str(),
        ts,
    );
    proof {
        if consistent(s) {
            let n = s.version_log.len() as int;
            assert(store@.version_log[n] == logged.version_log.last());
            assert(store@.version_signatures[n] == logged.version_signatures.last());
            lemma_operation_added_consistent(s, account_id, amount, description@, now);
        }
    }
    match written {
        Ok(()) => Ok(operation_id),
        Err(e) => Err(e),
    }
}

} // verus!
