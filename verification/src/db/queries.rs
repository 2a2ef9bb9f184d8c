//! The read side of the ledger: accounts, operations, balances, net worth
//! and the allocation of assets.

use crate::db::ledger::{account_balance, find_latest_state};
use crate::db::{
    lemma_views_push, sorted_rows, views, Account, AccountView, DbError, Operation, OperationView,
    Record, State, StorageFault, Store,
};
use crate::sorting::{
    arrange, falling, falling_key, lemma_arranged_is_permutation, lemma_stable_order_ranked,
    precedes, rising, rising_key, stable_order, Key,
};
use vstd::prelude::*;

verus! {

/// The keys by which accounts are read, newest first.
pub open spec fn account_keys(accounts: Seq<AccountView>) -> Seq<Key> {
    Seq::new(accounts.len(), |i: int| falling(accounts[i].created_at, 0))
}

/// All accounts in descending order of their creation time; accounts
/// created at the same time stay in the order of the table.
pub open spec fn accounts_newest_first(accounts: Seq<AccountView>) -> Seq<AccountView> {
    arrange(accounts, stable_order(account_keys(accounts), accounts.len()))
}

/// The operations of an account, in the order of the table.
pub open spec fn operations_of(operations: Seq<OperationView>, account_id: i64) -> Seq<
    OperationView,
>
    decreases operations.len(),
{
    if operations.len() == 0 {
        Seq::empty()
    } else if operations.last().account_id == account_id {
        operations_of(operations.drop_last(), account_id).push(operations.last())
    } else {
        operations_of(operations.drop_last(), account_id)
    }
}

/// The keys by which operations are read, newest first.
pub open spec fn operation_keys(operations: Seq<OperationView>) -> Seq<Key> {
    Seq::new(operations.len(), |i: int| falling(operations[i].ts, 0))
}

/// The operations of an account in descending order of their timestamps.
pub open spec fn operations_newest_first(operations: Seq<OperationView>, account_id: i64) -> Seq<
    OperationView,
> {
    let picked = operations_of(operations, account_id);
    arrange(picked, stable_order(operation_keys(picked), picked.len()))
}

/// The balance snapshots of an account, in the order of the table.
pub open spec fn states_of(states: Seq<State>, account_id: i64) -> Seq<State>
    decreases states.len(),
{
    if states.len() == 0 {
        Seq::empty()
    } else if states.last().account_id == account_id {
        states_of(states.drop_last(), account_id).push(states.last())
    } else {
        states_of(states.drop_last(), account_id)
    }
}

/// The keys by which balance snapshots are read, oldest first.
pub open spec fn state_keys(states: Seq<State>) -> Seq<Key> {
    Seq::new(states.len(), |i: int| rising(states[i].ts, 0))
}

/// The balance snapshots of an account in ascending order of their
/// timestamps.
pub open spec fn balance_history(states: Seq<State>, account_id: i64) -> Seq<State> {
    let picked = states_of(states, account_id);
    arrange(picked, stable_order(state_keys(picked), picked.len()))
}

/// An account has no more snapshots than the table holds.
pub proof fn lemma_states_of_len(states: Seq<State>, account_id: i64)
    ensures
        states_of(states, account_id).len() <= states.len(),
    decreases states.len(),
{
    if states.len() > 0 {
        lemma_states_of_len(states.drop_last(), account_id);
    }
}

/// Every snapshot among those of an account is one of the account.
pub proof fn lemma_states_of_account(states: Seq<State>, account_id: i64)
    ensures
        forall|i: int|
            0 <= i < states_of(states, account_id).len() ==> (#[trigger] states_of(
                states,
                account_id,
            )[i]).account_id == account_id,
    decreases states.len(),
{
    if states.len() > 0 {
        lemma_states_of_account(states.drop_last(), account_id);
        let rest = states_of(states.drop_last(), account_id);
        let all = states_of(states, account_id);
        assert forall|i: int| 0 <= i < all.len() implies (#[trigger] all[i]).account_id
            == account_id by {
            if i < rest.len() {
                assert(all[i] == rest[i]);
            }
        }
    }
}

/// Chronological history: the timestamps of the balance history of an
/// account never fall, every snapshot in it is one of the account, and it
/// holds the snapshots of the account, each once.
pub proof fn lemma_history_is_chronological(states: Seq<State>, account_id: i64)
    requires
        states.len() <= usize::MAX,
    ensures
        balance_history(states, account_id).len() == states_of(states, account_id).len(),
        balance_history(states, account_id).to_multiset() == states_of(
            states,
            account_id,
        ).to_multiset(),
        forall|i: int|
            0 <= i < balance_history(states, account_id).len() ==> (#[trigger] balance_history(
                states,
                account_id,
            )[i]).account_id == account_id,
        forall|i: int, j: int|
            0 <= i < j < balance_history(states, account_id).len() ==> (#[trigger] balance_history(
                states,
                account_id,
            )[i]).ts <= (#[trigger] balance_history(states, account_id)[j]).ts,
{
    let picked = states_of(states, account_id);
    let keys = state_keys(picked);
    lemma_states_of_len(states, account_id);
    lemma_stable_order_ranked(keys, picked.len());
    let order = stable_order(keys, picked.len());
    let history = balance_history(states, account_id);
    assert forall|i: int, j: int| 0 <= i < j < history.len() implies (#[trigger] history[i]).ts <= (
    #[trigger] history[j]).ts by {
        assert(precedes(keys, order[i] as int, order[j] as int));
    }
    lemma_states_of_account(states, account_id);
    assert forall|i: int| 0 <= i < history.len() implies (#[trigger] history[i]).account_id
        == account_id by {
        assert(history[i] == picked[order[i] as int]);
    }
    lemma_arranged_is_permutation(picked, keys, picked.len());
    assert(picked.take(picked.len() as int) =~= picked);
}

/// The sum of the current balances of the accounts.
pub open spec fn net_worth(accounts: Seq<AccountView>, states: Seq<State>) -> int
    decreases accounts.len(),
{
    if accounts.len() == 0 {
        0
    } else {
        net_worth(accounts.drop_last(), states) + account_balance(states, accounts.last().id)
    }
}

/// What a query answers on a store that lacks one of its tables.
pub open spec fn table_fault(exists: bool) -> Option<DbError> {
    if exists {
        None
    } else {
        Some(DbError::StorageError(StorageFault::NoSuchTable))
    }
}

/// Lists all accounts, newest first.
pub fn list_accounts(store: &Store) -> (r: Result<Vec<Account>, DbError>)
    ensures
        match table_fault(store@.schema.accounts) {
            Some(e) => r == Err::<Vec<Account>, DbError>(e),
            None => {
                &&& r matches Ok(rows)
                &&& views(rows@) == accounts_newest_first(store@.accounts)
                &&& views(rows@).to_multiset() == store@.accounts.to_multiset()
                &&& forall|i: int, j: int|
                    0 <= i < j < rows@.len() ==> rows@[i].created_at >= rows@[j].created_at
            },
        },
{
    if !store.schema.accounts {
        return Err(DbError::StorageError(StorageFault::NoSuchTable));
    }
    let mut keys: Vec<Key> = Vec::new();
    let mut i: usize = 0;
    while i < store.accounts.len()
        invariant
            i <= store.accounts.len(),
            keys@.len() == i,
            forall|k: int| 0 <= k < i ==> (#[trigger] keys@[k]) == falling(
                store.accounts@[k].created_at,
                0,
            ),
        decreases store.accounts.len() - i,
    {
        keys.push(falling_key(store.accounts[i].created_at, 0));
        i = i + 1;
    }
    assert(keys@ =~= account_keys(store@.accounts));
    let rows = sorted_rows(&store.accounts, &keys);
    proof {
        lemma_stable_order_ranked(keys@, keys@.len());
        let order = stable_order(keys@, keys@.len());
        assert forall|i: int, j: int| 0 <= i < j < rows@.len() implies rows@[i].created_at
            >= rows@[j].created_at by {
            assert(precedes(keys@, order[i] as int, order[j] as int));
            assert(views(rows@)[i] == store@.accounts[order[i] as int]);
            assert(views(rows@)[j] == store@.accounts[order[j] as int]);
        }
    }
    Ok(rows)
}

/// Lists the operations of an account, newest first.
pub fn get_operations(store: &Store, account_id: i64) -> (r: Result<Vec<Operation>, DbError>)
    ensures
        match table_fault(store@.schema.operations) {
            Some(e) => r == Err::<Vec<Operation>, DbError>(e),
            None => {
                &&& r matches Ok(rows)
                &&& views(rows@) == operations_newest_first(store@.operations, account_id)
                &&& views(rows@).to_multiset() == operations_of(
                    store@.operations,
                    account_id,
                ).to_multiset()
                &&& forall|i: int, j: int| 0 <= i < j < rows@.len() ==> rows@[i].ts >= rows@[j].ts
            },
        },
{
    if !store.schema.operations {
        return Err(DbError::StorageError(StorageFault::NoSuchTable));
    }
    let mut picked: Vec<Operation> = Vec::new();
    let mut keys: Vec<Key> = Vec::new();
    let mut i: usize = 0;
    let ghost all = views(store.operations@);
    while i < store.operations.len()
        invariant
            i <= store.operations.len(),
            all == views(store.operations@),
            views(picked@) == operations_of(all.take(i as int), account_id),
            keys@ == operation_keys(views(picked@)),
        decreases store.operations.len() - i,
    {
        proof {
            assert(all.take(i + 1).drop_last() =~= all.take(i as int));
            assert(all.take(i + 1).last() == store.operations@[i as int]@);
        }
        if store.operations[i].account_id == account_id {
            let ghost before = picked@;
            let copy = store.operations[i].duplicate();
            keys.push(falling_key(copy.ts, 0));
            picked.push(copy);
            proof {
                lemma_views_push(before, copy);
                assert(keys@ =~= operation_keys(views(picked@)));
            }
        }
        i = i + 1;
    }
    assert(all.take(store.operations@.len() as int) =~= all);
    let rows = sorted_rows(&picked, &keys);
    proof {
        lemma_stable_order_ranked(keys@, keys@.len());
        let order = stable_order(keys@, keys@.len());
        assert forall|i: int, j: int| 0 <= i < j < rows@.len() implies rows@[i].ts
            >= rows@[j].ts by {
            assert(precedes(keys@, order[i] as int, order[j] as int));
            assert(views(rows@)[i] == views(picked@)[order[i] as int]);
            assert(views(rows@)[j] == views(picked@)[order[j] as int]);
        }
    }
    Ok(rows)
}

/// Reads the current balance of an account: the balance of its latest
/// snapshot, and zero for an account without snapshots, whether or not the
/// account exists.
pub fn get_account_balance(store: &Store, account_id: i64) -> (r: Result<i64, DbError>)
    ensures
        match table_fault(store@.schema.states) {
            Some(e) => r == Err::<i64, DbError>(e),
            None => r == Ok::<i64, DbError>(account_balance(store@.states, account_id)),
        },
{
    if !store.schema.states {
        return Err(DbError::StorageError(StorageFault::NoSuchTable));
    }
    match find_latest_state(&store.states, account_id) {
        Some(s) => Ok(s.balance),
        None => Ok(0),
    }
}

/// The net worth of the first accounts stays within 64 bits per account.
pub proof fn lemma_net_worth_bounds(accounts: Seq<AccountView>, states: Seq<State>)
    ensures
        -accounts.len() * 0x8000_0000_0000_0000 <= net_worth(accounts, states) <= accounts.len()
            * 0x8000_0000_0000_0000,
    decreases accounts.len(),
{
    if accounts.len() > 0 {
        lemma_net_worth_bounds(accounts.drop_last(), states);
        assert((accounts.len() - 1) * 0x8000_0000_0000_0000 + 0x8000_0000_0000_0000
            == accounts.len() * 0x8000_0000_0000_0000) by (nonlinear_arith);
    }
}

/// Computes the net worth: the sum, over all accounts, of the current
/// balance of each. An account without snapshots adds nothing.
pub fn get_net_worth(store: &Store) -> (r: Result<i128, DbError>)
    ensures
        match table_fault(store@.schema.accounts && store@.schema.states) {
            Some(e) => r == Err::<i128, DbError>(e),
            None => r matches Ok(total) && total == net_worth(store@.accounts, store@.states),
        },
{
    if !store.schema.accounts || !store.schema.states {
        return Err(DbError::StorageError(StorageFault::NoSuchTable));
    }
    let mut total: i128 = 0;
    let mut i: usize = 0;
    let ghost all = views(store.accounts@);
    while i < store.accounts.len()
        invariant
            i <= store.accounts.len(),
            all == views(store.accounts@),
            total == net_worth(all.take(i as int), store@.states),
        decreases store.accounts.len() - i,
    {
        proof {
            assert(all.take(i + 1).drop_last() =~= all.take(i as int));
            assert(all.take(i + 1).last() == store.accounts@[i as int]@);
            lemma_net_worth_bounds(all.take(i as int), store@.states);
            assert(all.take(i as int).len() * 0x8000_0000_0000_0000 <= 0xffff_ffff_ffff_ffff
                * 0x8000_0000_0000_0000) by (nonlinear_arith)
                requires
                    all.take(i as int).len() <= 0xffff_ffff_ffff_ffff,
            ;
        }
        let balance: i64 = match find_latest_state(&store.states, store.accounts[i].id) {
            Some(s) => s.balance,
            None => 0,
        };
        total = total + (balance as i128);
        i = i + 1;
    }
    assert(all.take(store.accounts@.len() as int) =~= all);
    Ok(total)
}

/// Lists the balance snapshots of an account in chronological order.
pub fn get_balance_history(store: &Store, account_id: i64) -> (r: Result<Vec<State>, DbError>)
    ensures
        match table_fault(store@.schema.states) {
            Some(e) => r == Err::<Vec<State>, DbError>(e),
            None => {
                &&& r matches Ok(rows)
                &&& rows@ == balance_history(store@.states, account_id)
                &&& rows@.to_multiset() == states_of(store@.states, account_id).to_multiset()
                &&& forall|i: int, j: int| 0 <= i < j < rows@.len() ==> rows@[i].ts <= rows@[j].ts
            },
        },
{
    if !store.schema.states {
        return Err(DbError::StorageError(StorageFault::NoSuchTable));
    }
    let mut picked: Vec<State> = Vec::new();
    let mut keys: Vec<Key> = Vec::new();
    let mut i: usize = 0;
    while i < store.states.len()
        invariant
            i <= store.states.len(),
            picked@ == states_of(store.states@.take(i as int), account_id),
            keys@ == state_keys(picked@),
        decreases store.states.len() - i,
    {
        proof {
            assert(store.states@.take(i + 1).drop_last() =~= store.states@.take(i as int));
            assert(store.states@.take(i + 1).last() == store.states@[i as int]);
        }
        if store.states[i].account_id == account_id {
            let copy = store.states[i];
            keys.push(rising_key(copy.ts, 0));
            picked.push(copy);
            proof {
                assert(keys@ =~= state_keys(picked@));
            }
        }
        i = i + 1;
    }
    assert(store.states@.take(store.states@.len() as int) =~= store.states@);
    let rows = sorted_rows(&picked, &keys);
    proof {
        lemma_stable_order_ranked(keys@, keys@.len());
        let order = stable_order(keys@, keys@.len());
        assert(views(picked@) =~= picked@);
        assert(views(rows@) =~= rows@);
        assert forall|i: int, j: int| 0 <= i < j < rows@.len() implies rows@[i].ts
            <= rows@[j].ts by {
            assert(precedes(keys@, order[i] as int, order[j] as int));
            assert(rows@[i] == picked@[order[i] as int]);
            assert(rows@[j] == picked@[order[j] as int]);
        }
    }
    Ok(rows)
}

} // verus!
