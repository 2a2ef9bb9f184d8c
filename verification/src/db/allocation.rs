//! The allocation of assets: the net worth grouped by account type.

use crate::db::ledger::{account_balance, find_latest_state, latest_state};
use crate::db::queries::{net_worth, table_fault};
use crate::db::{
    lemma_views_push, sorted_rows, views, AccountView, AllocationView, AssetAllocation, DbError,
    State, StorageFault, Store,
};
use crate::sorting::{
    arrange, lemma_slot_for, lemma_stable_order_ranked, precedes, slot_for, stable_order, Key,
};
use vstd::prelude::*;

verus! {

/// The place of the group of an account type, `None` where there is none
/// yet.
pub open spec fn group_index(groups: Seq<AllocationView>, asset_type: Seq<char>) -> Option<int>
    decreases groups.len(),
{
    if groups.len() == 0 {
        None
    } else {
        match group_index(groups.drop_last(), asset_type) {
            Some(k) => Some(k),
            None => if groups.last().asset_type == asset_type {
                Some(groups.len() - 1)
            } else {
                None
            },
        }
    }
}

/// The groups after an account of the type `asset_type` with the balance
/// `balance` was counted: its group grows by the balance and by one account,
/// or a new group is opened behind the others.
pub open spec fn add_to_groups(groups: Seq<AllocationView>, asset_type: Seq<char>, balance: int) -> Seq<
    AllocationView,
> {
    match group_index(groups, asset_type) {
        Some(k) => groups.update(
            k,
            AllocationView {
                asset_type,
                total_balance: groups[k].total_balance + balance,
                account_count: groups[k].account_count + 1,
            },
        ),
        None => groups.push(AllocationView { asset_type, total_balance: balance, account_count: 1 }),
    }
}

/// The groups of the accounts that have a balance snapshot, one per account
/// type, in the order in which the types first occur among the accounts.
/// Each holds the sum of the current balances of its accounts and their
/// number.
pub open spec fn allocation_groups(accounts: Seq<AccountView>, states: Seq<State>) -> Seq<
    AllocationView,
>
    decreases accounts.len(),
{
    if accounts.len() == 0 {
        Seq::empty()
    } else {
        let rest = allocation_groups(accounts.drop_last(), states);
        let a = accounts.last();
        if latest_state(states, a.id) is Some {
            add_to_groups(rest, a.acc_type, account_balance(states, a.id) as int)
        } else {
            rest
        }
    }
}

/// The keys by which the groups are read, largest total first.
pub open spec fn allocation_keys(groups: Seq<AllocationView>) -> Seq<Key> {
    Seq::new(groups.len(), |i: int| ((-groups[i].total_balance) as i128, 0i128))
}

/// The allocation of assets: the groups in descending order of their totals;
/// groups with equal totals stay in the order in which their types first
/// occur.
pub open spec fn asset_allocation(accounts: Seq<AccountView>, states: Seq<State>) -> Seq<
    AllocationView,
> {
    let groups = allocation_groups(accounts, states);
    arrange(groups, stable_order(allocation_keys(groups), groups.len()))
}

/// The sum of the totals of the rows.
pub open spec fn total_of(rows: Seq<AllocationView>) -> int
    decreases rows.len(),
{
    if rows.len() == 0 {
        0
    } else {
        total_of(rows.drop_last()) + rows.last().total_balance
    }
}

/// What `group_index` finds: the first group of the type.
pub proof fn lemma_group_index(groups: Seq<AllocationView>, asset_type: Seq<char>)
    ensures
        match group_index(groups, asset_type) {
            Some(k) => {
                &&& 0 <= k < groups.len()
                &&& groups[k].asset_type == asset_type
                &&& forall|j: int| 0 <= j < k ==> (#[trigger] groups[j]).asset_type != asset_type
            },
            None => forall|j: int|
                0 <= j < groups.len() ==> (#[trigger] groups[j]).asset_type != asset_type,
        },
    decreases groups.len(),
{
    if groups.len() > 0 {
        let shorter = groups.drop_last();
        lemma_group_index(shorter, asset_type);
        match group_index(shorter, asset_type) {
            Some(k) => {
                assert(shorter[k] == groups[k]);
                assert forall|j: int| 0 <= j < k implies (#[trigger] groups[j]).asset_type
                    != asset_type by {
                    assert(shorter[j] == groups[j]);
                }
            },
            None => {
                assert forall|j: int| 0 <= j < groups.len() - 1 implies (
                #[trigger] groups[j]).asset_type != asset_type by {
                    assert(shorter[j] == groups[j]);
                }
            },
        }
    }
}

/// The sum of the totals after one row was replaced.
pub proof fn lemma_total_of_update(rows: Seq<AllocationView>, k: int, row: AllocationView)
    requires
        0 <= k < rows.len(),
    ensures
        total_of(rows.update(k, row)) == total_of(rows) - rows[k].total_balance
            + row.total_balance,
    decreases rows.len(),
{
    let after = rows.update(k, row);
    if k == rows.len() - 1 {
        assert(after.drop_last() =~= rows.drop_last());
    } else {
        assert(after.drop_last() =~= rows.drop_last().update(k, row));
        lemma_total_of_update(rows.drop_last(), k, row);
    }
}

/// The sum of the totals after one row was put in at the place `j`.
pub proof fn lemma_total_of_insert(rows: Seq<AllocationView>, j: int, row: AllocationView)
    requires
        0 <= j <= rows.len(),
    ensures
        total_of(rows.insert(j, row)) == total_of(rows) + row.total_balance,
    decreases rows.len(),
{
    let after = rows.insert(j, row);
    if j == rows.len() {
        assert(after =~= rows.push(row));
        assert(after.drop_last() =~= rows);
    } else {
        assert(after.drop_last() =~= rows.drop_last().insert(j, row));
        assert(after.last() == rows.last());
        lemma_total_of_insert(rows.drop_last(), j, row);
    }
}

/// Counting an account adds its balance to the sum of the totals, and opens
/// at most one group.
pub proof fn lemma_add_to_groups(groups: Seq<AllocationView>, asset_type: Seq<char>, balance: int)
    ensures
        total_of(add_to_groups(groups, asset_type, balance)) == total_of(groups) + balance,
        groups.len() <= add_to_groups(groups, asset_type, balance).len() <= groups.len() + 1,
{
    lemma_group_index(groups, asset_type);
    match group_index(groups, asset_type) {
        Some(k) => {
            lemma_total_of_update(
                groups,
                k,
                AllocationView {
                    asset_type,
                    total_balance: groups[k].total_balance + balance,
                    account_count: groups[k].account_count + 1,
                },
            );
        },
        None => {
            let row = AllocationView { asset_type, total_balance: balance, account_count: 1 };
            assert(groups.push(row).drop_last() =~= groups);
        },
    }
}

/// The totals of the groups add up to the net worth, and there are no more
/// groups than accounts.
pub proof fn lemma_groups_hold_net_worth(accounts: Seq<AccountView>, states: Seq<State>)
    ensures
        total_of(allocation_groups(accounts, states)) == net_worth(accounts, states),
        allocation_groups(accounts, states).len() <= accounts.len(),
    decreases accounts.len(),
{
    if accounts.len() > 0 {
        lemma_groups_hold_net_worth(accounts.drop_last(), states);
        let rest = allocation_groups(accounts.drop_last(), states);
        let a = accounts.last();
        if latest_state(states, a.id) is Some {
            lemma_add_to_groups(rest, a.acc_type, account_balance(states, a.id) as int);
        }
    }
}

/// Reading rows in the stable order of their keys keeps the sum of their
/// totals.
pub proof fn lemma_arranged_total(rows: Seq<AllocationView>, keys: Seq<Key>, n: nat)
    requires
        n <= rows.len(),
        n <= keys.len(),
        n <= usize::MAX,
    ensures
        total_of(arrange(rows, stable_order(keys, n))) == total_of(rows.take(n as int)),
    decreases n,
{
    if n == 0 {
        assert(arrange(rows, stable_order(keys, n)) =~= Seq::empty());
        assert(rows.take(0) =~= Seq::empty());
    } else {
        let before = stable_order(keys, (n - 1) as nat);
        let j = slot_for(keys, before, n - 1);
        lemma_arranged_total(rows, keys, (n - 1) as nat);
        lemma_stable_order_ranked(keys, (n - 1) as nat);
        lemma_slot_for(keys, before, n - 1);
        assert(arrange(rows, stable_order(keys, n)) =~= arrange(rows, before).insert(
            j,
            rows[n - 1],
        ));
        lemma_total_of_insert(arrange(rows, before), j, rows[n - 1]);
        assert(rows.take(n as int).drop_last() =~= rows.take(n - 1));
    }
}

/// Allocation conservation: the totals of the rows of the asset allocation
/// add up to the net worth.
pub proof fn lemma_allocation_conserves_net_worth(accounts: Seq<AccountView>, states: Seq<State>)
    requires
        accounts.len() <= usize::MAX,
    ensures
        total_of(asset_allocation(accounts, states)) == net_worth(accounts, states),
{
    let groups = allocation_groups(accounts, states);
    lemma_groups_hold_net_worth(accounts, states);
    lemma_arranged_total(groups, allocation_keys(groups), groups.len());
    assert(groups.take(groups.len() as int) =~= groups);
}

fn find_group(groups: &Vec<AssetAllocation>, asset_type: &String) -> (r: Option<usize>)
    ensures
        match r {
            Some(k) => group_index(views(groups@), asset_type@) == Some(k as int),
            None => group_index(views(groups@), asset_type@) is None,
        },
{
    let mut found: Option<usize> = None;
    let mut i: usize = 0;
    let ghost all = views(groups@);
    while i < groups.len()
        invariant
            i <= groups.len(),
            all == views(groups@),
            match found {
                Some(k) => group_index(all.take(i as int), asset_type@) == Some(k as int),
                None => group_index(all.take(i as int), asset_type@) is None,
            },
        decreases groups.len() - i,
    {
        proof {
            assert(all.take(i + 1).drop_last() =~= all.take(i as int));
            assert(all.take(i + 1).last() == groups@[i as int]@);
        }
        if found.is_none() && groups[i].asset_type == *asset_type {
            found = Some(i);
        }
        i = i + 1;
    }
    assert(all.take(groups@.len() as int) =~= all);
    found
}

/// The totals and counts of the groups stay within what `limit` accounts of
/// 64-bit balances can add up to.
pub open spec fn groups_bounded(groups: Seq<AssetAllocation>, limit: int) -> bool {
    forall|k: int|
        0 <= k < groups.len() ==> {
            &&& (#[trigger] groups[k]).account_count <= limit
            &&& -groups[k].account_count * 0x8000_0000_0000_0000 <= groups[k].total_balance
            &&& groups[k].total_balance <= groups[k].account_count * 0x8000_0000_0000_0000
        }
}

/// Computes the allocation of assets: accounts that have a balance snapshot
/// are grouped by type, each group holds the sum of their current balances
/// and their number, and the groups are listed by descending total. The
/// totals add up to the net worth.
pub fn get_asset_allocation(store: &Store) -> (r: Result<Vec<AssetAllocation>, DbError>)
    ensures
        match table_fault(store@.schema.accounts && store@.schema.states) {
            Some(e) => r == Err::<Vec<AssetAllocation>, DbError>(e),
            None => {
                &&& r matches Ok(rows)
                &&& views(rows@) == asset_allocation(store@.accounts, store@.states)
                &&& views(rows@).to_multiset() == allocation_groups(
                    store@.accounts,
                    store@.states,
                ).to_multiset()
                &&& forall|i: int, j: int|
                    0 <= i < j < rows@.len() ==> rows@[i].total_balance >= rows@[j].total_balance
                &&& total_of(views(rows@)) == net_worth(store@.accounts, store@.states)
            },
        },
{
    if !store.schema.accounts || !store.schema.states {
        return Err(DbError::StorageError(StorageFault::NoSuchTable));
    }
    let mut groups: Vec<AssetAllocation> = Vec::new();
    let mut i: usize = 0;
    let ghost all = views(store.accounts@);
    assert(views(groups@) =~= allocation_groups(all.take(0), store@.states));
    while i < store.accounts.len()
        invariant
            i <= store.accounts.len(),
            all == views(store.accounts@),
            views(groups@) == allocation_groups(all.take(i as int), store@.states),
            groups_bounded(groups@, i as int),
        decreases store.accounts.len() - i,
    {
        let account = &store.accounts[i];
        proof {
            assert(all.take(i + 1).drop_last() =~= all.take(i as int));
            assert(all.take(i + 1).last() == account@);
        }
        match find_latest_state(&store.states, account.id) {
            Some(latest) => {
                let ghost before = groups@;
                proof {
                    lemma_group_index(views(before), account.acc_type@);
                }
                match find_group(&groups, &account.acc_type) {
                    Some(k) => {
                        let row = AssetAllocation {
                            asset_type: account.acc_type.clone(),
                            total_balance: groups[k].total_balance + (latest.balance as i128),
                            account_count: groups[k].account_count + 1,
                        };
                        groups.set(k, row);
                        proof {
                            assert(views(groups@) =~= views(before).update(k as int, row@));
                        }
                    },
                    None => {
                        let row = AssetAllocation {
                            asset_type: account.acc_type.clone(),
                            total_balance: latest.balance as i128,
                            account_count: 1,
                        };
                        groups.push(row);
                        proof {
                            lemma_views_push(before, row);
                        }
                    },
                }
            },
            None => {},
        }
        i = i + 1;
    }
    assert(all.take(store.accounts@.len() as int) =~= all);
    let mut keys: Vec<Key> = Vec::new();
    let mut k: usize = 0;
    while k < groups.len()
        invariant
            k <= groups.len(),
            groups_bounded(groups@, store.accounts@.len() as int),
            keys@.len() == k,
            forall|j: int|
                0 <= j < k ==> (#[trigger] keys@[j]) == ((-groups@[j].total_balance) as i128, 0i128),
        decreases groups.len() - k,
    {
        keys.push((-groups[k].total_balance, 0));
        k = k + 1;
    }
    assert(keys@ =~= allocation_keys(views(groups@)));
    let rows = sorted_rows(&groups, &keys);
    proof {
        lemma_stable_order_ranked(keys@, keys@.len());
        let order = stable_order(keys@, keys@.len());
        assert forall|i: int, j: int| 0 <= i < j < rows@.len() implies rows@[i].total_balance
            >= rows@[j].total_balance by {
            assert(precedes(keys@, order[i] as int, order[j] as int));
            assert(views(rows@)[i] == views(groups@)[order[i] as int]);
            assert(views(rows@)[j] == views(groups@)[order[j] as int]);
        }
        lemma_allocation_conserves_net_worth(store@.accounts, store@.states);
    }
    Ok(rows)
}

} // verus!
