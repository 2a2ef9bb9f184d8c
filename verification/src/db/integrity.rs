//! What holds of a ledger at every commit, and why the mutations keep it.
//!
//! A store is consistent when its identifiers ascend, every row has exactly
//! one audit record, every audit record has exactly one signature that
//! verifies, every operation record is followed by the record of the balance
//! snapshot that the operation left, every snapshot continues the balance of
//! its account, and the two keys of the signing identity belong together.

use crate::db::audit::{
    audit_appended, audit_complete, audit_count, audit_fault, audit_sealed, appended_records_valid,
    lemma_append_keeps_keyed, lemma_append_keeps_sealed, lemma_audit_count_push, next_audit_record,
    next_signature_record, tables_keyed,
};
use crate::db::keystore::identity_sound;
use crate::db::ledger::{
    account_balance, account_created, add_operation_fault, create_account_fault,
    lemma_latest_state, latest_state, next_account, next_operation, next_state, operation_added,
    operation_logged, with_account, with_operation, with_state,
};
use crate::db::payload::{
    account_payload, lemma_entity_kinds_differ, operation_payload, state_payload,
};
use crate::db::queries::{
    balance_history, lemma_states_of_len, operations_of, state_keys, states_of,
};
use crate::sorting::{arrange, key_le, lemma_stable_order_of_ascending, rising, stable_order, Key};
use crate::db::{
    ids, lemma_ids_push, lemma_next_id_ascends, lemma_occurrences_of_larger,
    lemma_occurrences_push, max_id, occurrences, AuditView, OperationView, State, StoreView,
};
use vstd::prelude::*;

verus! {

/// The audit records `a` and `b` hold the snapshots of the operation `o` and
/// of the balance snapshot `t`, which belong to one account and one moment.
pub open spec fn snapshots_coupled(a: AuditView, b: AuditView, o: OperationView, t: State) -> bool {
    &&& a.entity_id == o.id
    &&& a.payload == operation_payload(o)
    &&& b.entity_id == t.id
    &&& b.payload == state_payload(t)
    &&& o.account_id == t.account_id
    &&& o.ts == t.ts
}

/// The audit record at `j` is followed by the record of a balance snapshot
/// with the same timestamp, and the two payloads are the snapshots of an
/// operation and of a balance snapshot of one account.
pub open spec fn coupled_at(log: Seq<AuditView>, j: int) -> bool {
    &&& j + 1 < log.len()
    &&& log[j + 1].entity == "state"@
    &&& log[j + 1].ts == log[j].ts
    &&& exists|o: OperationView, t: State| #[trigger] snapshots_coupled(log[j], log[j + 1], o, t)
}

/// Every audit record of an operation is coupled with the record that
/// follows it.
pub open spec fn operations_coupled(s: StoreView) -> bool {
    forall|j: int|
        0 <= j < s.version_log.len() && (#[trigger] s.version_log[j]).entity == "operation"@
            ==> coupled_at(s.version_log, j)
}

/// The balance snapshot at `i` belongs to the operation at `i`: same
/// account, same timestamp, and its balance is the balance that the account
/// had before, plus the amount. Every earlier snapshot of the account has an
/// earlier timestamp.
pub open spec fn follows_at(operations: Seq<OperationView>, states: Seq<State>, i: int) -> bool {
    &&& states[i].account_id == operations[i].account_id
    &&& states[i].ts == operations[i].ts
    &&& states[i].balance == account_balance(states.take(i), states[i].account_id)
        + operations[i].amount
    &&& forall|j: int|
        0 <= j < i && (#[trigger] states[j]).account_id == states[i].account_id ==> states[j].ts
            < states[i].ts
}

/// There is one balance snapshot per operation, at the same place of its
/// table, and each follows from the one before it.
pub open spec fn balances_follow(s: StoreView) -> bool {
    &&& s.operations.len() == s.states.len()
    &&& forall|i: int| 0 <= i < s.states.len() ==> #[trigger] follows_at(s.operations, s.states, i)
}

/// Every operation and every balance snapshot belongs to an account that
/// exists.
pub open spec fn references_hold(s: StoreView) -> bool {
    &&& forall|i: int|
        0 <= i < s.operations.len() ==> occurrences(
            ids(s.accounts),
            (#[trigger] s.operations[i]).account_id,
        ) > 0
    &&& forall|i: int|
        0 <= i < s.states.len() ==> occurrences(
            ids(s.accounts),
            (#[trigger] s.states[i]).account_id,
        ) > 0
}

/// What holds of the tables of a ledger at every commit.
pub open spec fn ledger_consistent(s: StoreView) -> bool {
    &&& tables_keyed(s)
    &&& references_hold(s)
    &&& audit_complete(s)
    &&& audit_sealed(s)
    &&& operations_coupled(s)
    &&& balances_follow(s)
}

/// One snapshot per operation: in a ledger whose balances follow, the
/// balance snapshot at the place of an operation is the only one with the
/// account and the timestamp of that operation.
pub proof fn lemma_operation_has_one_state(s: StoreView, i: int)
    requires
        balances_follow(s),
        0 <= i < s.operations.len(),
    ensures
        forall|j: int|
            0 <= j < s.states.len() ==> (((#[trigger] s.states[j]).account_id
                == s.operations[i].account_id && s.states[j].ts == s.operations[i].ts) <==> j
                == i),
{
    assert(follows_at(s.operations, s.states, i));
    assert forall|j: int| 0 <= j < s.states.len() implies (((#[trigger] s.states[j]).account_id
        == s.operations[i].account_id && s.states[j].ts == s.operations[i].ts) <==> j == i) by {
        assert(follows_at(s.operations, s.states, j));
    }
}

/// What holds of a ledger at every commit: its tables are consistent and the
/// keys of its signing identity belong together.
pub open spec fn consistent(s: StoreView) -> bool {
    &&& ledger_consistent(s)
    &&& identity_sound(s)
}

/// Whether a ledger is consistent in its tables depends on the rows of its
/// five tables alone.
pub proof fn lemma_consistent_by_tables(a: StoreView, b: StoreView)
    requires
        ledger_consistent(a),
        b.accounts == a.accounts,
        b.operations == a.operations,
        b.states == a.states,
        b.version_log == a.version_log,
        b.version_signatures == a.version_signatures,
    ensures
        ledger_consistent(b),
{
    assert forall|i: int| 0 <= i < b.states.len() implies #[trigger] follows_at(
        b.operations,
        b.states,
        i,
    ) by {
        assert(follows_at(a.operations, a.states, i));
    }
}

/// A store without rows is consistent in its tables.
pub proof fn lemma_empty_ledger_consistent(s: StoreView)
    requires
        s.accounts.len() == 0,
        s.operations.len() == 0,
        s.states.len() == 0,
        s.version_log.len() == 0,
        s.version_signatures.len() == 0,
    ensures
        ledger_consistent(s),
{
}

/// Atomic coupling: in a store whose operations are coupled, every audit
/// record of an operation has an audit record of a balance snapshot with the
/// same timestamp, and the two payloads are the snapshots of an operation
/// and of a balance snapshot with one account identifier.
pub proof fn lemma_operation_record_has_state_record(s: StoreView, j: int)
    requires
        operations_coupled(s),
        0 <= j < s.version_log.len(),
        s.version_log[j].entity == "operation"@,
    ensures
        exists|k: int, o: OperationView, t: State|
            {
                &&& 0 <= k < s.version_log.len()
                &&& s.version_log[k].entity == "state"@
                &&& s.version_log[k].ts == s.version_log[j].ts
                &&& #[trigger] snapshots_coupled(s.version_log[j], s.version_log[k], o, t)
            },
{
    assert(coupled_at(s.version_log, j));
    let (o, t) = choose|o: OperationView, t: State| #[trigger]
        snapshots_coupled(s.version_log[j], s.version_log[j + 1], o, t);
    assert(snapshots_coupled(s.version_log[j], s.version_log[j + 1], o, t));
}

/// Appending a record that is no operation record keeps the coupling.
proof fn lemma_coupling_kept(log: Seq<AuditView>, a: AuditView)
    requires
        forall|j: int|
            0 <= j < log.len() && (#[trigger] log[j]).entity == "operation"@ ==> coupled_at(log, j),
        a.entity != "operation"@,
    ensures
        forall|j: int|
            0 <= j < log.push(a).len() && (#[trigger] log.push(a)[j]).entity == "operation"@
                ==> coupled_at(log.push(a), j),
{
    let after = log.push(a);
    assert forall|j: int|
        0 <= j < after.len() && (#[trigger] after[j]).entity == "operation"@ implies coupled_at(
        after,
        j,
    ) by {
        assert(after[j] == log[j]);
        assert(coupled_at(log, j));
        let (o, t) = choose|o: OperationView, t: State| #[trigger]
            snapshots_coupled(log[j], log[j + 1], o, t);
        assert(after[j + 1] == log[j + 1]);
        assert(snapshots_coupled(after[j], after[j + 1], o, t));
    }
}

/// Appending an operation record and the record of its balance snapshot
/// keeps the coupling.
proof fn lemma_coupling_extended(
    log: Seq<AuditView>,
    a: AuditView,
    b: AuditView,
    o: OperationView,
    t: State,
)
    requires
        forall|j: int|
            0 <= j < log.len() && (#[trigger] log[j]).entity == "operation"@ ==> coupled_at(log, j),
        b.entity == "state"@,
        b.ts == a.ts,
        snapshots_coupled(a, b, o, t),
    ensures
        forall|j: int|
            0 <= j < log.push(a).push(b).len() && (#[trigger] log.push(a).push(b)[j]).entity
                == "operation"@ ==> coupled_at(log.push(a).push(b), j),
{
    lemma_entity_kinds_differ();
    let after = log.push(a).push(b);
    assert forall|j: int|
        0 <= j < after.len() && (#[trigger] after[j]).entity == "operation"@ implies coupled_at(
        after,
        j,
    ) by {
        if j < log.len() {
            assert(after[j] == log[j]);
            assert(coupled_at(log, j));
            let (o0, t0) = choose|o0: OperationView, t0: State| #[trigger]
                snapshots_coupled(log[j], log[j + 1], o0, t0);
            assert(after[j + 1] == log[j + 1]);
            assert(snapshots_coupled(after[j], after[j + 1], o0, t0));
        } else if j == log.len() {
            assert(after[j] == a);
            assert(after[j + 1] == b);
            assert(snapshots_coupled(after[j], after[j + 1], o, t));
        } else {
            assert(after[j] == b);
        }
    }
}

/// Creating an account keeps a ledger consistent, given that the signature
/// of the new audit record verifies.
pub proof fn lemma_account_created_consistent(
    s: StoreView,
    name: Seq<char>,
    acc_type: Seq<char>,
    now: i64,
)
    requires
        ledger_consistent(s),
        create_account_fault(s) is None,
        appended_records_valid(s, account_created(s, name, acc_type, now)),
    ensures
        ledger_consistent(account_created(s, name, acc_type, now)),
{
    lemma_entity_kinds_differ();
    let a = next_account(s, name, acc_type, now);
    let s0 = with_account(s, a);
    let after = account_created(s, name, acc_type, now);
    let rec = next_audit_record(s0, "account"@, a.id, "create"@, account_payload(a), now);
    let sig = next_signature_record(s0, account_payload(a), now);
    assert(after.version_log == s.version_log.push(rec));
    assert(after.version_signatures == s.version_signatures.push(sig));
    assert(after.version_log[s.version_log.len() as int] == rec);
    assert(after.version_signatures[s.version_log.len() as int] == sig);
    // identifiers
    lemma_ids_push(s.accounts, a);
    lemma_next_id_ascends(ids(s.accounts));
    lemma_append_keeps_keyed(s0, "account"@, a.id, "create"@, account_payload(a), now);
    assert(tables_keyed(after));
    // one audit record per row
    assert forall|id: i64| #[trigger]
        audit_count(after.version_log, "account"@, id) == occurrences(
            ids(after.accounts),
            id,
        ) by {
        lemma_audit_count_push(s.version_log, rec, "account"@, id);
        lemma_occurrences_push(ids(s.accounts), a.id, id);
    }
    assert forall|id: i64| #[trigger]
        audit_count(after.version_log, "operation"@, id) == occurrences(
            ids(after.operations),
            id,
        ) by {
        lemma_audit_count_push(s.version_log, rec, "operation"@, id);
    }
    assert forall|id: i64| #[trigger]
        audit_count(after.version_log, "state"@, id) == occurrences(ids(after.states), id) by {
        lemma_audit_count_push(s.version_log, rec, "state"@, id);
    }
    assert(audit_complete(after));
    // one signature per audit record
    lemma_append_keeps_sealed(s, after, rec, sig);
    // coupling
    lemma_coupling_kept(s.version_log, rec);
    assert(operations_coupled(after));
    // balances
    assert(balances_follow(after)) by {
        assert forall|i: int| 0 <= i < after.states.len() implies #[trigger] follows_at(
            after.operations,
            after.states,
            i,
        ) by {
            assert(follows_at(s.operations, s.states, i));
        }
    }
    // references
    assert(references_hold(after)) by {
        assert forall|i: int| 0 <= i < after.operations.len() implies occurrences(
            ids(after.accounts),
            (#[trigger] after.operations[i]).account_id,
        ) > 0 by {
            lemma_occurrences_push(ids(s.accounts), a.id, s.operations[i].account_id);
        }
        assert forall|i: int| 0 <= i < after.states.len() implies occurrences(
            ids(after.accounts),
            (#[trigger] after.states[i]).account_id,
        ) > 0 by {
            lemma_occurrences_push(ids(s.accounts), a.id, s.states[i].account_id);
        }
    }
}

/// Adding an operation keeps a ledger consistent, given that the signatures
/// of the two new audit records verify.
pub proof fn lemma_operation_added_consistent(
    s: StoreView,
    account_id: i64,
    amount: i64,
    description: Seq<char>,
    now: i64,
)
    requires
        ledger_consistent(s),
        add_operation_fault(s, account_id, amount, now) is None,
        appended_records_valid(s, operation_added(s, account_id, amount, description, now)),
    ensures
        ledger_consistent(operation_added(s, account_id, amount, description, now)),
{
    lemma_entity_kinds_differ();
    let n = s.version_log.len() as int;
    let o = next_operation(s, account_id, amount, description, now);
    let t = next_state(s, account_id, amount, now);
    let s0 = with_operation(s, o);
    let s1 = operation_logged(s, account_id, amount, description, now);
    let s2 = with_state(s1, t);
    let after = operation_added(s, account_id, amount, description, now);
    let rec_o = next_audit_record(s0, "operation"@, o.id, "create"@, operation_payload(o), o.ts);
    let sig_o = next_signature_record(s0, operation_payload(o), o.ts);
    let rec_t = next_audit_record(s2, "state"@, t.id, "create"@, state_payload(t), t.ts);
    let sig_t = next_signature_record(s2, state_payload(t), t.ts);
    assert(s1.version_log == s.version_log.push(rec_o));
    assert(s1.version_signatures == s.version_signatures.push(sig_o));
    assert(after.version_log == s1.version_log.push(rec_t));
    assert(after.version_signatures == s1.version_signatures.push(sig_t));
    assert(after.version_log[n] == rec_o);
    assert(after.version_signatures[n] == sig_o);
    assert(after.version_log[n + 1] == rec_t);
    assert(after.version_signatures[n + 1] == sig_t);
    // identifiers
    lemma_ids_push(s.operations, o);
    lemma_next_id_ascends(ids(s.operations));
    lemma_ids_push(s.states, t);
    lemma_next_id_ascends(ids(s.states));
    lemma_append_keeps_keyed(s0, "operation"@, o.id, "create"@, operation_payload(o), o.ts);
    assert(audit_fault(s2, 1) is None);
    lemma_append_keeps_keyed(s2, "state"@, t.id, "create"@, state_payload(t), t.ts);
    assert(tables_keyed(after));
    // one audit record per row
    assert forall|id: i64| #[trigger]
        audit_count(after.version_log, "account"@, id) == occurrences(
            ids(after.accounts),
            id,
        ) by {
        lemma_audit_count_push(s.version_log, rec_o, "account"@, id);
        lemma_audit_count_push(s1.version_log, rec_t, "account"@, id);
    }
    assert forall|id: i64| #[trigger]
        audit_count(after.version_log, "operation"@, id) == occurrences(
            ids(after.operations),
            id,
        ) by {
        lemma_audit_count_push(s.version_log, rec_o, "operation"@, id);
        lemma_audit_count_push(s1.version_log, rec_t, "operation"@, id);
        lemma_occurrences_push(ids(s.operations), o.id, id);
    }
    assert forall|id: i64| #[trigger]
        audit_count(after.version_log, "state"@, id) == occurrences(ids(after.states), id) by {
        lemma_audit_count_push(s.version_log, rec_o, "state"@, id);
        lemma_audit_count_push(s1.version_log, rec_t, "state"@, id);
        lemma_occurrences_push(ids(s.states), t.id, id);
    }
    assert(audit_complete(after));
    // one signature per audit record
    lemma_append_keeps_sealed(s, s1, rec_o, sig_o);
    lemma_append_keeps_sealed(s1, after, rec_t, sig_t);
    // coupling
    assert(snapshots_coupled(rec_o, rec_t, o, t));
    lemma_coupling_extended(s.version_log, rec_o, rec_t, o, t);
    assert(operations_coupled(after));
    // balances
    lemma_latest_state(s.states, account_id);
    assert(balances_follow(after)) by {
        assert forall|i: int| 0 <= i < after.states.len() implies #[trigger] follows_at(
            after.operations,
            after.states,
            i,
        ) by {
            if i < s.states.len() {
                assert(follows_at(s.operations, s.states, i));
                assert(after.states.take(i) =~= s.states.take(i));
            } else {
                assert(after.states.take(i) =~= s.states);
                assert(after.states[i] == t);
                assert(after.operations[i] == o);
                assert forall|j: int|
                    0 <= j < i && (#[trigger] after.states[j]).account_id
                        == t.account_id implies after.states[j].ts < t.ts by {
                    assert(after.states[j] == s.states[j]);
                }
            }
        }
    }
    // references
    assert(references_hold(after)) by {
        assert forall|i: int| 0 <= i < after.operations.len() implies occurrences(
            ids(after.accounts),
            (#[trigger] after.operations[i]).account_id,
        ) > 0 by {
            if i < s.operations.len() {
                assert(after.operations[i] == s.operations[i]);
            }
        }
        assert forall|i: int| 0 <= i < after.states.len() implies occurrences(
            ids(after.accounts),
            (#[trigger] after.states[i]).account_id,
        ) > 0 by {
            if i < s.states.len() {
                assert(after.states[i] == s.states[i]);
            }
        }
    }
}

/// The keys by which operations are read, oldest first.
pub open spec fn operation_keys_rising(operations: Seq<OperationView>) -> Seq<Key> {
    Seq::new(operations.len(), |i: int| rising(operations[i].ts, 0))
}

/// The operations of an account in ascending order of their timestamps.
pub open spec fn operations_oldest_first(operations: Seq<OperationView>, account_id: i64) -> Seq<
    OperationView,
> {
    let picked = operations_of(operations, account_id);
    arrange(picked, stable_order(operation_keys_rising(picked), picked.len()))
}

/// The balance that a history of snapshots shows before its place `i`: that
/// of the snapshot before, and zero before the first.
pub open spec fn balance_before(history: Seq<State>, i: int) -> int {
    if i == 0 {
        0
    } else {
        history[i - 1].balance as int
    }
}

/// The snapshots `history` continue each other along the operations
/// `operations`: there is one snapshot per operation, with its timestamp,
/// the timestamps ascend, and each balance is the balance before plus the
/// amount of the operation.
pub open spec fn recurrence_holds(history: Seq<State>, operations: Seq<OperationView>) -> bool {
    &&& history.len() == operations.len()
    &&& forall|i: int|
        0 <= i < history.len() ==> {
            &&& (#[trigger] history[i]).ts == operations[i].ts
            &&& history[i].balance == balance_before(history, i) + operations[i].amount
        }
    &&& forall|i: int, j: int|
        0 <= i < j < history.len() ==> (#[trigger] history[i]).ts < (#[trigger] history[j]).ts
}

/// A history that continues along its operations still does so with one
/// more snapshot, if that snapshot is later than the last and its balance is
/// the last balance plus the amount of its operation.
proof fn lemma_recurrence_push(
    history: Seq<State>,
    operations: Seq<OperationView>,
    t: State,
    o: OperationView,
)
    requires
        recurrence_holds(history, operations),
        t.ts == o.ts,
        t.balance == balance_before(history.push(t), history.len() as int) + o.amount,
        history.len() > 0 ==> history.last().ts < t.ts,
    ensures
        recurrence_holds(history.push(t), operations.push(o)),
{
    let hs = history.push(t);
    let os = operations.push(o);
    assert forall|i: int| 0 <= i < hs.len() implies {
        &&& (#[trigger] hs[i]).ts == os[i].ts
        &&& hs[i].balance == balance_before(hs, i) + os[i].amount
    } by {
        if i < history.len() {
            assert(hs[i] == history[i]);
            assert(os[i] == operations[i]);
            if i > 0 {
                assert(hs[i - 1] == history[i - 1]);
            }
            assert(balance_before(hs, i) == balance_before(history, i));
        }
    }
    assert forall|i: int, j: int| 0 <= i < j < hs.len() implies (#[trigger] hs[i]).ts < (
    #[trigger] hs[j]).ts by {
        assert(hs[i] == history[i]);
        if j < history.len() {
            assert(hs[j] == history[j]);
        } else if i < history.len() - 1 {
            assert(history[i].ts < history[history.len() - 1].ts);
        }
    }
}

/// In a ledger whose balances follow, the snapshots of an account among the
/// first `n` rows continue each other along its operations among the first
/// `n` rows, in the order of the tables, and the last of them is the latest.
proof fn lemma_recurrence_in_table_order(s: StoreView, account_id: i64, n: int)
    requires
        balances_follow(s),
        0 <= n <= s.states.len(),
    ensures
        recurrence_holds(
            states_of(s.states.take(n), account_id),
            operations_of(s.operations.take(n), account_id),
        ),
        latest_state(s.states.take(n), account_id) == if states_of(
            s.states.take(n),
            account_id,
        ).len() == 0 {
            None
        } else {
            Some(states_of(s.states.take(n), account_id).last())
        },
    decreases n,
{
    if n > 0 {
        lemma_recurrence_in_table_order(s, account_id, n - 1);
        let before = s.states.take(n - 1);
        let hs0 = states_of(before, account_id);
        let os0 = operations_of(s.operations.take(n - 1), account_id);
        let t = s.states[n - 1];
        let o = s.operations[n - 1];
        assert(s.states.take(n).drop_last() =~= before);
        assert(s.operations.take(n).drop_last() =~= s.operations.take(n - 1));
        assert(s.states.take(n).last() == t);
        assert(s.operations.take(n).last() == o);
        assert(follows_at(s.operations, s.states, n - 1));
        if t.account_id == account_id {
            assert(states_of(s.states.take(n), account_id) == hs0.push(t));
            assert(operations_of(s.operations.take(n), account_id) == os0.push(o));
            lemma_latest_state(before, account_id);
            if hs0.len() > 0 {
                let best = hs0.last();
                let k = choose|k: int| 0 <= k < before.len() && before[k] == best;
                assert(s.states[k] == best);
                assert(best.ts < t.ts);
                assert(hs0.push(t)[hs0.len() - 1] == best);
            }
            assert(t.balance == balance_before(hs0.push(t), hs0.len() as int) + o.amount);
            lemma_recurrence_push(hs0, os0, t, o);
        }
    } else {
        assert(s.states.take(0).len() == 0);
        assert(s.operations.take(0).len() == 0);
    }
}

/// Balance recurrence: in a ledger whose balances follow, the history of an
/// account, read by ascending timestamp, continues along its operations,
/// read by ascending timestamp. Each balance is the balance before plus the
/// amount of the operation, and the balance before the first is zero.
pub proof fn lemma_balance_recurrence(s: StoreView, account_id: i64)
    requires
        balances_follow(s),
        s.states.len() <= usize::MAX,
    ensures
        recurrence_holds(
            balance_history(s.states, account_id),
            operations_oldest_first(s.operations, account_id),
        ),
        balance_history(s.states, account_id) == states_of(s.states, account_id),
        operations_oldest_first(s.operations, account_id) == operations_of(
            s.operations,
            account_id,
        ),
{
    let n = s.states.len() as int;
    lemma_recurrence_in_table_order(s, account_id, n);
    assert(s.states.take(n) =~= s.states);
    assert(s.operations.take(n) =~= s.operations);
    let hs = states_of(s.states, account_id);
    let os = operations_of(s.operations, account_id);
    lemma_states_of_len(s.states, account_id);
    let hk = state_keys(hs);
    let ok = operation_keys_rising(os);
    assert forall|a: int, b: int| 0 <= a < b < hs.len() implies key_le(
        #[trigger] hk[a],
        #[trigger] hk[b],
    ) by {
        assert(hs[a].ts < hs[b].ts);
    }
    assert forall|a: int, b: int| 0 <= a < b < os.len() implies key_le(
        #[trigger] ok[a],
        #[trigger] ok[b],
    ) by {
        assert(hs[a].ts < hs[b].ts);
    }
    lemma_stable_order_of_ascending(hk, hs.len());
    lemma_stable_order_of_ascending(ok, os.len());
    assert(balance_history(s.states, account_id) =~= hs);
    assert(operations_oldest_first(s.operations, account_id) =~= os);
}

/// What appending an audit record does: the audit trail grows by exactly
/// one record with the given fields and an identifier that no record had,
/// the signature table grows by exactly one record that names it and has
/// its timestamp, and nothing else changes.
pub proof fn lemma_appended_record_is_signed_once(
    s: StoreView,
    entity: Seq<char>,
    entity_id: i64,
    action: Seq<char>,
    payload: Seq<char>,
    ts: i64,
)
    requires
        audit_fault(s, 1) is None,
    ensures
        ({
            let after = audit_appended(s, entity, entity_id, action, payload, ts);
            let v = after.version_log.last();
            let g = after.version_signatures.last();
            &&& after.version_log == s.version_log.push(v)
            &&& after.version_signatures == s.version_signatures.push(g)
            &&& v.entity == entity && v.entity_id == entity_id && v.action == action
            &&& v.payload == payload && v.ts == ts
            &&& forall|i: int| 0 <= i < s.version_log.len() ==> (#[trigger] s.version_log[i]).id < v.id
            &&& g.version_id == v.id && g.ts == v.ts
            &&& after == (StoreView {
                version_log: after.version_log,
                version_signatures: after.version_signatures,
                ..s
            })
        }),
{
    lemma_next_id_ascends(ids(s.version_log));
    assert forall|i: int| 0 <= i < s.version_log.len() implies (#[trigger] s.version_log[i]).id
        < max_id(ids(s.version_log)) + 1 by {
        assert(ids(s.version_log)[i] == s.version_log[i].id);
    }
}

/// What creating an account leaves in the audit trail: exactly one record of
/// the entity `account` with the identifier of the new account, and that
/// record, the last of the trail, has the action `create` and the snapshot of
/// the account as its payload.
pub proof fn lemma_created_account_is_audited_once(
    s: StoreView,
    name: Seq<char>,
    acc_type: Seq<char>,
    now: i64,
)
    requires
        audit_complete(s),
        create_account_fault(s) is None,
    ensures
        ({
            let after = account_created(s, name, acc_type, now);
            let a = next_account(s, name, acc_type, now);
            let v = after.version_log.last();
            &&& after.accounts == s.accounts.push(a)
            &&& a.name == name && a.acc_type == acc_type && a.created_at == now
            &&& audit_count(after.version_log, "account"@, a.id) == 1
            &&& v.entity == "account"@ && v.entity_id == a.id && v.action == "create"@
            &&& v.payload == account_payload(a) && v.ts == now
        }),
{
    let a = next_account(s, name, acc_type, now);
    let s0 = with_account(s, a);
    let rec = next_audit_record(s0, "account"@, a.id, "create"@, account_payload(a), now);
    lemma_next_id_ascends(ids(s.accounts));
    lemma_occurrences_of_larger(ids(s.accounts), a.id);
    lemma_audit_count_push(s.version_log, rec, "account"@, a.id);
}

/// What adding an operation leaves in the audit trail: exactly one record of
/// the entity `operation` with the identifier of the new operation and
/// exactly one of the entity `state` with the identifier of the new balance
/// snapshot. They are the last two of the trail, have the action `create`,
/// the timestamp of the operation, and the snapshots of the two new rows as
/// their payloads.
pub proof fn lemma_added_operation_is_audited_once(
    s: StoreView,
    account_id: i64,
    amount: i64,
    description: Seq<char>,
    now: i64,
)
    requires
        audit_complete(s),
        add_operation_fault(s, account_id, amount, now) is None,
    ensures
        ({
            let after = operation_added(s, account_id, amount, description, now);
            let o = next_operation(s, account_id, amount, description, now);
            let t = next_state(s, account_id, amount, now);
            let n = s.version_log.len() as int;
            &&& after.operations == s.operations.push(o)
            &&& after.states == s.states.push(t)
            &&& after.version_log.len() == n + 2
            &&& audit_count(after.version_log, "operation"@, o.id) == 1
            &&& audit_count(after.version_log, "state"@, t.id) == 1
            &&& after.version_log[n].entity == "operation"@ && after.version_log[n].entity_id
                == o.id
            &&& after.version_log[n].action == "create"@ && after.version_log[n].payload
                == operation_payload(o)
            &&& after.version_log[n + 1].entity == "state"@ && after.version_log[n + 1].entity_id
                == t.id
            &&& after.version_log[n + 1].action == "create"@ && after.version_log[n + 1].payload
                == state_payload(t)
            &&& after.version_log[n].ts == o.ts && after.version_log[n + 1].ts == o.ts && t.ts
                == o.ts
        }),
{
    lemma_entity_kinds_differ();
    let o = next_operation(s, account_id, amount, description, now);
    let t = next_state(s, account_id, amount, now);
    let s0 = with_operation(s, o);
    let s1 = operation_logged(s, account_id, amount, description, now);
    let s2 = with_state(s1, t);
    let after = operation_added(s, account_id, amount, description, now);
    let rec_o = next_audit_record(s0, "operation"@, o.id, "create"@, operation_payload(o), o.ts);
    let rec_t = next_audit_record(s2, "state"@, t.id, "create"@, state_payload(t), t.ts);
    assert(s1.version_log == s.version_log.push(rec_o));
    assert(after.version_log == s1.version_log.push(rec_t));
    lemma_next_id_ascends(ids(s.operations));
    lemma_next_id_ascends(ids(s.states));
    lemma_occurrences_of_larger(ids(s.operations), o.id);
    lemma_occurrences_of_larger(ids(s.states), t.id);
    lemma_audit_count_push(s.version_log, rec_o, "operation"@, o.id);
    lemma_audit_count_push(s1.version_log, rec_t, "operation"@, o.id);
    lemma_audit_count_push(s.version_log, rec_o, "state"@, t.id);
    lemma_audit_count_push(s1.version_log, rec_t, "state"@, t.id);
}

/// What adding an operation does to the balance: the new snapshot holds the
/// balance that the account had plus the amount, it is the latest of the
/// account, so that the balance of the account is then that sum, and an
/// amount of zero repeats the balance.
pub proof fn lemma_added_operation_continues_balance(
    s: StoreView,
    account_id: i64,
    amount: i64,
    description: Seq<char>,
    now: i64,
)
    requires
        add_operation_fault(s, account_id, amount, now) is None,
    ensures
        ({
            let after = operation_added(s, account_id, amount, description, now);
            let t = next_state(s, account_id, amount, now);
            &&& after.states == s.states.push(t)
            &&& t.account_id == account_id
            &&& t.balance == account_balance(s.states, account_id) + amount
            &&& latest_state(after.states, account_id) == Some(t)
            &&& account_balance(after.states, account_id) == account_balance(s.states, account_id)
                + amount
            &&& amount == 0 ==> account_balance(after.states, account_id) == account_balance(
                s.states,
                account_id,
            )
            &&& forall|i: int|
                0 <= i < s.states.len() && (#[trigger] s.states[i]).account_id == account_id
                    ==> s.states[i].ts < t.ts
        }),
{
    let t = next_state(s, account_id, amount, now);
    let after = operation_added(s, account_id, amount, description, now);
    lemma_latest_state(s.states, account_id);
    assert(after.states == s.states.push(t));
    assert(s.states.push(t).drop_last() =~= s.states);
    assert(s.states.push(t).last() == t);
}

} // verus!
