//! Reading the audit trail, with optional filters on the entity and on its
//! identifier.

use crate::db::queries::table_fault;
use crate::db::{
    lemma_views_push, sorted_rows, views, AuditView, DbError, Record, StorageFault, Store,
    VersionLogRecord,
};
use crate::sorting::{
    arrange, falling, falling_key, lemma_stable_order_ranked, precedes, rising, rising_key,
    stable_order, Key,
};
use vstd::prelude::*;
use vstd::string::StringExecFns;

verus! {

/// The audit record passes the filters: it is of the entity asked for, if
/// one is asked for, and it is about the identifier asked for, if one is.
pub open spec fn record_matches(
    a: AuditView,
    entity: Option<Seq<char>>,
    entity_id: Option<i64>,
) -> bool {
    &&& entity matches Some(e) ==> a.entity == e
    &&& entity_id matches Some(id) ==> a.entity_id == id
}

/// The audit records that pass the filters, in the order of the table.
pub open spec fn matching_records(
    log: Seq<AuditView>,
    entity: Option<Seq<char>>,
    entity_id: Option<i64>,
) -> Seq<AuditView>
    decreases log.len(),
{
    if log.len() == 0 {
        Seq::empty()
    } else if record_matches(log.last(), entity, entity_id) {
        matching_records(log.drop_last(), entity, entity_id).push(log.last())
    } else {
        matching_records(log.drop_last(), entity, entity_id)
    }
}

/// The key by which an audit record is read: its timestamp, then its
/// identifier, either descending or ascending.
pub open spec fn record_key(a: AuditView, newest_first: bool) -> Key {
    if newest_first {
        falling(a.ts, a.id)
    } else {
        rising(a.ts, a.id)
    }
}

/// The keys by which audit records are read.
pub open spec fn record_keys(rows: Seq<AuditView>, newest_first: bool) -> Seq<Key> {
    Seq::new(rows.len(), |i: int| record_key(rows[i], newest_first))
}

/// The audit records that pass the filters, ordered by timestamp and then by
/// identifier: both descending where `newest_first` holds, else both
/// ascending.
pub open spec fn selected_records(
    log: Seq<AuditView>,
    entity: Option<Seq<char>>,
    entity_id: Option<i64>,
    newest_first: bool,
) -> Seq<AuditView> {
    let picked = matching_records(log, entity, entity_id);
    arrange(picked, stable_order(record_keys(picked, newest_first), picked.len()))
}

/// The text of an optional entity filter.
pub open spec fn filter_text(entity: Option<String>) -> Option<Seq<char>> {
    match entity {
        Some(e) => Some(e@),
        None => None,
    }
}

/// `a` stands before `b` where the newest come first.
pub open spec fn not_older(a: AuditView, b: AuditView) -> bool {
    a.ts > b.ts || (a.ts == b.ts && a.id >= b.id)
}

/// Reads the audit records that pass the filters, in the order asked for.
pub fn select_version_log(
    store: &Store,
    entity: &Option<String>,
    entity_id: Option<i64>,
    newest_first: bool,
) -> (r: Result<Vec<VersionLogRecord>, DbError>)
    ensures
        match table_fault(store@.schema.version_log) {
            Some(e) => r == Err::<Vec<VersionLogRecord>, DbError>(e),
            None => {
                &&& r matches Ok(rows)
                &&& views(rows@) == selected_records(
                    store@.version_log,
                    filter_text(*entity),
                    entity_id,
                    newest_first,
                )
                &&& views(rows@).to_multiset() == matching_records(
                    store@.version_log,
                    filter_text(*entity),
                    entity_id,
                ).to_multiset()
                &&& forall|i: int, j: int|
                    0 <= i < j < rows@.len() ==> if newest_first {
                        not_older(rows@[i]@, rows@[j]@)
                    } else {
                        not_older(rows@[j]@, rows@[i]@)
                    }
            },
        },
{
    if !store.schema.version_log {
        return Err(DbError::StorageError(StorageFault::NoSuchTable));
    }
    let mut picked: Vec<VersionLogRecord> = Vec::new();
    let mut keys: Vec<Key> = Vec::new();
    let mut i: usize = 0;
    let ghost all = views(store.version_log@);
    let ghost wanted = filter_text(*entity);
    while i < store.version_log.len()
        invariant
            i <= store.version_log.len(),
            all == views(store.version_log@),
            wanted == filter_text(*entity),
            views(picked@) == matching_records(all.take(i as int), wanted, entity_id),
            keys@ == record_keys(views(picked@), newest_first),
        decreases store.version_log.len() - i,
    {
        let record = &store.version_log[i];
        proof {
            assert(all.take(i + 1).drop_last() =~= all.take(i as int));
            assert(all.take(i + 1).last() == record@);
        }
        let entity_fits = match entity {
            Some(e) => record.entity == *e,
            None => true,
        };
        let id_fits = match entity_id {
            Some(id) => record.entity_id == id,
            None => true,
        };
        if entity_fits && id_fits {
            let ghost before = picked@;
            let copy = record.duplicate();
            if newest_first {
                keys.push(falling_key(copy.ts, copy.id));
            } else {
                keys.push(rising_key(copy.ts, copy.id));
            }
            picked.push(copy);
            proof {
                lemma_views_push(before, copy);
                assert(keys@ =~= record_keys(views(picked@), newest_first));
            }
        }
        i = i + 1;
    }
    assert(all.take(store.version_log@.len() as int) =~= all);
    let rows = sorted_rows(&picked, &keys);
    proof {
        lemma_stable_order_ranked(keys@, keys@.len());
        let order = stable_order(keys@, keys@.len());
        assert forall|i: int, j: int| 0 <= i < j < rows@.len() implies if newest_first {
            not_older(rows@[i]@, rows@[j]@)
        } else {
            not_older(rows@[j]@, rows@[i]@)
        } by {
            assert(precedes(keys@, order[i] as int, order[j] as int));
            assert(views(rows@)[i] == views(picked@)[order[i] as int]);
            assert(views(rows@)[j] == views(picked@)[order[j] as int]);
        }
    }
    Ok(rows)
}

/// Lists the audit records that pass the filters, newest first: by
/// descending timestamp, then by descending identifier.
pub fn list_version_log(store: &Store, entity: Option<String>, entity_id: Option<i64>) -> (r: Result<
    Vec<VersionLogRecord>,
    DbError,
>)
    ensures
        match table_fault(store@.schema.version_log) {
            Some(e) => r == Err::<Vec<VersionLogRecord>, DbError>(e),
            None => {
                &&& r matches Ok(rows)
                &&& views(rows@) == selected_records(
                    store@.version_log,
                    filter_text(entity),
                    entity_id,
                    true,
                )
                &&& views(rows@).to_multiset() == matching_records(
                    store@.version_log,
                    filter_text(entity),
                    entity_id,
                ).to_multiset()
                &&& forall|i: int, j: int|
                    0 <= i < j < rows@.len() ==> not_older(rows@[i]@, rows@[j]@)
            },
        },
{
    select_version_log(store, &entity, entity_id, true)
}

/// Lists the audit records that pass the filters in the order in which they
/// were written: by ascending timestamp, then by ascending identifier.
pub fn get_version_log(store: &Store, entity: Option<&str>, entity_id: Option<i64>) -> (r: Result<
    Vec<VersionLogRecord>,
    DbError,
>)
    ensures
        match table_fault(store@.schema.version_log) {
            Some(e) => r == Err::<Vec<VersionLogRecord>, DbError>(e),
            None => {
                &&& r matches Ok(rows)
                &&& views(rows@) == selected_records(
                    store@.version_log,
                    match entity {
                        Some(e) => Some(e@),
                        None => None,
                    },
                    entity_id,
                    false,
                )
                &&& views(rows@).to_multiset() == matching_records(
                    store@.version_log,
                    match entity {
                        Some(e) => Some(e@),
                        None => None,
                    },
                    entity_id,
                ).to_multiset()
                &&& forall|i: int, j: int|
                    0 <= i < j < rows@.len() ==> not_older(rows@[j]@, rows@[i]@)
            },
        },
{
    let wanted: Option<String> = match entity {
        Some(e) => Some(String::from_str(e)),
        None => None,
    };
    select_version_log(store, &wanted, entity_id, false)
}

} // verus!
