//! Forward-only schema migrations, and the opening of a store.
//!
//! The `meta` table holds the schema version as decimal text. Opening a store
//! applies, in order, every migration whose target lies above that version,
//! and then makes sure that the store has a signing identity.

use crate::crypto::CryptoError;
use crate::db::integrity::{consistent, ledger_consistent, lemma_consistent_by_tables};
use crate::db::keystore::{
    ensure_ed25519_keys, has_signing_identity, identity_sound, keys_ensured,
    keystore_names_unique, lemma_keys_ensured, signing_identity,
};
use crate::db::{views, DbError, Schema, StorageFault, Store, StoreView};
use crate::text::{i64_to_text, int_text, lemma_int_text_reads_back, parse_i32, parse_i32_text};
use vstd::prelude::*;
use vstd::string::StringExecFns;

verus! {

/// The schema version that the migrations lead to.
pub const LATEST_VERSION: i32 = 7;

/// The recorded schema version as text: the first row of `meta`.
pub open spec fn recorded_version(s: StoreView) -> Result<Seq<char>, DbError> {
    if !s.schema.meta {
        Err(DbError::StorageError(StorageFault::NoSuchTable))
    } else if s.meta.len() == 0 {
        Err(DbError::StorageError(StorageFault::NoRows))
    } else {
        Ok(s.meta[0])
    }
}

/// `meta` with every row set to `version`.
pub open spec fn meta_set_to(meta: Seq<Seq<char>>, version: Seq<char>) -> Seq<Seq<char>> {
    Seq::new(meta.len(), |i: int| version)
}

/// The rows of `meta` once the table is known to exist: a store that never
/// recorded a version starts at `0`.
pub open spec fn meta_rows(s: StoreView) -> Seq<Seq<char>> {
    if s.meta.len() == 0 {
        seq![int_text(0)]
    } else {
        s.meta
    }
}

/// The version from which the migrations start, `None` where the recorded
/// text is no 32-bit integer.
pub open spec fn start_version(s: StoreView) -> Option<i32> {
    parse_i32_text(meta_rows(s)[0])
}

/// The store after the migrations ran from version `from`: each table whose
/// migration lies above `from` exists, and where anything was applied the
/// recorded version is the latest.
pub open spec fn migrated_from(s: StoreView, from: i32) -> StoreView {
    StoreView {
        schema: Schema {
            meta: true,
            accounts: s.schema.accounts || from < 2,
            operations: s.schema.operations || from < 3,
            states: s.schema.states || from < 4,
            version_log: s.schema.version_log || from < 5,
            keystore: s.schema.keystore || from < 6,
            version_signatures: s.schema.version_signatures || from < 7,
        },
        meta: if from < LATEST_VERSION {
            meta_set_to(meta_rows(s), int_text(LATEST_VERSION as int))
        } else {
            meta_rows(s)
        },
        ..s
    }
}

/// The store after the migrations ran, for a store whose recorded version is
/// a number.
pub open spec fn migrated(s: StoreView) -> StoreView {
    migrated_from(s, start_version(s).unwrap())
}

/// Every table exists.
pub open spec fn schema_complete(schema: Schema) -> bool {
    &&& schema.meta
    &&& schema.accounts
    &&& schema.operations
    &&& schema.states
    &&& schema.version_log
    &&& schema.keystore
    &&& schema.version_signatures
}

/// The SQL statements that carry out the migration to the version `target`
/// on a relational store: the table of that version and its indexes. No
/// statements belong to a version that is none of the seven.
pub open spec fn migration_sql(target: i32) -> Seq<Seq<char>> {
    if target == 1 {
        seq![
            "CREATE TABLE IF NOT EXISTS meta (version TEXT NOT NULL)"@,
        ]
    } else if target == 2 {
        seq![
            "CREATE TABLE IF NOT EXISTS accounts (id INTEGER PRIMARY KEY AUTOINCREMENT, \
            name TEXT NOT NULL, type TEXT NOT NULL, created_at INTEGER NOT NULL)"@,
            "CREATE INDEX IF NOT EXISTS idx_accounts_type ON accounts(type)"@,
        ]
    } else if target == 3 {
        seq![
            "CREATE TABLE IF NOT EXISTS operations (id INTEGER PRIMARY KEY AUTOINCREMENT, \
            account_id INTEGER NOT NULL, amount REAL NOT NULL, description TEXT NOT NULL, \
            ts INTEGER NOT NULL, FOREIGN KEY (account_id) REFERENCES accounts(id) ON \
            DELETE CASCADE)"@,
            "CREATE INDEX IF NOT EXISTS idx_operations_account_id ON operations(account_id)"@,
            "CREATE INDEX IF NOT EXISTS idx_operations_ts ON operations(ts)"@,
        ]
    } else if target == 4 {
        seq![
            "CREATE TABLE IF NOT EXISTS states (id INTEGER PRIMARY KEY AUTOINCREMENT, \
            account_id INTEGER NOT NULL, balance REAL NOT NULL, ts INTEGER NOT NULL, \
            FOREIGN KEY (account_id) REFERENCES accounts(id) ON DELETE CASCADE)"@,
            "CREATE INDEX IF NOT EXISTS idx_states_account_id ON states(account_id)"@,
            "CREATE INDEX IF NOT EXISTS idx_states_ts ON states(ts)"@,
            "CREATE UNIQUE INDEX IF NOT EXISTS idx_states_account_ts ON states(account_id, ts)"@,
        ]
    } else if target == 5 {
        seq![
            "CREATE TABLE IF NOT EXISTS version_log (id INTEGER PRIMARY KEY AUTOINCREMENT, \
            entity TEXT NOT NULL, entity_id INTEGER NOT NULL, action TEXT NOT NULL, \
            payload TEXT NOT NULL, ts INTEGER NOT NULL)"@,
            "CREATE INDEX IF NOT EXISTS idx_version_log_entity ON version_log(entity, \
            entity_id)"@,
            "CREATE INDEX IF NOT EXISTS idx_version_log_ts ON version_log(ts)"@,
            "CREATE INDEX IF NOT EXISTS idx_version_log_action ON version_log(action)"@,
        ]
    } else if target == 6 {
        seq![
            "CREATE TABLE IF NOT EXISTS keystore (key TEXT PRIMARY KEY, value BLOB NOT NULL)"@,
        ]
    } else if target == 7 {
        seq![
            "CREATE TABLE IF NOT EXISTS version_signatures (id INTEGER PRIMARY KEY \
            AUTOINCREMENT, version_id INTEGER NOT NULL, signature BLOB NOT NULL, \
            public_key BLOB NOT NULL, ts INTEGER NOT NULL, FOREIGN KEY (version_id) \
            REFERENCES version_log(id) ON DELETE CASCADE)"@,
            "CREATE INDEX IF NOT EXISTS idx_version_signatures_version_id ON \
            version_signatures(version_id)"@,
            "CREATE INDEX IF NOT EXISTS idx_version_signatures_ts ON version_signatures(ts)"@,
        ]
    } else {
        Seq::empty()
    }
}

/// Lists the SQL statements of the migration to the version `target`.
pub fn migration_statements(target: i32) -> (r: Vec<&'static str>)
    ensures
        r@.len() == migration_sql(target).len(),
        forall|i: int| 0 <= i < r@.len() ==> (#[trigger] r@[i])@ == migration_sql(target)[i],
{
    let mut r: Vec<&'static str> = Vec::new();
    if target == 1 {
        r.push(
            "CREATE TABLE IF NOT EXISTS meta (version TEXT NOT NULL)",
        );
    } else if target == 2 {
        r.push(
            "CREATE TABLE IF NOT EXISTS accounts (id INTEGER PRIMARY KEY AUTOINCREMENT, \
            name TEXT NOT NULL, type TEXT NOT NULL, created_at INTEGER NOT NULL)",
        );
        r.push(
            "CREATE INDEX IF NOT EXISTS idx_accounts_type ON accounts(type)",
        );
    } else if target == 3 {
        r.push(
            "CREATE TABLE IF NOT EXISTS operations (id INTEGER PRIMARY KEY AUTOINCREMENT, \
            account_id INTEGER NOT NULL, amount REAL NOT NULL, description TEXT NOT NULL, \
            ts INTEGER NOT NULL, FOREIGN KEY (account_id) REFERENCES accounts(id) ON \
            DELETE CASCADE)",
        );
        r.push(
            "CREATE INDEX IF NOT EXISTS idx_operations_account_id ON operations(account_id)",
        );
        r.push(
            "CREATE INDEX IF NOT EXISTS idx_operations_ts ON operations(ts)",
        );
    } else if target == 4 {
        r.push(
            "CREATE TABLE IF NOT EXISTS states (id INTEGER PRIMARY KEY AUTOINCREMENT, \
            account_id INTEGER NOT NULL, balance REAL NOT NULL, ts INTEGER NOT NULL, \
            FOREIGN KEY (account_id) REFERENCES accounts(id) ON DELETE CASCADE)",
        );
        r.push(
            "CREATE INDEX IF NOT EXISTS idx_states_account_id ON states(account_id)",
        );
        r.push(
            "CREATE INDEX IF NOT EXISTS idx_states_ts ON states(ts)",
        );
        r.push(
            "CREATE UNIQUE INDEX IF NOT EXISTS idx_states_account_ts ON states(account_id, ts)",
        );
    } else if target == 5 {
        r.push(
            "CREATE TABLE IF NOT EXISTS version_log (id INTEGER PRIMARY KEY AUTOINCREMENT, \
            entity TEXT NOT NULL, entity_id INTEGER NOT NULL, action TEXT NOT NULL, \
            payload TEXT NOT NULL, ts INTEGER NOT NULL)",
        );
        r.push(
            "CREATE INDEX IF NOT EXISTS idx_version_log_entity ON version_log(entity, \
            entity_id)",
        );
        r.push(
            "CREATE INDEX IF NOT EXISTS idx_version_log_ts ON version_log(ts)",
        );
        r.push(
            "CREATE INDEX IF NOT EXISTS idx_version_log_action ON version_log(action)",
        );
    } else if target == 6 {
        r.push(
            "CREATE TABLE IF NOT EXISTS keystore (key TEXT PRIMARY KEY, value BLOB NOT NULL)",
        );
    } else if target == 7 {
        r.push(
            "CREATE TABLE IF NOT EXISTS version_signatures (id INTEGER PRIMARY KEY \
            AUTOINCREMENT, version_id INTEGER NOT NULL, signature BLOB NOT NULL, \
            public_key BLOB NOT NULL, ts INTEGER NOT NULL, FOREIGN KEY (version_id) \
            REFERENCES version_log(id) ON DELETE CASCADE)",
        );
        r.push(
            "CREATE INDEX IF NOT EXISTS idx_version_signatures_version_id ON \
            version_signatures(version_id)",
        );
        r.push(
            "CREATE INDEX IF NOT EXISTS idx_version_signatures_ts ON version_signatures(ts)",
        );
    }
    r
}

/// Reads the recorded schema version.
pub fn get_db_version(store: &Store) -> (r: Result<String, DbError>)
    ensures
        match r {
            Ok(version) => recorded_version(store@) == Ok::<Seq<char>, DbError>(version@),
            Err(e) => recorded_version(store@) == Err::<Seq<char>, DbError>(e),
        },
{
    if !store.schema.meta {
        return Err(DbError::StorageError(StorageFault::NoSuchTable));
    }
    if store.meta.len() == 0 {
        return Err(DbError::StorageError(StorageFault::NoRows));
    }
    Ok(store.meta[0].clone())
}

fn set_meta_rows(store: &mut Store, version: &String)
    ensures
        final(store)@ == (StoreView {
            meta: meta_set_to(old(store)@.meta, version@),
            ..old(store)@
        }),
{
    let mut rows: Vec<String> = Vec::new();
    let mut i: usize = 0;
    while i < store.meta.len()
        invariant
            i <= store.meta.len(),
            rows@.len() == i,
            forall|j: int| 0 <= j < i ==> (#[trigger] rows@[j])@ == version@,
        decreases store.meta.len() - i,
    {
        rows.push(version.clone());
        i = i + 1;
    }
    assert(views(rows@) =~= meta_set_to(old(store)@.meta, version@));
    store.meta = rows;
}

/// Overwrites the recorded schema version.
pub fn update_db_version(store: &mut Store, new_version: &str) -> (r: Result<(), DbError>)
    ensures
        if old(store)@.schema.meta {
            r is Ok && final(store)@ == (StoreView {
                meta: meta_set_to(old(store)@.meta, new_version@),
                ..old(store)@
            })
        } else {
            r == Err::<(), DbError>(DbError::StorageError(StorageFault::NoSuchTable))
                && final(store)@ == old(store)@
        },
{
    if !store.schema.meta {
        return Err(DbError::StorageError(StorageFault::NoSuchTable));
    }
    let version = String::from_str(new_version);
    set_meta_rows(store, &version);
    Ok(())
}

/// Reads the version from which the migrations start.
fn get_current_version(store: &Store) -> (r: Result<i32, DbError>)
    ensures
        match start_version(store@) {
            Some(version) => r == Ok::<i32, DbError>(version),
            None => r == Err::<i32, DbError>(DbError::MigrationError),
        },
{
    proof {
        lemma_int_text_reads_back(0);
    }
    if store.meta.len() == 0 {
        return Ok(0);
    }
    match parse_i32(store.meta[0].as_str()) {
        Some(version) => Ok(version),
        None => Err(DbError::MigrationError),
    }
}

/// Records `version` as the schema version.
fn update_version(store: &mut Store, version: i32)
    ensures
        final(store)@ == (StoreView {
            meta: meta_set_to(old(store)@.meta, int_text(version as int)),
            ..old(store)@
        }),
{
    let text = i64_to_text(version as i64);
    set_meta_rows(store, &text);
}

/// Creates the `meta` table, with the version `0` where it holds no row.
fn create_meta_table(store: &mut Store)
    ensures
        final(store)@ == (StoreView {
            schema: Schema { meta: true, ..old(store)@.schema },
            meta: meta_rows(old(store)@),
            ..old(store)@
        }),
{
    store.schema.meta = true;
    if store.meta.len() == 0 {
        store.meta.push(i64_to_text(0));
        assert(views(store.meta@) =~= seq![int_text(0)]);
    }
}

/// Migration 1: the `meta` table, which exists by now.
fn migration_v1(store: &mut Store)
    ensures
        final(store)@ == old(store)@,
{
}

/// Migration 2: the `accounts` table.
fn migration_v2_accounts(store: &mut Store)
    ensures
        final(store)@ == (StoreView {
            schema: Schema { accounts: true, ..old(store)@.schema },
            ..old(store)@
        }),
{
    store.schema.accounts = true;
}

/// Migration 3: the `operations` table.
fn migration_v3_operations(store: &mut Store)
    ensures
        final(store)@ == (StoreView {
            schema: Schema { operations: true, ..old(store)@.schema },
            ..old(store)@
        }),
{
    store.schema.operations = true;
}

/// Migration 4: the `states` table.
fn migration_v4_states(store: &mut Store)
    ensures
        final(store)@ == (StoreView {
            schema: Schema { states: true, ..old(store)@.schema },
            ..old(store)@
        }),
{
    store.schema.states = true;
}

/// Migration 5: the `version_log` table.
fn migration_v5_version_log(store: &mut Store)
    ensures
        final(store)@ == (StoreView {
            schema: Schema { version_log: true, ..old(store)@.schema },
            ..old(store)@
        }),
{
    store.schema.version_log = true;
}

/// Migration 6: the `keystore` table.
fn migration_v6_keystore(store: &mut Store)
    ensures
        final(store)@ == (StoreView {
            schema: Schema { keystore: true, ..old(store)@.schema },
            ..old(store)@
        }),
{
    store.schema.keystore = true;
}

/// Migration 7: the `version_signatures` table.
fn migration_v7_version_signatures(store: &mut Store)
    ensures
        final(store)@ == (StoreView {
            schema: Schema { version_signatures: true, ..old(store)@.schema },
            ..old(store)@
        }),
{
    store.schema.version_signatures = true;
}

/// Brings the schema to the latest version. A recorded version that is no
/// number is an error, and the store then stays as it was.
pub fn run_migrations(store: &mut Store) -> (r: Result<(), DbError>)
    ensures
        match start_version(old(store)@) {
            Some(_) => r is Ok && final(store)@ == migrated(old(store)@),
            None => r == Err::<(), DbError>(DbError::MigrationError) && final(store)@ == old(store)@,
        },
{
    let version = match get_current_version(store) {
        Ok(version) => version,
        Err(e) => {
            return Err(e);
        },
    };
    create_meta_table(store);
    let ghost rows = meta_rows(old(store)@);
    if version < 1 {
        migration_v1(store);
        update_version(store, 1);
    }
    if version < 2 {
        migration_v2_accounts(store);
        update_version(store, 2);
    }
    if version < 3 {
        migration_v3_operations(store);
        update_version(store, 3);
    }
    if version < 4 {
        migration_v4_states(store);
        update_version(store, 4);
    }
    if version < 5 {
        migration_v5_version_log(store);
        update_version(store, 5);
    }
    if version < 6 {
        migration_v6_keystore(store);
        update_version(store, 6);
    }
    assert(store@.meta.len() == rows.len());
    if version < 7 {
        migration_v7_version_signatures(store);
        update_version(store, 7);
    }
    proof {
        assert(store@.meta =~= migrated(old(store)@).meta);
    }
    Ok(())
}

/// What opening does to a store `before`, as a relation between it, the
/// store after and the result. Where the recorded version is no number,
/// nothing changes. Else the migrations are applied, and the signing
/// identity is made sure of on what they lead to.
pub open spec fn opened(before: StoreView, after: StoreView, r: Result<(), DbError>) -> bool {
    match start_version(before) {
        Some(_) => keys_ensured(migrated(before), after, r),
        None => r == Err::<(), DbError>(DbError::MigrationError) && after == before,
    }
}

/// Opens a store: runs the migrations, then makes sure that the keystore
/// holds a signing identity. Where the recorded version is no number nothing
/// changes. Where no key pair can be generated the migrations stay applied.
/// After a successful opening the keystore holds both keys, and a ledger
/// that was consistent in its tables, with a sound signing identity or with
/// none, is consistent.
pub fn init_db(store: &mut Store) -> (r: Result<(), DbError>)
    ensures
        opened(old(store)@, final(store)@, r),
        r is Ok ==> has_signing_identity(final(store)@),
        r is Ok && ledger_consistent(old(store)@) && (identity_sound(old(store)@)
            || !has_signing_identity(old(store)@)) ==> consistent(final(store)@),
        keystore_names_unique(old(store)@.keystore) ==> keystore_names_unique(
            final(store)@.keystore,
        ),
{
    match run_migrations(store) {
        Ok(()) => {},
        Err(e) => {
            return Err(e);
        },
    }
    let ghost before = store@;
    let r = ensure_ed25519_keys(store);
    proof {
        if r is Ok {
            lemma_keys_ensured(before, store@);
            if ledger_consistent(old(store)@) {
                lemma_consistent_by_tables(old(store)@, store@);
            }
        }
    }
    r
}

/// A fresh store: when a store that was never opened is opened, the latest
/// version is recorded as the one text `7` and every table exists and is
/// empty but for the keystore, whatever the result. The opening succeeds
/// unless no key pair could be generated. Where it succeeds the keystore
/// holds a signing identity whose keys belong together, and the ledger is
/// consistent.
pub proof fn lemma_fresh_store_opens(after: StoreView, r: Result<(), DbError>)
    requires
        opened(crate::db::blank_store(), after, r),
    ensures
        recorded_version(after) == Ok::<Seq<char>, DbError>("7"@),
        after.meta == seq!["7"@],
        schema_complete(after.schema),
        after.accounts.len() == 0,
        after.operations.len() == 0,
        after.states.len() == 0,
        after.version_log.len() == 0,
        after.version_signatures.len() == 0,
        r is Ok || r == Err::<(), DbError>(DbError::CryptoError(CryptoError::KeyGenerationError)),
        r is Ok ==> consistent(after),
{
    reveal_strlit("7");
    lemma_fresh_store_reaches_latest();
    assert(int_text(7) =~= "7"@);
    let m = migrated(crate::db::blank_store());
    assert(signing_identity(m) is None);
    if r is Ok {
        lemma_keys_ensured(m, after);
    }
    crate::db::integrity::lemma_empty_ledger_consistent(after);
}

/// Forward migrations: opening a store again changes nothing. Where a first
/// opening succeeded, a second one succeeds and leaves every table, the
/// schema, the recorded version and the keystore as they are.
pub proof fn lemma_reopening_changes_nothing(
    s: StoreView,
    first: StoreView,
    second: StoreView,
    r: Result<(), DbError>,
)
    requires
        opened(s, first, Ok::<(), DbError>(())),
        opened(first, second, r),
    ensures
        r is Ok,
        second == first,
{
    lemma_migrations_run_once(s);
    lemma_keys_ensured(migrated(s), first);
    let m = migrated(s);
    assert(first.meta == m.meta);
    assert(first.schema == m.schema);
    assert(start_version(first) == start_version(m));
    assert(migrated(first).meta == migrated(m).meta);
    assert(migrated(first) == first);
}

/// A store that was never opened comes out of the migrations with every
/// table and the latest version recorded.
pub proof fn lemma_fresh_store_reaches_latest()
    ensures
        start_version(crate::db::blank_store()) == Some(0i32),
        schema_complete(migrated(crate::db::blank_store()).schema),
        migrated(crate::db::blank_store()).meta == seq![int_text(LATEST_VERSION as int)],
        recorded_version(migrated(crate::db::blank_store())) == Ok::<Seq<char>, DbError>(
            int_text(LATEST_VERSION as int),
        ),
        start_version(migrated(crate::db::blank_store())) == Some(LATEST_VERSION),
{
    lemma_int_text_reads_back(0);
    lemma_int_text_reads_back(7);
    let m = migrated(crate::db::blank_store());
    assert(m.meta =~= seq![int_text(7)]);
}

/// Running the migrations again changes nothing: what they lead to is a
/// store from which they lead nowhere else. The recorded version never
/// falls.
pub proof fn lemma_migrations_run_once(s: StoreView)
    requires
        start_version(s) is Some,
    ensures
        start_version(migrated(s)) is Some,
        start_version(migrated(s)).unwrap() >= start_version(s).unwrap(),
        migrated(migrated(s)) == migrated(s),
{
    lemma_int_text_reads_back(7);
    let from = start_version(s).unwrap();
    let m = migrated(s);
    assert(m.meta.len() > 0);
    if from < 7 {
        assert(m.meta[0] == int_text(7));
        assert(start_version(m) == Some(7i32));
        assert(meta_rows(m) == m.meta);
    } else {
        assert(meta_rows(m) == meta_rows(s));
        assert(start_version(m) == Some(from));
    }
    assert(migrated(m).meta =~= m.meta);
}

} // verus!
