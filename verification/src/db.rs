//! The ledger store: its tables as plain values, and every operation on them.
//!
//! A `Store` holds the rows of one ledger file in memory. Reading a file into
//! a `Store` and writing one back is left to the caller, and so is reading
//! the clock: every mutation takes the current time in seconds since the Unix
//! epoch. Everything between the two happens here. An operation that fails
//! leaves the store as it was.
//!
//! Amounts and balances are whole numbers of hundredths, so that sums are
//! exact. Identifiers are handed out in ascending order, one more than the
//! largest of the table.
//!
//! The fields of a `Store` are open on purpose: a ledger file can be changed
//! behind the back of this library, and the audit trail is there to show it.
//! What holds of a store that only this library wrote is stated in
//! `integrity`.

pub mod allocation;
pub mod audit;
pub mod history;
pub mod integrity;
pub mod keystore;
pub mod ledger;
pub mod migrations;
pub mod payload;
pub mod queries;

pub use self::allocation::get_asset_allocation;
pub use self::audit::{verify_version_signature, write_version_log};
pub use self::history::{get_version_log, list_version_log};
pub use self::keystore::{
    delete_key_from_keystore, ensure_ed25519_keys, key_exists_in_keystore, load_key_from_keystore,
    save_key_to_keystore,
};
pub use self::ledger::{add_operation, create_account};
pub use self::migrations::{get_db_version, init_db, run_migrations, update_db_version};
pub use self::payload::serialize_entity;
pub use self::queries::{
    get_account_balance, get_balance_history, get_net_worth, get_operations, list_accounts,
};

use crate::crypto::CryptoError;
use vstd::prelude::*;
use vstd::string::StringExecFns;

verus! {

/// A failure of the store itself.
#[derive(Debug, Clone, Copy, PartialEq, Eq, Structural)]
pub enum StorageFault {
    /// The table that the operation works on has not been created yet.
    NoSuchTable,
    /// A query for one row found none.
    NoRows,
    /// A row refers to an account that does not exist.
    ForeignKey,
    /// A table has used up its row identifiers.
    RowIdExhausted,
    /// No later timestamp is left for a new balance snapshot.
    TimestampExhausted,
    /// A balance does not fit into 64 bits.
    BalanceOutOfRange,
}

/// Why an operation on the store failed.
#[derive(Debug, Clone, Copy, PartialEq, Eq, Structural)]
pub enum DbError {
    /// The store refused the operation.
    StorageError(StorageFault),
    /// The recorded schema version is not a number.
    MigrationError,
    /// A key or a signature is malformed.
    CryptoError(CryptoError),
    /// The keystore lacks the Ed25519 signing key or its public key.
    SigningIdentityMissing,
    /// The canonical payload of an entity could not be produced.
    SerializationError,
    /// No audit record or no signature with the given identifier.
    NotFound,
}

impl StorageFault {
    /// The words for the failure.
    pub open spec fn message_text(&self) -> Seq<char> {
        match self {
            StorageFault::NoSuchTable => "no such table"@,
            StorageFault::NoRows => "query returned no rows"@,
            StorageFault::ForeignKey => "FOREIGN KEY constraint failed"@,
            StorageFault::RowIdExhausted => "database or disk is full"@,
            StorageFault::TimestampExhausted => "no later timestamp is left for the account"@,
            StorageFault::BalanceOutOfRange => "balance out of range"@,
        }
    }

    /// Says the failure in words.
    pub fn message(&self) -> (r: String)
        ensures
            r@ == self.message_text(),
    {
        let text = match self {
            StorageFault::NoSuchTable => "no such table",
            StorageFault::NoRows => "query returned no rows",
            StorageFault::ForeignKey => "FOREIGN KEY constraint failed",
            StorageFault::RowIdExhausted => "database or disk is full",
            StorageFault::TimestampExhausted => "no later timestamp is left for the account",
            StorageFault::BalanceOutOfRange => "balance out of range",
        };
        String::from_str(text)
    }
}

impl DbError {
    /// The words for the failure: its kind, and what went wrong.
    pub open spec fn message_text(&self) -> Seq<char> {
        match self {
            DbError::StorageError(fault) => "Storage error: "@ + fault.message_text(),
            DbError::MigrationError => "Migration error: Invalid version format"@,
            DbError::CryptoError(e) => "Crypto error: "@ + e.message_text(),
            DbError::SigningIdentityMissing =>
                "Signing identity missing: Ed25519 key not found in keystore"@,
            DbError::SerializationError =>
                "Serialization error: canonical payload could not be produced"@,
            DbError::NotFound => "Not found: no such audit record or signature"@,
        }
    }

    /// Says the failure in words.
    pub fn message(&self) -> (r: String)
        ensures
            r@ == self.message_text(),
    {
        match self {
            DbError::StorageError(fault) => String::from_str("Storage error: ").concat(
                fault.message().as_str(),
            ),
            DbError::MigrationError => String::from_str("Migration error: Invalid version format"),
            DbError::CryptoError(e) => String::from_str("Crypto error: ").concat(
                e.message().as_str(),
            ),
            DbError::SigningIdentityMissing => String::from_str(
                "Signing identity missing: Ed25519 key not found in keystore",
            ),
            DbError::SerializationError => String::from_str(
                "Serialization error: canonical payload could not be produced",
            ),
            DbError::NotFound => String::from_str("Not found: no such audit record or signature"),
        }
    }
}

/// Where a store lives.
#[derive(Debug, Clone, PartialEq, Eq)]
pub struct DbConfig {
    pub path: String,
}

/// The outcome of a maintenance command, as shown to the user.
#[derive(Debug, Clone, PartialEq, Eq)]
pub struct DbResult {
    pub success: bool,
    pub message: String,
}

/// An account: a named container of operations with a free-form type tag.
#[derive(Debug, Clone, PartialEq, Eq)]
pub struct Account {
    pub id: i64,
    pub name: String,
    pub acc_type: String,
    pub created_at: i64,
}

/// A monetary event on an account. The amount is held in hundredths;
/// positive amounts flow in, negative ones out.
#[derive(Debug, Clone, PartialEq, Eq)]
pub struct Operation {
    pub id: i64,
    pub account_id: i64,
    pub amount: i64,
    pub description: String,
    pub ts: i64,
}

/// A balance snapshot, in hundredths, written with each operation.
#[derive(Debug, Clone, Copy, PartialEq, Eq, Structural)]
pub struct State {
    pub id: i64,
    pub account_id: i64,
    pub balance: i64,
    pub ts: i64,
}

/// The share of one account type in the net worth, in hundredths.
#[derive(Debug, Clone, PartialEq, Eq)]
pub struct AssetAllocation {
    pub asset_type: String,
    pub total_balance: i128,
    pub account_count: u64,
}

/// An audit record: the snapshot of an entity at the time of an action.
#[derive(Debug, Clone, PartialEq, Eq)]
pub struct VersionLogRecord {
    pub id: i64,
    pub entity: String,
    pub entity_id: i64,
    pub action: String,
    pub payload: String,
    pub ts: i64,
}

/// The detached signature of an audit record, with the public key that
/// witnessed it.
#[derive(Debug, Clone, PartialEq, Eq)]
pub struct SignatureRecord {
    pub id: i64,
    pub version_id: i64,
    pub signature: Vec<u8>,
    pub public_key: Vec<u8>,
    pub ts: i64,
}

/// A named blob of the keystore.
#[derive(Debug, Clone, PartialEq, Eq)]
pub struct KeystoreEntry {
    pub key: String,
    pub value: Vec<u8>,
}

/// Which tables exist.
#[derive(Debug, Clone, Copy, PartialEq, Eq, Structural)]
pub struct Schema {
    pub meta: bool,
    pub accounts: bool,
    pub operations: bool,
    pub states: bool,
    pub version_log: bool,
    pub keystore: bool,
    pub version_signatures: bool,
}

/// The tables of one ledger, each in the order in which its rows were
/// inserted.
#[derive(Debug, Clone, PartialEq, Eq)]
pub struct Store {
    pub schema: Schema,
    pub meta: Vec<String>,
    pub accounts: Vec<Account>,
    pub operations: Vec<Operation>,
    pub states: Vec<State>,
    pub version_log: Vec<VersionLogRecord>,
    pub keystore: Vec<KeystoreEntry>,
    pub version_signatures: Vec<SignatureRecord>,
}

/// What an account is: its persisted fields as plain values.
pub struct AccountView {
    pub id: i64,
    pub name: Seq<char>,
    pub acc_type: Seq<char>,
    pub created_at: i64,
}

/// What an operation is.
pub struct OperationView {
    pub id: i64,
    pub account_id: i64,
    pub amount: i64,
    pub description: Seq<char>,
    pub ts: i64,
}

/// What a row of the asset allocation is.
pub struct AllocationView {
    pub asset_type: Seq<char>,
    pub total_balance: int,
    pub account_count: nat,
}

/// What an audit record is.
pub struct AuditView {
    pub id: i64,
    pub entity: Seq<char>,
    pub entity_id: i64,
    pub action: Seq<char>,
    pub payload: Seq<char>,
    pub ts: i64,
}

/// What a signature record is.
pub struct SignatureView {
    pub id: i64,
    pub version_id: i64,
    pub signature: Seq<u8>,
    pub public_key: Seq<u8>,
    pub ts: i64,
}

/// What a keystore entry is.
pub struct KeyView {
    pub key: Seq<char>,
    pub value: Seq<u8>,
}

/// What a store is: its tables as sequences of plain values.
pub struct StoreView {
    pub schema: Schema,
    pub meta: Seq<Seq<char>>,
    pub accounts: Seq<AccountView>,
    pub operations: Seq<OperationView>,
    pub states: Seq<State>,
    pub version_log: Seq<AuditView>,
    pub keystore: Seq<KeyView>,
    pub version_signatures: Seq<SignatureView>,
}

impl View for Account {
    type V = AccountView;

    open spec fn view(&self) -> AccountView {
        AccountView {
            id: self.id,
            name: self.name@,
            acc_type: self.acc_type@,
            created_at: self.created_at,
        }
    }
}

impl View for Operation {
    type V = OperationView;

    open spec fn view(&self) -> OperationView {
        OperationView {
            id: self.id,
            account_id: self.account_id,
            amount: self.amount,
            description: self.description@,
            ts: self.ts,
        }
    }
}

impl View for State {
    type V = State;

    open spec fn view(&self) -> State {
        *self
    }
}

impl View for AssetAllocation {
    type V = AllocationView;

    open spec fn view(&self) -> AllocationView {
        AllocationView {
            asset_type: self.asset_type@,
            total_balance: self.total_balance as int,
            account_count: self.account_count as nat,
        }
    }
}

impl View for VersionLogRecord {
    type V = AuditView;

    open spec fn view(&self) -> AuditView {
        AuditView {
            id: self.id,
            entity: self.entity@,
            entity_id: self.entity_id,
            action: self.action@,
            payload: self.payload@,
            ts: self.ts,
        }
    }
}

impl View for SignatureRecord {
    type V = SignatureView;

    open spec fn view(&self) -> SignatureView {
        SignatureView {
            id: self.id,
            version_id: self.version_id,
            signature: self.signature@,
            public_key: self.public_key@,
            ts: self.ts,
        }
    }
}

impl View for KeystoreEntry {
    type V = KeyView;

    open spec fn view(&self) -> KeyView {
        KeyView { key: self.key@, value: self.value@ }
    }
}

impl View for Store {
    type V = StoreView;

    open spec fn view(&self) -> StoreView {
        StoreView {
            schema: self.schema,
            meta: views(self.meta@),
            accounts: views(self.accounts@),
            operations: views(self.operations@),
            states: self.states@,
            version_log: views(self.version_log@),
            keystore: views(self.keystore@),
            version_signatures: views(self.version_signatures@),
        }
    }
}

/// The views of the rows of a table, in their order.
pub open spec fn views<T: View>(rows: Seq<T>) -> Seq<T::V> {
    Seq::new(rows.len(), |i: int| rows[i]@)
}

/// The views of a table with one more row.
pub proof fn lemma_views_push<T: View>(rows: Seq<T>, row: T)
    ensures
        views(rows.push(row)) == views(rows).push(row@),
{
    assert(views(rows.push(row)) =~= views(rows).push(row@));
}

/// A value that can be copied.
pub trait Record: View + Sized {
    /// A copy with the same view as `self`.
    fn duplicate(&self) -> (r: Self)
        ensures
            r@ == self@,
    ;
}

/// A copy of a byte vector.
pub fn copy_bytes(bytes: &Vec<u8>) -> (r: Vec<u8>)
    ensures
        r@ == bytes@,
{
    let mut r: Vec<u8> = Vec::new();
    let mut i: usize = 0;
    while i < bytes.len()
        invariant
            i <= bytes.len(),
            r@ == bytes@.take(i as int),
        decreases bytes.len() - i,
    {
        r.push(bytes[i]);
        assert(bytes@.take(i + 1) =~= bytes@.take(i as int).push(bytes@[i as int]));
        i = i + 1;
    }
    assert(bytes@.take(bytes@.len() as int) =~= bytes@);
    r
}

impl Record for Account {
    fn duplicate(&self) -> (r: Self) {
        Account {
            id: self.id,
            name: self.name.clone(),
            acc_type: self.acc_type.clone(),
            created_at: self.created_at,
        }
    }
}

impl Record for Operation {
    fn duplicate(&self) -> (r: Self) {
        Operation {
            id: self.id,
            account_id: self.account_id,
            amount: self.amount,
            description: self.description.clone(),
            ts: self.ts,
        }
    }
}

impl Record for State {
    fn duplicate(&self) -> (r: Self) {
        State { id: self.id, account_id: self.account_id, balance: self.balance, ts: self.ts }
    }
}

impl Record for AssetAllocation {
    fn duplicate(&self) -> (r: Self) {
        AssetAllocation {
            asset_type: self.asset_type.clone(),
            total_balance: self.total_balance,
            account_count: self.account_count,
        }
    }
}

impl Record for VersionLogRecord {
    fn duplicate(&self) -> (r: Self) {
        VersionLogRecord {
            id: self.id,
            entity: self.entity.clone(),
            entity_id: self.entity_id,
            action: self.action.clone(),
            payload: self.payload.clone(),
            ts: self.ts,
        }
    }
}

impl Record for SignatureRecord {
    fn duplicate(&self) -> (r: Self) {
        SignatureRecord {
            id: self.id,
            version_id: self.version_id,
            signature: copy_bytes(&self.signature),
            public_key: copy_bytes(&self.public_key),
            ts: self.ts,
        }
    }
}

/// The largest of the identifiers `ids`, and 0 where none is positive.
pub open spec fn max_id(ids: Seq<i64>) -> int
    decreases ids.len(),
{
    if ids.len() == 0 {
        0
    } else {
        let rest = max_id(ids.drop_last());
        if ids.last() > rest {
            ids.last() as int
        } else {
            rest
        }
    }
}

/// The identifier that the next row of a table gets, whose rows have the
/// identifiers `ids`: one more than the largest so far, if there is one left.
pub open spec fn next_row_id(ids: Seq<i64>) -> Option<i64> {
    if max_id(ids) < i64::MAX {
        Some((max_id(ids) + 1) as i64)
    } else {
        None
    }
}

/// No identifier is above `max_id`.
pub proof fn lemma_max_id_bounds(ids: Seq<i64>)
    ensures
        0 <= max_id(ids) <= i64::MAX,
        forall|i: int| 0 <= i < ids.len() ==> (#[trigger] ids[i]) <= max_id(ids),
    decreases ids.len(),
{
    if ids.len() > 0 {
        lemma_max_id_bounds(ids.drop_last());
        assert forall|i: int| 0 <= i < ids.len() implies (#[trigger] ids[i]) <= max_id(ids) by {
            if i < ids.len() - 1 {
                assert(ids.drop_last()[i] == ids[i]);
            }
        }
    }
}

/// A row of a table with an integer identifier.
pub trait Row: Record {
    /// The identifier of the row.
    spec fn row_id(&self) -> i64;

    /// The identifier of the row.
    fn id(&self) -> (r: i64)
        ensures
            r == self.row_id(),
    ;
}

/// The identifiers of the rows of a table, in their order.
pub open spec fn row_ids<T: Row>(rows: Seq<T>) -> Seq<i64> {
    Seq::new(rows.len(), |i: int| rows[i].row_id())
}

impl Row for Account {
    open spec fn row_id(&self) -> i64 {
        self.id
    }

    fn id(&self) -> (r: i64) {
        self.id
    }
}

impl Row for Operation {
    open spec fn row_id(&self) -> i64 {
        self.id
    }

    fn id(&self) -> (r: i64) {
        self.id
    }
}

impl Row for State {
    open spec fn row_id(&self) -> i64 {
        self.id
    }

    fn id(&self) -> (r: i64) {
        self.id
    }
}

impl Row for VersionLogRecord {
    open spec fn row_id(&self) -> i64 {
        self.id
    }

    fn id(&self) -> (r: i64) {
        self.id
    }
}

impl Row for SignatureRecord {
    open spec fn row_id(&self) -> i64 {
        self.id
    }

    fn id(&self) -> (r: i64) {
        self.id
    }
}

/// A plain value that stands for a row with an integer identifier.
pub trait Keyed {
    /// The identifier of the row.
    spec fn key(&self) -> i64;
}

impl Keyed for AccountView {
    open spec fn key(&self) -> i64 {
        self.id
    }
}

impl Keyed for OperationView {
    open spec fn key(&self) -> i64 {
        self.id
    }
}

impl Keyed for State {
    open spec fn key(&self) -> i64 {
        self.id
    }
}

impl Keyed for AuditView {
    open spec fn key(&self) -> i64 {
        self.id
    }
}

impl Keyed for SignatureView {
    open spec fn key(&self) -> i64 {
        self.id
    }
}

/// The identifiers of the rows of a table, in their order.
pub open spec fn ids<V: Keyed>(rows: Seq<V>) -> Seq<i64> {
    Seq::new(rows.len(), |i: int| rows[i].key())
}

/// The identifiers of a table with one more row.
pub proof fn lemma_ids_push<V: Keyed>(rows: Seq<V>, row: V)
    ensures
        ids(rows.push(row)) == ids(rows).push(row.key()),
{
    assert(ids(rows.push(row)) =~= ids(rows).push(row.key()));
}

/// Each identifier is smaller than those behind it.
pub open spec fn ascending(ids: Seq<i64>) -> bool {
    forall|i: int, j: int| 0 <= i < j < ids.len() ==> ids[i] < ids[j]
}

/// How often `id` occurs among `ids`.
pub open spec fn occurrences(ids: Seq<i64>, id: i64) -> nat
    decreases ids.len(),
{
    if ids.len() == 0 {
        0
    } else if ids.last() == id {
        occurrences(ids.drop_last(), id) + 1
    } else {
        occurrences(ids.drop_last(), id)
    }
}

/// The occurrences in a sequence with one more identifier.
pub proof fn lemma_occurrences_push(ids: Seq<i64>, new_id: i64, id: i64)
    ensures
        occurrences(ids.push(new_id), id) == occurrences(ids, id) + if new_id == id {
            1nat
        } else {
            0nat
        },
{
    assert(ids.push(new_id).drop_last() =~= ids);
}

/// An identifier above all others does not occur among them.
pub proof fn lemma_occurrences_of_larger(ids: Seq<i64>, id: i64)
    requires
        forall|i: int| 0 <= i < ids.len() ==> ids[i] < id,
    ensures
        occurrences(ids, id) == 0,
    decreases ids.len(),
{
    if ids.len() > 0 {
        assert(ids[ids.len() - 1] < id);
        assert forall|i: int| 0 <= i < ids.drop_last().len() implies ids.drop_last()[i] < id by {
            assert(ids.drop_last()[i] == ids[i]);
        }
        lemma_occurrences_of_larger(ids.drop_last(), id);
    }
}

/// In an ascending sequence every identifier occurs once.
pub proof fn lemma_ascending_occurs_once(ids: Seq<i64>, i: int)
    requires
        ascending(ids),
        0 <= i < ids.len(),
    ensures
        occurrences(ids, ids[i]) == 1,
    decreases ids.len(),
{
    let shorter = ids.drop_last();
    assert forall|a: int, b: int| 0 <= a < b < shorter.len() implies shorter[a] < shorter[b] by {
        assert(shorter[a] == ids[a]);
        assert(shorter[b] == ids[b]);
    }
    if i == ids.len() - 1 {
        assert forall|a: int| 0 <= a < shorter.len() implies shorter[a] < ids[i] by {
            assert(shorter[a] == ids[a]);
        }
        lemma_occurrences_of_larger(shorter, ids[i]);
    } else {
        assert(shorter[i] == ids[i]);
        lemma_ascending_occurs_once(shorter, i);
    }
}

/// An ascending sequence stays ascending when the next identifier is added,
/// and that identifier is then the largest.
pub proof fn lemma_next_id_ascends(ids: Seq<i64>)
    requires
        max_id(ids) < i64::MAX,
    ensures
        max_id(ids.push((max_id(ids) + 1) as i64)) == max_id(ids) + 1,
        forall|i: int| 0 <= i < ids.len() ==> ids[i] < max_id(ids) + 1,
        ascending(ids) ==> ascending(ids.push((max_id(ids) + 1) as i64)),
{
    lemma_max_id_bounds(ids);
    let next = (max_id(ids) + 1) as i64;
    assert(ids.push(next).drop_last() =~= ids);
}

/// Computes the identifier for the next row of a table.
pub fn next_id<T: Row>(rows: &Vec<T>) -> (r: Option<i64>)
    ensures
        r == next_row_id(row_ids(rows@)),
{
    let mut best: i64 = 0;
    let mut i: usize = 0;
    let ghost ids = row_ids(rows@);
    while i < rows.len()
        invariant
            i <= rows.len(),
            ids == row_ids(rows@),
            best == max_id(ids.take(i as int)),
        decreases rows.len() - i,
    {
        let id = rows[i].id();
        proof {
            assert(ids.take(i + 1).drop_last() =~= ids.take(i as int));
        }
        if id > best {
            best = id;
        }
        i = i + 1;
    }
    assert(ids.take(rows@.len() as int) =~= ids);
    if best < i64::MAX {
        Some(best + 1)
    } else {
        None
    }
}

/// Reads the rows in ascending order of their keys, rows with equal keys in
/// the order in which they stand. What comes out are the same rows, each as
/// often as it went in.
pub fn sorted_rows<T: Record>(rows: &Vec<T>, keys: &Vec<crate::sorting::Key>) -> (r: Vec<T>)
    requires
        keys@.len() == rows@.len(),
    ensures
        views(r@) == crate::sorting::arrange(
            views(rows@),
            crate::sorting::stable_order(keys@, keys@.len()),
        ),
        views(r@).to_multiset() == views(rows@).to_multiset(),
        r@.len() == rows@.len(),
{
    let order = crate::sorting::order_by_keys(keys);
    let r = arrange_rows(rows, &order);
    let count: usize = keys.len();
    proof {
        assert(keys@.len() == count);
        assert(r@.len() == views(r@).len());
        crate::sorting::lemma_arranged_is_permutation(views(rows@), keys@, keys@.len());
        assert(views(rows@).take(keys@.len() as int) =~= views(rows@));
    }
    r
}

/// Reads the rows at the positions `order`, in that order.
pub fn arrange_rows<T: Record>(rows: &Vec<T>, order: &Vec<usize>) -> (r: Vec<T>)
    requires
        forall|k: int| 0 <= k < order@.len() ==> (#[trigger] order@[k]) < rows@.len(),
    ensures
        views(r@) == crate::sorting::arrange(views(rows@), order@),
{
    let mut r: Vec<T> = Vec::new();
    let mut k: usize = 0;
    while k < order.len()
        invariant
            k <= order.len(),
            forall|j: int| 0 <= j < order@.len() ==> (#[trigger] order@[j]) < rows@.len(),
            r@.len() == k,
            forall|j: int| 0 <= j < k ==> (#[trigger] r@[j])@ == rows@[order@[j] as int]@,
        decreases order.len() - k,
    {
        r.push(rows[order[k]].duplicate());
        k = k + 1;
    }
    assert(views(r@) =~= crate::sorting::arrange(views(rows@), order@));
    r
}

/// The schema of a store without tables.
pub open spec fn no_tables() -> Schema {
    Schema {
        meta: false,
        accounts: false,
        operations: false,
        states: false,
        version_log: false,
        keystore: false,
        version_signatures: false,
    }
}

/// The store without tables and rows: what a file is before it is first
/// opened.
pub open spec fn blank_store() -> StoreView {
    StoreView {
        schema: no_tables(),
        meta: Seq::empty(),
        accounts: Seq::empty(),
        operations: Seq::empty(),
        states: Seq::empty(),
        version_log: Seq::empty(),
        keystore: Seq::empty(),
        version_signatures: Seq::empty(),
    }
}

impl Store {
    /// A store without tables.
    pub fn new() -> (r: Self)
        ensures
            r@ == blank_store(),
    {
        let r = Store {
            schema: Schema {
                meta: false,
                accounts: false,
                operations: false,
                states: false,
                version_log: false,
                keystore: false,
                version_signatures: false,
            },
            meta: Vec::new(),
            accounts: Vec::new(),
            operations: Vec::new(),
            states: Vec::new(),
            version_log: Vec::new(),
            keystore: Vec::new(),
            version_signatures: Vec::new(),
        };
        proof {
            assert(r@.meta =~= Seq::empty());
            assert(r@.accounts =~= Seq::empty());
            assert(r@.operations =~= Seq::empty());
            assert(r@.states =~= Seq::empty());
            assert(r@.version_log =~= Seq::empty());
            assert(r@.keystore =~= Seq::empty());
            assert(r@.version_signatures =~= Seq::empty());
        }
        r
    }
}

} // verus!
