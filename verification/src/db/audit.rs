//! The audit trail: one record per mutation, each with a detached Ed25519
//! signature over the bytes of its payload, and the check of such a
//! signature.

use crate::crypto::{
    ed25519_accepts, ed25519_key_valid, ed25519_signature, sign_payload, verify_payload,
    verify_result, CryptoError,
};
use crate::db::keystore::{identity_sound, keystore_fault, load_key_from_keystore, signing_identity};
use crate::db::{
    ascending, ids, lemma_ascending_occurs_once, lemma_ids_push, lemma_next_id_ascends,
    lemma_views_push, max_id, next_id, next_row_id, occurrences, row_ids, views, AuditView,
    DbError, SignatureRecord, SignatureView, StorageFault, Store, StoreView, VersionLogRecord,
};
use vstd::prelude::*;
use vstd::string::StringExecFns;
use vstd::utf8::encode_utf8;

verus! {

/// The bytes of a payload that are signed: its UTF-8 encoding.
pub open spec fn payload_bytes(payload: Seq<char>) -> Seq<u8> {
    encode_utf8(payload)
}

/// Why `records` audit records cannot be appended to a store, `None` where
/// they can. The checks come in this order: the audit table and its
/// identifiers, the keystore and the signing identity in it, the length of
/// the private key, the signature table and its identifiers.
pub open spec fn audit_fault(s: StoreView, records: int) -> Option<DbError> {
    if !s.schema.version_log {
        Some(DbError::StorageError(StorageFault::NoSuchTable))
    } else if max_id(ids(s.version_log)) + records > i64::MAX {
        Some(DbError::StorageError(StorageFault::RowIdExhausted))
    } else if !s.schema.keystore {
        Some(DbError::StorageError(StorageFault::NoSuchTable))
    } else if signing_identity(s) is None {
        Some(DbError::SigningIdentityMissing)
    } else if signing_identity(s).unwrap().0.len() != 32 {
        Some(DbError::CryptoError(CryptoError::InvalidKeyLength))
    } else if !s.schema.version_signatures {
        Some(DbError::StorageError(StorageFault::NoSuchTable))
    } else if max_id(ids(s.version_signatures)) + records > i64::MAX {
        Some(DbError::StorageError(StorageFault::RowIdExhausted))
    } else {
        None
    }
}

/// The audit record that is appended next.
pub open spec fn next_audit_record(
    s: StoreView,
    entity: Seq<char>,
    entity_id: i64,
    action: Seq<char>,
    payload: Seq<char>,
    ts: i64,
) -> AuditView {
    AuditView {
        id: (max_id(ids(s.version_log)) + 1) as i64,
        entity,
        entity_id,
        action,
        payload,
        ts,
    }
}

/// The signature record that goes with the audit record appended next: the
/// signature of the payload bytes under the private key of the keystore,
/// and the public key of the keystore beside it.
pub open spec fn next_signature_record(s: StoreView, payload: Seq<char>, ts: i64) -> SignatureView {
    SignatureView {
        id: (max_id(ids(s.version_signatures)) + 1) as i64,
        version_id: (max_id(ids(s.version_log)) + 1) as i64,
        signature: ed25519_signature(signing_identity(s).unwrap().0, payload_bytes(payload)),
        public_key: signing_identity(s).unwrap().1,
        ts,
    }
}

/// The store after an audit record and its signature were appended.
pub open spec fn audit_appended(
    s: StoreView,
    entity: Seq<char>,
    entity_id: i64,
    action: Seq<char>,
    payload: Seq<char>,
    ts: i64,
) -> StoreView {
    StoreView {
        version_log: s.version_log.push(
            next_audit_record(s, entity, entity_id, action, payload, ts),
        ),
        version_signatures: s.version_signatures.push(next_signature_record(s, payload, ts)),
        ..s
    }
}

/// The signature record belongs to the audit record and verifies: it names
/// the record, holds 64 and 32 bytes, its key is a public key, and its
/// signature is accepted for the payload bytes under that key.
pub open spec fn signature_valid(a: AuditView, g: SignatureView) -> bool {
    &&& g.version_id == a.id
    &&& g.signature.len() == 64
    &&& g.public_key.len() == 32
    &&& ed25519_key_valid(g.public_key)
    &&& ed25519_accepts(g.public_key, payload_bytes(a.payload), g.signature)
}

/// Every audit record has its signature record at the same place of the
/// signature table, and that signature verifies.
pub open spec fn audit_sealed(s: StoreView) -> bool {
    &&& s.version_signatures.len() == s.version_log.len()
    &&& forall|k: int|
        0 <= k < s.version_log.len() ==> signature_valid(
            #[trigger] s.version_log[k],
            s.version_signatures[k],
        )
}

/// Every audit record that `after` holds beyond those of `before` has its
/// signature record at the same place, and that signature verifies.
pub open spec fn appended_records_valid(before: StoreView, after: StoreView) -> bool {
    forall|k: int|
        before.version_log.len() <= k < after.version_log.len() ==> signature_valid(
            #[trigger] after.version_log[k],
            after.version_signatures[k],
        )
}

/// How many audit records there are of the entity `entity` with the
/// identifier `id`.
pub open spec fn audit_count(log: Seq<AuditView>, entity: Seq<char>, id: i64) -> nat
    decreases log.len(),
{
    if log.len() == 0 {
        0
    } else if log.last().entity == entity && log.last().entity_id == id {
        audit_count(log.drop_last(), entity, id) + 1
    } else {
        audit_count(log.drop_last(), entity, id)
    }
}

/// The audit records of a log with one more record.
pub proof fn lemma_audit_count_push(log: Seq<AuditView>, a: AuditView, entity: Seq<char>, id: i64)
    ensures
        audit_count(log.push(a), entity, id) == audit_count(log, entity, id) + if a.entity
            == entity && a.entity_id == id {
            1nat
        } else {
            0nat
        },
{
    assert(log.push(a).drop_last() =~= log);
}

/// The identifiers ascend in every table that hands them out.
pub open spec fn tables_keyed(s: StoreView) -> bool {
    &&& ascending(ids(s.accounts))
    &&& ascending(ids(s.operations))
    &&& ascending(ids(s.states))
    &&& ascending(ids(s.version_log))
    &&& ascending(ids(s.version_signatures))
}

/// The audit trail holds as many records of an entity with an identifier as
/// the entity's table holds rows with it.
pub open spec fn audit_complete(s: StoreView) -> bool {
    &&& forall|id: i64| #[trigger]
        audit_count(s.version_log, "account"@, id) == occurrences(ids(s.accounts), id)
    &&& forall|id: i64| #[trigger]
        audit_count(s.version_log, "operation"@, id) == occurrences(ids(s.operations), id)
    &&& forall|id: i64| #[trigger]
        audit_count(s.version_log, "state"@, id) == occurrences(ids(s.states), id)
}

/// Audit completeness: in a store whose identifiers ascend and whose audit
/// trail is complete, every account, every operation and every balance
/// snapshot has exactly one audit record.
pub proof fn lemma_every_row_audited_once(s: StoreView, i: int)
    requires
        tables_keyed(s),
        audit_complete(s),
    ensures
        0 <= i < s.accounts.len() ==> audit_count(s.version_log, "account"@, s.accounts[i].id)
            == 1,
        0 <= i < s.operations.len() ==> audit_count(
            s.version_log,
            "operation"@,
            s.operations[i].id,
        ) == 1,
        0 <= i < s.states.len() ==> audit_count(s.version_log, "state"@, s.states[i].id) == 1,
{
    if 0 <= i < s.accounts.len() {
        lemma_ascending_occurs_once(ids(s.accounts), i);
    }
    if 0 <= i < s.operations.len() {
        lemma_ascending_occurs_once(ids(s.operations), i);
    }
    if 0 <= i < s.states.len() {
        lemma_ascending_occurs_once(ids(s.states), i);
    }
}

/// Signature completeness: in a sealed store whose identifiers ascend, the
/// signature record at the place of an audit record is the only one that
/// names it, and it holds a signature of 64 and a public key of 32 bytes.
pub proof fn lemma_every_record_signed_once(s: StoreView, k: int)
    requires
        tables_keyed(s),
        audit_sealed(s),
        0 <= k < s.version_log.len(),
    ensures
        forall|j: int|
            0 <= j < s.version_signatures.len() ==> ((#[trigger] s.version_signatures[j]).version_id
                == s.version_log[k].id <==> j == k),
        s.version_signatures[k].signature.len() == 64,
        s.version_signatures[k].public_key.len() == 32,
{
    assert(signature_valid(s.version_log[k], s.version_signatures[k]));
    assert forall|j: int| 0 <= j < s.version_signatures.len() implies ((
    #[trigger] s.version_signatures[j]).version_id == s.version_log[k].id <==> j == k) by {
        assert(signature_valid(s.version_log[j], s.version_signatures[j]));
        assert(ids(s.version_log)[j] == s.version_log[j].id);
        assert(ids(s.version_log)[k] == s.version_log[k].id);
    }
}

/// Appending a record with a signature that verifies keeps a store sealed.
pub proof fn lemma_append_keeps_sealed(s: StoreView, after: StoreView, a: AuditView, g: SignatureView)
    requires
        audit_sealed(s),
        after.version_log == s.version_log.push(a),
        after.version_signatures == s.version_signatures.push(g),
        signature_valid(a, g),
    ensures
        audit_sealed(after),
{
    assert forall|k: int| 0 <= k < after.version_log.len() implies signature_valid(
        #[trigger] after.version_log[k],
        after.version_signatures[k],
    ) by {
        if k < s.version_log.len() {
            assert(signature_valid(s.version_log[k], s.version_signatures[k]));
        }
    }
}

/// Appending an audit record keeps the identifiers of the audit trail and of
/// the signature table ascending.
pub proof fn lemma_append_keeps_keyed(
    s: StoreView,
    entity: Seq<char>,
    entity_id: i64,
    action: Seq<char>,
    payload: Seq<char>,
    ts: i64,
)
    requires
        audit_fault(s, 1) is None,
    ensures
        ascending(ids(s.version_log)) ==> ascending(
            ids(audit_appended(s, entity, entity_id, action, payload, ts).version_log),
        ),
        ascending(ids(s.version_signatures)) ==> ascending(
            ids(audit_appended(s, entity, entity_id, action, payload, ts).version_signatures),
        ),
        max_id(ids(audit_appended(s, entity, entity_id, action, payload, ts).version_log))
            == max_id(ids(s.version_log)) + 1,
        max_id(ids(audit_appended(s, entity, entity_id, action, payload, ts).version_signatures))
            == max_id(ids(s.version_signatures)) + 1,
{
    let a = next_audit_record(s, entity, entity_id, action, payload, ts);
    let g = next_signature_record(s, payload, ts);
    lemma_ids_push(s.version_log, a);
    lemma_ids_push(s.version_signatures, g);
    lemma_next_id_ascends(ids(s.version_log));
    lemma_next_id_ascends(ids(s.version_signatures));
}

/// Reads both keys of the signing identity.
fn load_signing_identity(store: &Store) -> (r: Result<(Vec<u8>, Vec<u8>), DbError>)
    ensures
        match keystore_fault(store@) {
            Some(e) => r == Err::<(Vec<u8>, Vec<u8>), DbError>(e),
            None => match signing_identity(store@) {
                Some(pair) => r matches Ok(keys) && keys.0@ == pair.0 && keys.1@ == pair.1,
                None => r == Err::<(Vec<u8>, Vec<u8>), DbError>(DbError::SigningIdentityMissing),
            },
        },
{
    let private_key = match load_key_from_keystore(store, "ed25519_private") {
        Ok(Some(key)) => Some(key),
        Ok(None) => None,
        Err(e) => {
            return Err(e);
        },
    };
    let public_key = match load_key_from_keystore(store, "ed25519_public") {
        Ok(Some(key)) => Some(key),
        Ok(None) => None,
        Err(e) => {
            return Err(e);
        },
    };
    match (private_key, public_key) {
        (Some(private_key), Some(public_key)) => Ok((private_key, public_key)),
        _ => Err(DbError::SigningIdentityMissing),
    }
}

/// Says whether `records` audit records can be appended, and if not, why.
pub fn check_audit_ready(store: &Store, records: u8) -> (r: Result<(), DbError>)
    ensures
        match audit_fault(store@, records as int) {
            Some(e) => r == Err::<(), DbError>(e),
            None => r is Ok,
        },
{
    if !store.schema.version_log {
        return Err(DbError::StorageError(StorageFault::NoSuchTable));
    }
    proof {
        assert(row_ids(store.version_log@) =~= ids(store@.version_log));
        assert(row_ids(store.version_signatures@) =~= ids(store@.version_signatures));
        crate::db::lemma_max_id_bounds(ids(store@.version_log));
        crate::db::lemma_max_id_bounds(ids(store@.version_signatures));
    }
    let room: i128 = (i64::MAX as i128) + 1 - (records as i128);
    match next_id(&store.version_log) {
        Some(next) => {
            if (next as i128) > room {
                return Err(DbError::StorageError(StorageFault::RowIdExhausted));
            }
        },
        None => {
            if records > 0 {
                return Err(DbError::StorageError(StorageFault::RowIdExhausted));
            }
        },
    }
    let keys = match load_signing_identity(store) {
        Ok(keys) => keys,
        Err(e) => {
            return Err(e);
        },
    };
    if keys.0.len() != 32 {
        return Err(DbError::CryptoError(CryptoError::InvalidKeyLength));
    }
    if !store.schema.version_signatures {
        return Err(DbError::StorageError(StorageFault::NoSuchTable));
    }
    match next_id(&store.version_signatures) {
        Some(next) => {
            if (next as i128) > room {
                return Err(DbError::StorageError(StorageFault::RowIdExhausted));
            }
        },
        None => {
            if records > 0 {
                return Err(DbError::StorageError(StorageFault::RowIdExhausted));
            }
        },
    }
    Ok(())
}

/// Why a signature record cannot be inserted, `None` where it can.
pub open spec fn signature_fault(s: StoreView) -> Option<DbError> {
    if !s.schema.version_signatures {
        Some(DbError::StorageError(StorageFault::NoSuchTable))
    } else if next_row_id(ids(s.version_signatures)) is None {
        Some(DbError::StorageError(StorageFault::RowIdExhausted))
    } else {
        None
    }
}

/// Inserts the signature record of the audit record `version_id`: the
/// signature as it was computed, and beside it the public key that
/// witnessed it.
pub fn record_signature(
    store: &mut Store,
    version_id: i64,
    signature: Vec<u8>,
    public_key: Vec<u8>,
    ts: i64,
) -> (r: Result<(), DbError>)
    ensures
        match signature_fault(old(store)@) {
            Some(e) => r == Err::<(), DbError>(e) && final(store)@ == old(store)@,
            None => r is Ok && final(store)@ == (StoreView {
                version_signatures: old(store)@.version_signatures.push(
                    SignatureView {
                        id: next_row_id(ids(old(store)@.version_signatures)).unwrap(),
                        version_id,
                        signature: signature@,
                        public_key: public_key@,
                        ts,
                    },
                ),
                ..old(store)@
            }),
        },
{
    if !store.schema.version_signatures {
        return Err(DbError::StorageError(StorageFault::NoSuchTable));
    }
    proof {
        assert(row_ids(store.version_signatures@) =~= ids(store@.version_signatures));
    }
    let id = match next_id(&store.version_signatures) {
        Some(id) => id,
        None => {
            return Err(DbError::StorageError(StorageFault::RowIdExhausted));
        },
    };
    let row = SignatureRecord { id, version_id, signature, public_key, ts };
    proof {
        lemma_views_push(store.version_signatures@, row);
    }
    store.version_signatures.push(row);
    Ok(())
}

/// Appends an audit record and its signature. The payload is signed with
/// the private key of the keystore, and the public key of the keystore is
/// pinned beside the signature. Where the two keys of the keystore belong
/// together, the new signature verifies.
pub fn write_version_log(
    store: &mut Store,
    entity: &str,
    entity_id: i64,
    action: &str,
    payload_json: &str,
    now: i64,
) -> (r: Result<(), DbError>)
    ensures
        match audit_fault(old(store)@, 1) {
            Some(e) => r == Err::<(), DbError>(e) && final(store)@ == old(store)@,
            None => {
                &&& r is Ok
                &&& final(store)@ == audit_appended(
                    old(store)@,
                    entity@,
                    entity_id,
                    action@,
                    payload_json@,
                    now,
                )
                &&& identity_sound(old(store)@) ==> signature_valid(
                    final(store)@.version_log.last(),
                    final(store)@.version_signatures.last(),
                )
            },
        },
{
    match check_audit_ready(store, 1) {
        Ok(()) => {},
        Err(e) => {
            return Err(e);
        },
    }
    proof {
        assert(row_ids(store.version_log@) =~= ids(store@.version_log));
    }
    let version_id = match next_id(&store.version_log) {
        Some(id) => id,
        None => {
            return Err(DbError::StorageError(StorageFault::RowIdExhausted));
        },
    };
    let keys = match load_signing_identity(store) {
        Ok(keys) => keys,
        Err(e) => {
            return Err(e);
        },
    };
    let signature = match sign_payload(payload_json.as_bytes(), keys.0.as_slice()) {
        Ok(signature) => signature,
        Err(e) => {
            return Err(DbError::CryptoError(e));
        },
    };
    let row = VersionLogRecord {
        id: version_id,
        entity: String::from_str(entity),
        entity_id,
        action: String::from_str(action),
        payload: String::from_str(payload_json),
        ts: now,
    };
    proof {
        lemma_views_push(store.version_log@, row);
    }
    store.version_log.push(row);
    record_signature(store, version_id, signature, keys.1, now)
}

/// The first audit record with the identifier `id`.
pub open spec fn find_audit(log: Seq<AuditView>, id: i64) -> Option<AuditView>
    decreases log.len(),
{
    if log.len() == 0 {
        None
    } else {
        match find_audit(log.drop_last(), id) {
            Some(a) => Some(a),
            None => if log.last().id == id {
                Some(log.last())
            } else {
                None
            },
        }
    }
}

/// The first signature record that names the audit record `version_id`.
pub open spec fn find_signature(signatures: Seq<SignatureView>, version_id: i64) -> Option<
    SignatureView,
>
    decreases signatures.len(),
{
    if signatures.len() == 0 {
        None
    } else {
        match find_signature(signatures.drop_last(), version_id) {
            Some(g) => Some(g),
            None => if signatures.last().version_id == version_id {
                Some(signatures.last())
            } else {
                None
            },
        }
    }
}

/// What the check of the signature of an audit record answers: an error
/// where a table or a row is missing or the key or the signature has the
/// wrong length, else whether the signature is accepted for the payload as
/// it now stands, under the key pinned beside it. A pinned key that is no
/// public key verifies nothing.
pub open spec fn verification(s: StoreView, version_id: i64) -> Result<bool, DbError> {
    if !s.schema.version_log {
        Err(DbError::StorageError(StorageFault::NoSuchTable))
    } else {
        match find_audit(s.version_log, version_id) {
            None => Err(DbError::NotFound),
            Some(a) => if !s.schema.version_signatures {
                Err(DbError::StorageError(StorageFault::NoSuchTable))
            } else {
                match find_signature(s.version_signatures, version_id) {
                    None => Err(DbError::NotFound),
                    Some(g) => match verify_result(
                        g.public_key,
                        payload_bytes(a.payload),
                        g.signature,
                    ) {
                        Ok(accepted) => Ok(accepted),
                        Err(e) => Err(DbError::CryptoError(e)),
                    },
                }
            },
        }
    }
}

fn find_audit_row(log: &Vec<VersionLogRecord>, id: i64) -> (r: Option<usize>)
    ensures
        match r {
            Some(k) => k < log@.len() && find_audit(views(log@), id) == Some(log@[k as int]@),
            None => find_audit(views(log@), id) is None,
        },
{
    let mut found: Option<usize> = None;
    let mut i: usize = 0;
    let ghost all = views(log@);
    while i < log.len()
        invariant
            i <= log.len(),
            all == views(log@),
            match found {
                Some(k) => k < i && find_audit(all.take(i as int), id) == Some(log@[k as int]@),
                None => find_audit(all.take(i as int), id) is None,
            },
        decreases log.len() - i,
    {
        proof {
            assert(all.take(i + 1).drop_last() =~= all.take(i as int));
            assert(all.take(i + 1).last() == log@[i as int]@);
        }
        if found.is_none() && log[i].id == id {
            found = Some(i);
        }
        i = i + 1;
    }
    assert(all.take(log@.len() as int) =~= all);
    found
}

fn find_signature_row(signatures: &Vec<SignatureRecord>, version_id: i64) -> (r: Option<usize>)
    ensures
        match r {
            Some(k) => k < signatures@.len() && find_signature(views(signatures@), version_id)
                == Some(signatures@[k as int]@),
            None => find_signature(views(signatures@), version_id) is None,
        },
{
    let mut found: Option<usize> = None;
    let mut i: usize = 0;
    let ghost all = views(signatures@);
    while i < signatures.len()
        invariant
            i <= signatures.len(),
            all == views(signatures@),
            match found {
                Some(k) => k < i && find_signature(all.take(i as int), version_id) == Some(
                    signatures@[k as int]@,
                ),
                None => find_signature(all.take(i as int), version_id) is None,
            },
        decreases signatures.len() - i,
    {
        proof {
            assert(all.take(i + 1).drop_last() =~= all.take(i as int));
            assert(all.take(i + 1).last() == signatures@[i as int]@);
        }
        if found.is_none() && signatures[i].version_id == version_id {
            found = Some(i);
        }
        i = i + 1;
    }
    assert(all.take(signatures@.len() as int) =~= all);
    found
}

/// Checks the signature of the audit record `version_id` against the
/// payload that the record now holds. A signature that does not match is
/// `Ok(false)`; missing rows and keys or signatures of the wrong length are
/// errors.
pub fn verify_version_signature(store: &Store, version_id: i64) -> (r: Result<bool, DbError>)
    ensures
        r == verification(store@, version_id),
{
    if !store.schema.version_log {
        return Err(DbError::StorageError(StorageFault::NoSuchTable));
    }
    let record = match find_audit_row(&store.version_log, version_id) {
        Some(k) => &store.version_log[k],
        None => {
            return Err(DbError::NotFound);
        },
    };
    if !store.schema.version_signatures {
        return Err(DbError::StorageError(StorageFault::NoSuchTable));
    }
    let signed = match find_signature_row(&store.version_signatures, version_id) {
        Some(k) => &store.version_signatures[k],
        None => {
            return Err(DbError::NotFound);
        },
    };
    match verify_payload(
        record.payload.as_str().as_bytes(),
        signed.signature.as_slice(),
        signed.public_key.as_slice(),
    ) {
        Ok(accepted) => Ok(accepted),
        Err(e) => Err(DbError::CryptoError(e)),
    }
}

/// In a table whose identifiers ascend, the record found under the
/// identifier of a row is that row.
pub proof fn lemma_find_audit_by_id(log: Seq<AuditView>, k: int)
    requires
        ascending(ids(log)),
        0 <= k < log.len(),
    ensures
        find_audit(log, log[k].id) == Some(log[k]),
    decreases log.len(),
{
    let shorter = log.drop_last();
    assert forall|a: int, b: int| 0 <= a < b < shorter.len() implies ids(shorter)[a] < ids(
        shorter,
    )[b] by {
        assert(ids(log)[a] == shorter[a].id);
        assert(ids(log)[b] == shorter[b].id);
    }
    if k < log.len() - 1 {
        assert(shorter[k] == log[k]);
        lemma_find_audit_by_id(shorter, k);
    } else {
        lemma_find_audit_none_below(shorter, log[k].id);
        assert forall|a: int| 0 <= a < shorter.len() implies (#[trigger] shorter[a]).id
            != log[k].id by {
            assert(ids(log)[a] == shorter[a].id);
            assert(ids(log)[k] == log[k].id);
        }
    }
}

/// No record is found under an identifier that no row has.
pub proof fn lemma_find_audit_none_below(log: Seq<AuditView>, id: i64)
    ensures
        (forall|a: int| 0 <= a < log.len() ==> (#[trigger] log[a]).id != id) ==> find_audit(log, id)
            is None,
    decreases log.len(),
{
    if log.len() > 0 {
        lemma_find_audit_none_below(log.drop_last(), id);
        if forall|a: int| 0 <= a < log.len() ==> (#[trigger] log[a]).id != id {
            assert forall|a: int| 0 <= a < log.drop_last().len() implies (
            #[trigger] log.drop_last()[a]).id != id by {
                assert(log.drop_last()[a] == log[a]);
            }
            assert(log[log.len() - 1].id != id);
        }
    }
}

/// In a sealed store, the signature found for the identifier of an audit
/// record is the one at the record's place.
pub proof fn lemma_find_signature_by_place(s: StoreView, k: int, n: int)
    requires
        ascending(ids(s.version_log)),
        audit_sealed(s),
        0 <= k < n <= s.version_log.len(),
    ensures
        find_signature(s.version_signatures.take(n), s.version_log[k].id) == Some(
            s.version_signatures[k],
        ),
    decreases n,
{
    let part = s.version_signatures.take(n);
    let id = s.version_log[k].id;
    assert(part.drop_last() =~= s.version_signatures.take(n - 1));
    assert(part.last() == s.version_signatures[n - 1]);
    assert(signature_valid(s.version_log[n - 1], s.version_signatures[n - 1]));
    assert(signature_valid(s.version_log[k], s.version_signatures[k]));
    if k < n - 1 {
        lemma_find_signature_by_place(s, k, n - 1);
    } else {
        lemma_find_signature_none_before(s, k, k);
    }
}

/// In a sealed store, no signature before the place of an audit record
/// names it.
pub proof fn lemma_find_signature_none_before(s: StoreView, k: int, n: int)
    requires
        ascending(ids(s.version_log)),
        audit_sealed(s),
        0 <= n <= k < s.version_log.len(),
    ensures
        find_signature(s.version_signatures.take(n), s.version_log[k].id) is None,
    decreases n,
{
    if n > 0 {
        let part = s.version_signatures.take(n);
        assert(part.drop_last() =~= s.version_signatures.take(n - 1));
        assert(part.last() == s.version_signatures[n - 1]);
        assert(signature_valid(s.version_log[n - 1], s.version_signatures[n - 1]));
        assert(ids(s.version_log)[n - 1] == s.version_log[n - 1].id);
        assert(ids(s.version_log)[k] == s.version_log[k].id);
        lemma_find_signature_none_before(s, k, n - 1);
    }
}

/// Signature validity: in a sealed store with both audit tables and
/// ascending identifiers, the check of every audit record answers `true`,
/// and every signature record verifies under the public key pinned in it.
pub proof fn lemma_sealed_records_verify(s: StoreView, k: int)
    requires
        s.schema.version_log,
        s.schema.version_signatures,
        ascending(ids(s.version_log)),
        audit_sealed(s),
        0 <= k < s.version_log.len(),
    ensures
        verification(s, s.version_log[k].id) == Ok::<bool, DbError>(true),
        verify_result(
            s.version_signatures[k].public_key,
            payload_bytes(s.version_log[k].payload),
            s.version_signatures[k].signature,
        ) == Ok::<bool, CryptoError>(true),
{
    lemma_find_audit_by_id(s.version_log, k);
    lemma_find_signature_by_place(s, k, s.version_log.len() as int);
    assert(s.version_signatures.take(s.version_log.len() as int) =~= s.version_signatures);
    assert(signature_valid(s.version_log[k], s.version_signatures[k]));
}

/// The store after the payload of the audit record at the place `k` was
/// overwritten.
pub open spec fn with_payload(s: StoreView, k: int, payload: Seq<char>) -> StoreView {
    StoreView {
        version_log: s.version_log.update(k, AuditView { payload, ..s.version_log[k] }),
        ..s
    }
}

/// Tamper detection, as far as it holds whatever the signature scheme does:
/// after the payload of one audit record of a sealed store was overwritten,
/// the check of that record is no error and answers whether the old
/// signature is accepted for the new payload, and the check of every other
/// record still answers `true`. That a signature is not accepted for another
/// payload is the promise of Ed25519 and is not proved here.
pub proof fn lemma_tampering_shows_on_its_record_only(
    s: StoreView,
    k: int,
    payload: Seq<char>,
    j: int,
)
    requires
        s.schema.version_log,
        s.schema.version_signatures,
        ascending(ids(s.version_log)),
        audit_sealed(s),
        0 <= k < s.version_log.len(),
        0 <= j < s.version_log.len(),
    ensures
        j != k ==> verification(with_payload(s, k, payload), s.version_log[j].id) == Ok::<
            bool,
            DbError,
        >(true),
        verification(with_payload(s, k, payload), s.version_log[k].id) == Ok::<bool, DbError>(
            ed25519_accepts(
                s.version_signatures[k].public_key,
                payload_bytes(payload),
                s.version_signatures[k].signature,
            ),
        ),
{
    let after = with_payload(s, k, payload);
    assert(ids(after.version_log) =~= ids(s.version_log));
    lemma_find_audit_by_id(after.version_log, j);
    lemma_find_audit_by_id(after.version_log, k);
    lemma_find_signature_by_place(s, j, s.version_log.len() as int);
    lemma_find_signature_by_place(s, k, s.version_log.len() as int);
    assert(s.version_signatures.take(s.version_log.len() as int) =~= s.version_signatures);
    assert(signature_valid(s.version_log[j], s.version_signatures[j]));
    assert(signature_valid(s.version_log[k], s.version_signatures[k]));
}

} // verus!
