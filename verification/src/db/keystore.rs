//! The keystore: named byte blobs inside the store, among them the Ed25519
//! signing identity of the audit trail.

use crate::crypto::{generate_ed25519_keypair, is_key_pair, CryptoError, Ed25519KeyPair};
use crate::db::{
    copy_bytes, views, DbError, KeyView, KeystoreEntry, Record, StorageFault, Store, StoreView,
};
use vstd::prelude::*;
use vstd::slice::slice_to_vec;
use vstd::string::StringExecFns;

verus! {

impl Record for KeystoreEntry {
    fn duplicate(&self) -> (r: Self) {
        KeystoreEntry { key: self.key.clone(), value: copy_bytes(&self.value) }
    }
}

/// The name under which the private signing key is kept.
pub open spec fn private_key_name() -> Seq<char> {
    "ed25519_private"@
}

/// The name under which the public signing key is kept.
pub open spec fn public_key_name() -> Seq<char> {
    "ed25519_public"@
}

/// The value of the first entry named `name`, if there is one.
pub open spec fn keystore_get(entries: Seq<KeyView>, name: Seq<char>) -> Option<Seq<u8>>
    decreases entries.len(),
{
    if entries.len() == 0 {
        None
    } else {
        match keystore_get(entries.drop_last(), name) {
            Some(value) => Some(value),
            None => if entries.last().key == name {
                Some(entries.last().value)
            } else {
                None
            },
        }
    }
}

/// The entries that are not named `name`, in their order.
pub open spec fn keystore_without(entries: Seq<KeyView>, name: Seq<char>) -> Seq<KeyView>
    decreases entries.len(),
{
    if entries.len() == 0 {
        Seq::empty()
    } else if entries.last().key == name {
        keystore_without(entries.drop_last(), name)
    } else {
        keystore_without(entries.drop_last(), name).push(entries.last())
    }
}

/// The keystore after `value` was put under `name`: what was there under
/// that name is gone, and the new entry stands last.
pub open spec fn keystore_put(entries: Seq<KeyView>, name: Seq<char>, value: Seq<u8>) -> Seq<
    KeyView,
> {
    keystore_without(entries, name).push(KeyView { key: name, value })
}

/// The name of every entry occurs once.
pub open spec fn keystore_names_unique(entries: Seq<KeyView>) -> bool {
    forall|i: int, j: int|
        0 <= i < j < entries.len() ==> (#[trigger] entries[i]).key != (#[trigger] entries[j]).key
}

/// The private and the public signing key, where the keystore holds both.
pub open spec fn signing_identity(s: StoreView) -> Option<(Seq<u8>, Seq<u8>)> {
    match (
        keystore_get(s.keystore, private_key_name()),
        keystore_get(s.keystore, public_key_name()),
    ) {
        (Some(private_key), Some(public_key)) => Some((private_key, public_key)),
        _ => None,
    }
}

/// The keystore holds a signing identity whose two keys belong together.
pub open spec fn identity_sound(s: StoreView) -> bool {
    &&& s.schema.keystore
    &&& signing_identity(s) matches Some(pair)
    &&& is_key_pair(pair.0, pair.1)
}

/// Removing a name leaves the entries under other names as they are and none
/// under the name itself.
pub proof fn lemma_keystore_without(entries: Seq<KeyView>, name: Seq<char>, other: Seq<char>)
    ensures
        keystore_get(keystore_without(entries, name), name) is None,
        other != name ==> keystore_get(keystore_without(entries, name), other) == keystore_get(
            entries,
            other,
        ),
        forall|i: int|
            0 <= i < keystore_without(entries, name).len() ==> (#[trigger] keystore_without(
                entries,
                name,
            )[i]).key != name,
    decreases entries.len(),
{
    if entries.len() > 0 {
        lemma_keystore_without(entries.drop_last(), name, other);
        let rest = keystore_without(entries.drop_last(), name);
        if entries.last().key != name {
            assert(rest.push(entries.last()).drop_last() =~= rest);
        }
    }
}

/// What is read after a put: the new value under the name, and under every
/// other name what was there before.
pub proof fn lemma_keystore_put(
    entries: Seq<KeyView>,
    name: Seq<char>,
    value: Seq<u8>,
    other: Seq<char>,
)
    ensures
        keystore_get(keystore_put(entries, name, value), name) == Some(value),
        other != name ==> keystore_get(keystore_put(entries, name, value), other) == keystore_get(
            entries,
            other,
        ),
{
    lemma_keystore_without(entries, name, other);
    let rest = keystore_without(entries, name);
    let entry = KeyView { key: name, value };
    assert(rest.push(entry).drop_last() =~= rest);
}

/// A put keeps the names unique.
pub proof fn lemma_keystore_put_unique(entries: Seq<KeyView>, name: Seq<char>, value: Seq<u8>)
    requires
        keystore_names_unique(entries),
    ensures
        keystore_names_unique(keystore_put(entries, name, value)),
{
    lemma_keystore_without_unique(entries, name);
    lemma_keystore_without(entries, name, name);
}

/// Removing a name keeps the names unique, and every entry that stays was
/// there before.
pub proof fn lemma_keystore_without_unique(entries: Seq<KeyView>, name: Seq<char>)
    requires
        keystore_names_unique(entries),
    ensures
        keystore_names_unique(keystore_without(entries, name)),
        forall|i: int|
            0 <= i < keystore_without(entries, name).len() ==> entries.contains(
                #[trigger] keystore_without(entries, name)[i],
            ),
    decreases entries.len(),
{
    if entries.len() > 0 {
        let shorter = entries.drop_last();
        assert(keystore_names_unique(shorter)) by {
            assert forall|i: int, j: int| 0 <= i < j < shorter.len() implies (
            #[trigger] shorter[i]).key != (#[trigger] shorter[j]).key by {
                assert(shorter[i] == entries[i]);
                assert(shorter[j] == entries[j]);
            }
        }
        lemma_keystore_without_unique(shorter, name);
        let rest = keystore_without(shorter, name);
        let all = keystore_without(entries, name);
        assert forall|i: int| 0 <= i < all.len() implies entries.contains(#[trigger] all[i]) by {
            if i < rest.len() {
                assert(all[i] == rest[i]);
                assert(shorter.contains(rest[i]));
                let k = choose|k: int| 0 <= k < shorter.len() && shorter[k] == rest[i];
                assert(entries[k] == rest[i]);
            } else {
                assert(all[i] == entries.last());
                assert(entries[entries.len() - 1] == entries.last());
            }
        }
        if entries.last().key != name {
            assert forall|i: int, j: int| 0 <= i < j < all.len() implies (#[trigger] all[i]).key != (
            #[trigger] all[j]).key by {
                if j < rest.len() {
                    assert(all[i] == rest[i]);
                    assert(all[j] == rest[j]);
                } else {
                    assert(all[i] == rest[i]);
                    assert(shorter.contains(rest[i]));
                    let k = choose|k: int| 0 <= k < shorter.len() && shorter[k] == rest[i];
                    assert(entries[k] == rest[i]);
                    assert(entries[entries.len() - 1] == all[j]);
                }
            }
        }
    }
}

/// What a keystore operation answers on a store without a keystore table.
pub open spec fn keystore_fault(s: StoreView) -> Option<DbError> {
    if s.schema.keystore {
        None
    } else {
        Some(DbError::StorageError(StorageFault::NoSuchTable))
    }
}

fn keystore_filtered(entries: &Vec<KeystoreEntry>, name: &String) -> (r: Vec<KeystoreEntry>)
    ensures
        views(r@) == keystore_without(views(entries@), name@),
{
    let mut r: Vec<KeystoreEntry> = Vec::new();
    let mut i: usize = 0;
    let ghost all = views(entries@);
    assert(views(r@) =~= keystore_without(all.take(0), name@));
    while i < entries.len()
        invariant
            i <= entries.len(),
            all == views(entries@),
            views(r@) == keystore_without(all.take(i as int), name@),
        decreases entries.len() - i,
    {
        proof {
            assert(all.take(i + 1).drop_last() =~= all.take(i as int));
            assert(all.take(i + 1).last() == entries@[i as int]@);
        }
        if entries[i].key != *name {
            let ghost before = r@;
            let copy = entries[i].duplicate();
            r.push(copy);
            proof {
                crate::db::lemma_views_push(before, copy);
            }
        }
        i = i + 1;
    }
    assert(all.take(entries@.len() as int) =~= all);
    r
}

/// Puts `key_value` under `key_name`, in place of what was there.
pub fn save_key_to_keystore(store: &mut Store, key_name: &str, key_value: &[u8]) -> (r: Result<
    (),
    DbError,
>)
    ensures
        match keystore_fault(old(store)@) {
            Some(e) => r == Err::<(), DbError>(e) && final(store)@ == old(store)@,
            None => r is Ok && final(store)@ == (StoreView {
                keystore: keystore_put(old(store)@.keystore, key_name@, key_value@),
                ..old(store)@
            }),
        },
        keystore_names_unique(old(store)@.keystore) ==> keystore_names_unique(
            final(store)@.keystore,
        ),
{
    proof {
        if keystore_names_unique(old(store)@.keystore) {
            lemma_keystore_put_unique(old(store)@.keystore, key_name@, key_value@);
        }
    }
    if !store.schema.keystore {
        return Err(DbError::StorageError(StorageFault::NoSuchTable));
    }
    let name = String::from_str(key_name);
    let mut entries = keystore_filtered(&store.keystore, &name);
    let ghost before = entries@;
    let entry = KeystoreEntry { key: name, value: slice_to_vec(key_value) };
    entries.push(entry);
    proof {
        crate::db::lemma_views_push(before, entry);
    }
    store.keystore = entries;
    Ok(())
}

/// Reads the value under `key_name`, `None` where there is none.
pub fn load_key_from_keystore(store: &Store, key_name: &str) -> (r: Result<
    Option<Vec<u8>>,
    DbError,
>)
    ensures
        match keystore_fault(store@) {
            Some(e) => r == Err::<Option<Vec<u8>>, DbError>(e),
            None => r matches Ok(found) && (match found {
                Some(value) => keystore_get(store@.keystore, key_name@) == Some(value@),
                None => keystore_get(store@.keystore, key_name@) is None,
            }),
        },
{
    if !store.schema.keystore {
        return Err(DbError::StorageError(StorageFault::NoSuchTable));
    }
    let name = String::from_str(key_name);
    let mut found: Option<Vec<u8>> = None;
    let mut i: usize = 0;
    let ghost all = views(store.keystore@);
    while i < store.keystore.len()
        invariant
            i <= store.keystore.len(),
            all == views(store.keystore@),
            name@ == key_name@,
            match found {
                Some(value) => keystore_get(all.take(i as int), key_name@) == Some(value@),
                None => keystore_get(all.take(i as int), key_name@) is None,
            },
        decreases store.keystore.len() - i,
    {
        proof {
            assert(all.take(i + 1).drop_last() =~= all.take(i as int));
            assert(all.take(i + 1).last() == store.keystore@[i as int]@);
        }
        if found.is_none() && store.keystore[i].key == name {
            found = Some(copy_bytes(&store.keystore[i].value));
        }
        i = i + 1;
    }
    assert(all.take(store.keystore@.len() as int) =~= all);
    Ok(found)
}

/// Says whether there is a value under `key_name`.
pub fn key_exists_in_keystore(store: &Store, key_name: &str) -> (r: Result<bool, DbError>)
    ensures
        match keystore_fault(store@) {
            Some(e) => r == Err::<bool, DbError>(e),
            None => r == Ok::<bool, DbError>(keystore_get(store@.keystore, key_name@) is Some),
        },
{
    match load_key_from_keystore(store, key_name) {
        Ok(found) => Ok(found.is_some()),
        Err(e) => Err(e),
    }
}

/// Removes what is under `key_name`.
pub fn delete_key_from_keystore(store: &mut Store, key_name: &str) -> (r: Result<(), DbError>)
    ensures
        match keystore_fault(old(store)@) {
            Some(e) => r == Err::<(), DbError>(e) && final(store)@ == old(store)@,
            None => r is Ok && final(store)@ == (StoreView {
                keystore: keystore_without(old(store)@.keystore, key_name@),
                ..old(store)@
            }),
        },
        keystore_names_unique(old(store)@.keystore) ==> keystore_names_unique(
            final(store)@.keystore,
        ),
{
    proof {
        if keystore_names_unique(old(store)@.keystore) {
            lemma_keystore_without_unique(old(store)@.keystore, key_name@);
        }
    }
    if !store.schema.keystore {
        return Err(DbError::StorageError(StorageFault::NoSuchTable));
    }
    let name = String::from_str(key_name);
    let entries = keystore_filtered(&store.keystore, &name);
    store.keystore = entries;
    Ok(())
}

/// The store after a key pair became its signing identity.
pub open spec fn with_signing_identity(
    s: StoreView,
    private_key: Seq<u8>,
    public_key: Seq<u8>,
) -> StoreView {
    StoreView {
        keystore: keystore_put(
            keystore_put(s.keystore, private_key_name(), private_key),
            public_key_name(),
            public_key,
        ),
        ..s
    }
}

/// The two names of the signing identity differ.
pub proof fn lemma_identity_names_differ()
    ensures
        private_key_name() != public_key_name(),
{
    reveal_strlit("ed25519_private");
    reveal_strlit("ed25519_public");
    assert(private_key_name().len() == 15);
    assert(public_key_name().len() == 14);
}

/// After a key pair was stored as the signing identity, the keystore holds
/// it, and a pair whose keys belong together makes the identity sound.
pub proof fn lemma_with_signing_identity(s: StoreView, private_key: Seq<u8>, public_key: Seq<u8>)
    ensures
        signing_identity(with_signing_identity(s, private_key, public_key)) == Some(
            (private_key, public_key),
        ),
        s.schema.keystore && is_key_pair(private_key, public_key) ==> identity_sound(
            with_signing_identity(s, private_key, public_key),
        ),
        keystore_names_unique(s.keystore) ==> keystore_names_unique(
            with_signing_identity(s, private_key, public_key).keystore,
        ),
{
    lemma_identity_names_differ();
    let first = keystore_put(s.keystore, private_key_name(), private_key);
    lemma_keystore_put(s.keystore, private_key_name(), private_key, public_key_name());
    lemma_keystore_put(first, public_key_name(), public_key, private_key_name());
    if keystore_names_unique(s.keystore) {
        lemma_keystore_put_unique(s.keystore, private_key_name(), private_key);
        lemma_keystore_put_unique(first, public_key_name(), public_key);
    }
}

/// Stores a key pair as the signing identity: the private key under
/// `ed25519_private`, the public key under `ed25519_public`.
pub fn store_signing_identity(store: &mut Store, pair: &Ed25519KeyPair) -> (r: Result<(), DbError>)
    ensures
        match keystore_fault(old(store)@) {
            Some(e) => r == Err::<(), DbError>(e) && final(store)@ == old(store)@,
            None => r is Ok && final(store)@ == with_signing_identity(
                old(store)@,
                pair.private_key@,
                pair.public_key@,
            ),
        },
{
    match save_key_to_keystore(store, "ed25519_private", pair.private_key.as_slice()) {
        Ok(()) => {},
        Err(e) => {
            return Err(e);
        },
    }
    save_key_to_keystore(store, "ed25519_public", pair.public_key.as_slice())
}

/// The keystore holds both keys of a signing identity.
pub open spec fn has_signing_identity(s: StoreView) -> bool {
    signing_identity(s) is Some
}

/// What making sure of the signing identity does to a store `before`, as a
/// relation between it, the store after and the result. Where the keystore
/// holds both keys, nothing changes. Where one is missing, the store after
/// holds a key pair whose keys belong together, or no pair could be
/// generated and nothing changed.
pub open spec fn keys_ensured(before: StoreView, after: StoreView, r: Result<(), DbError>) -> bool {
    match keystore_fault(before) {
        Some(e) => r == Err::<(), DbError>(e) && after == before,
        None => if has_signing_identity(before) {
            r is Ok && after == before
        } else {
            match r {
                Ok(()) => exists|private_key: Seq<u8>, public_key: Seq<u8>|
                    {
                        &&& is_key_pair(private_key, public_key)
                        &&& after == #[trigger] with_signing_identity(
                            before,
                            private_key,
                            public_key,
                        )
                    },
                Err(e) => e == DbError::CryptoError(CryptoError::KeyGenerationError) && after
                    == before,
            }
        },
    }
}

/// Makes sure that the store has a signing identity. Where the keystore
/// holds both keys, nothing changes. Where one is missing, a fresh pair is
/// generated and stored; the pair is random, and whichever it is, its two
/// keys belong together.
pub fn ensure_ed25519_keys(store: &mut Store) -> (r: Result<(), DbError>)
    ensures
        keys_ensured(old(store)@, final(store)@, r),
{
    let private_exists = match key_exists_in_keystore(store, "ed25519_private") {
        Ok(found) => found,
        Err(e) => {
            return Err(e);
        },
    };
    let public_exists = match key_exists_in_keystore(store, "ed25519_public") {
        Ok(found) => found,
        Err(e) => {
            return Err(e);
        },
    };
    if private_exists && public_exists {
        return Ok(());
    }
    match generate_ed25519_keypair() {
        Ok(pair) => store_signing_identity(store, &pair),
        Err(e) => Err(DbError::CryptoError(e)),
    }
}

/// Once the signing identity was made sure of, the store holds one, a store
/// that held a sound one still does, and the names of the keystore are
/// unique if they were.
pub proof fn lemma_keys_ensured(before: StoreView, after: StoreView)
    requires
        keys_ensured(before, after, Ok::<(), DbError>(())),
    ensures
        has_signing_identity(after),
        !has_signing_identity(before) ==> identity_sound(after),
        identity_sound(before) ==> identity_sound(after),
        keystore_names_unique(before.keystore) ==> keystore_names_unique(after.keystore),
{
    if !has_signing_identity(before) {
        let (private_key, public_key) = choose|private_key: Seq<u8>, public_key: Seq<u8>|
            {
                &&& is_key_pair(private_key, public_key)
                &&& after == #[trigger] with_signing_identity(before, private_key, public_key)
            };
        lemma_with_signing_identity(before, private_key, public_key);
    }
}

} // verus!
