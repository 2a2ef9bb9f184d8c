use fam_core_lib::db::keystore::store_signing_identity;
use fam_core_lib::db::{
    delete_key_from_keystore, ensure_ed25519_keys, init_db, key_exists_in_keystore,
    load_key_from_keystore, run_migrations, save_key_to_keystore, DbError, StorageFault, Store,
};
use fam_core_lib::crypto::Ed25519KeyPair;

fn migrated() -> Store {
    let mut store = Store::new();
    run_migrations(&mut store).unwrap();
    store
}

#[test]
fn a_blank_store_has_no_keystore() {
    let mut store = Store::new();
    let missing = DbError::StorageError(StorageFault::NoSuchTable);
    assert_eq!(save_key_to_keystore(&mut store, "k", b"v"), Err(missing));
    assert_eq!(load_key_from_keystore(&store, "k"), Err(missing));
    assert_eq!(key_exists_in_keystore(&store, "k"), Err(missing));
    assert_eq!(delete_key_from_keystore(&mut store, "k"), Err(missing));
    assert_eq!(ensure_ed25519_keys(&mut store), Err(missing));
    assert_eq!(store, Store::new());
}

#[test]
fn a_saved_value_is_read_back() {
    let mut store = migrated();
    assert_eq!(load_key_from_keystore(&store, "a"), Ok(None));
    assert_eq!(key_exists_in_keystore(&store, "a"), Ok(false));
    save_key_to_keystore(&mut store, "a", &[1, 2, 3]).unwrap();
    save_key_to_keystore(&mut store, "b", &[]).unwrap();
    assert_eq!(load_key_from_keystore(&store, "a"), Ok(Some(vec![1, 2, 3])));
    assert_eq!(load_key_from_keystore(&store, "b"), Ok(Some(vec![])));
    assert_eq!(key_exists_in_keystore(&store, "a"), Ok(true));
    assert_eq!(key_exists_in_keystore(&store, "c"), Ok(false));
}

#[test]
fn saving_again_replaces_the_value() {
    let mut store = migrated();
    save_key_to_keystore(&mut store, "a", &[1]).unwrap();
    save_key_to_keystore(&mut store, "b", &[2]).unwrap();
    save_key_to_keystore(&mut store, "a", &[3, 4]).unwrap();
    assert_eq!(load_key_from_keystore(&store, "a"), Ok(Some(vec![3, 4])));
    assert_eq!(load_key_from_keystore(&store, "b"), Ok(Some(vec![2])));
    assert_eq!(store.keystore.len(), 2);
    assert_eq!(store.keystore[0].key, "b");
    assert_eq!(store.keystore[1].key, "a");
}

#[test]
fn a_deleted_value_is_gone() {
    let mut store = migrated();
    save_key_to_keystore(&mut store, "a", &[1]).unwrap();
    save_key_to_keystore(&mut store, "b", &[2]).unwrap();
    delete_key_from_keystore(&mut store, "a").unwrap();
    assert_eq!(load_key_from_keystore(&store, "a"), Ok(None));
    assert_eq!(load_key_from_keystore(&store, "b"), Ok(Some(vec![2])));
    delete_key_from_keystore(&mut store, "missing").unwrap();
    assert_eq!(store.keystore.len(), 1);
}

#[test]
fn a_given_key_pair_becomes_the_signing_identity() {
    let mut store = migrated();
    let pair = Ed25519KeyPair { private_key: vec![7u8; 32], public_key: vec![9u8; 32] };
    store_signing_identity(&mut store, &pair).unwrap();
    assert_eq!(load_key_from_keystore(&store, "ed25519_private"), Ok(Some(vec![7u8; 32])));
    assert_eq!(load_key_from_keystore(&store, "ed25519_public"), Ok(Some(vec![9u8; 32])));
    // Both keys are there, so nothing is generated.
    let before = store.clone();
    ensure_ed25519_keys(&mut store).unwrap();
    assert_eq!(store, before);
}

#[test]
fn a_missing_half_is_replaced_by_a_fresh_pair() {
    let mut store = Store::new();
    init_db(&mut store).unwrap();
    let private_before = load_key_from_keystore(&store, "ed25519_private").unwrap().unwrap();
    let public_before = load_key_from_keystore(&store, "ed25519_public").unwrap().unwrap();
    delete_key_from_keystore(&mut store, "ed25519_public").unwrap();
    ensure_ed25519_keys(&mut store).unwrap();
    let private_after = load_key_from_keystore(&store, "ed25519_private").unwrap().unwrap();
    let public_after = load_key_from_keystore(&store, "ed25519_public").unwrap().unwrap();
    assert_ne!(private_before, private_after);
    assert_ne!(public_before, public_after);
    assert_eq!(store.keystore.len(), 2);
    let signature = fam_core_lib::crypto::sign_data(&private_after, b"m").unwrap();
    assert_eq!(fam_core_lib::crypto::verify_signature(&public_after, b"m", &signature), Ok(true));
}
