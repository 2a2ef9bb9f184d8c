use fam_core_lib::{crypto, db};

#[test]
fn test_automatic_version_log_signing() {
    let mut store = db::Store::new();
    let mut now: i64 = 1_700_000_000;

    db::init_db(&mut store).expect("Failed to init db");

    let account_id =
        db::create_account(&mut store, "Test Account".to_string(), "cash".to_string(), now)
            .expect("Failed to create account");

    let (log_id, log_payload, log_ts) = {
        let record = store
            .version_log
            .iter()
            .find(|r| r.entity == "account" && r.entity_id == account_id)
            .expect("Failed to get version_log");
        (record.id, record.payload.clone(), record.ts)
    };

    let (signature, public_key, sig_ts) = {
        let row = store
            .version_signatures
            .iter()
            .find(|g| g.version_id == log_id)
            .expect("Failed to get signature");
        (row.signature.clone(), row.public_key.clone(), row.ts)
    };

    assert_eq!(signature.len(), 64, "Signature should be 64 bytes");
    assert_eq!(public_key.len(), 32, "Public key should be 32 bytes");
    assert_eq!(sig_ts, log_ts, "Signature timestamp should match log timestamp");

    let payload_bytes = log_payload.as_bytes();
    let is_valid = crypto::verify_payload(payload_bytes, &signature, &public_key)
        .expect("Failed to verify signature");
    assert!(is_valid, "Signature should be valid");

    now += 1;
    let _operation_id =
        db::add_operation(&mut store, account_id, 100_000, "Test operation".to_string(), now)
            .expect("Failed to add operation");

    assert_eq!(store.version_log.len(), 3, "Should have 3 version_log entries");
    assert_eq!(store.version_signatures.len(), 3, "Should have 3 signatures");

    let mut signatures: Vec<(i64, String, Vec<u8>, Vec<u8>)> = Vec::new();
    for record in &store.version_log {
        for row in &store.version_signatures {
            if row.version_id == record.id {
                signatures.push((
                    record.id,
                    record.payload.clone(),
                    row.signature.clone(),
                    row.public_key.clone(),
                ));
            }
        }
    }
    assert_eq!(signatures.len(), 3);

    for (i, (_log_id, payload, sig, pk)) in signatures.iter().enumerate() {
        let valid = crypto::verify_payload(payload.as_bytes(), sig, pk).expect("Failed to verify");
        assert!(valid, "Signature {} should be valid", i + 1);
    }

    let unique_sigs: std::collections::HashSet<_> =
        signatures.iter().map(|(_, _, sig, _)| sig.clone()).collect();
    assert_eq!(unique_sigs.len(), signatures.len(), "All signatures should be unique");
}

#[test]
fn test_signature_verification_with_wrong_data() {
    let mut store = db::Store::new();
    let now: i64 = 1_700_000_000;

    db::init_db(&mut store).expect("Failed to init db");

    let _account_id =
        db::create_account(&mut store, "Original Account".to_string(), "cash".to_string(), now)
            .expect("Failed to create account");

    let record = store
        .version_log
        .iter()
        .find(|r| r.entity == "account")
        .expect("Failed to get data");
    let row = store
        .version_signatures
        .iter()
        .find(|g| g.version_id == record.id)
        .expect("Failed to get data");
    let original_payload = record.payload.clone();
    let signature = row.signature.clone();
    let public_key = row.public_key.clone();

    let valid_original =
        crypto::verify_payload(original_payload.as_bytes(), &signature, &public_key)
            .expect("Failed to verify original");
    assert!(valid_original, "Original signature should be valid");

    let tampered_payload = original_payload.replace("Original Account", "Tampered Account");
    let valid_tampered =
        crypto::verify_payload(tampered_payload.as_bytes(), &signature, &public_key)
            .expect("Failed to verify tampered");
    assert!(!valid_tampered, "Tampered payload should not verify");
}
