use fam_core_lib::crypto::{
    derive_key, derive_key_with_salt, derived_key, generate_ed25519_keypair, generate_master_key,
    keypair_from_private, params_parallelism_bounded, password_check, sign_data, signature_check,
    verify_key, verify_signature, CryptoError, ARGON2_MAX_PARALLELISM, ARGON2_MEM_COST,
    ARGON2_PARALLELISM, ARGON2_TIME_COST, ARGON2_VERSION, MASTER_KEY_SIZE,
};

#[test]
fn master_keys_have_32_random_bytes() {
    let first = generate_master_key().unwrap();
    let second = generate_master_key().unwrap();
    assert_eq!(first.len(), 32);
    assert_eq!(second.len(), MASTER_KEY_SIZE);
    assert_ne!(first, second);
    assert_ne!(first, vec![0u8; 32]);
}

#[test]
fn argon2_parameters_are_fixed() {
    assert_eq!(ARGON2_MEM_COST, 65536);
    assert_eq!(ARGON2_TIME_COST, 3);
    assert_eq!(ARGON2_PARALLELISM, 4);
    assert_eq!(ARGON2_VERSION, 19);
    assert_eq!(ARGON2_MAX_PARALLELISM, 16777215);
}

#[test]
fn derived_key_verifies_its_password_only() {
    let derived = derive_key("correct horse").unwrap();
    assert!(derived.key.starts_with("$argon2id$v=19$m=65536,t=3,p=4$"), "{}", derived.key);
    assert_eq!(derived.salt.len(), 22);
    assert!(derived.key.contains(&derived.salt));
    assert_eq!(verify_key("correct horse", &derived.key), Ok(true));
    assert_eq!(verify_key("wrong horse", &derived.key), Ok(false));
}

#[test]
fn two_derivations_use_different_salts() {
    let first = derive_key("pw").unwrap();
    let second = derive_key("pw").unwrap();
    assert_ne!(first.salt, second.salt);
    assert_ne!(first.key, second.key);
}

#[test]
fn a_text_that_is_no_phc_string_is_an_error() {
    assert_eq!(verify_key("pw", "not a hash"), Err(CryptoError::InvalidKeyError));
    assert_eq!(verify_key("pw", ""), Err(CryptoError::InvalidKeyError));
}

#[test]
fn outcomes_of_the_password_check_map_to_results() {
    assert_eq!(password_check(None), Err(CryptoError::InvalidKeyError));
    assert_eq!(password_check(Some(None)), Err(CryptoError::VerificationError));
    assert_eq!(password_check(Some(Some(true))), Ok(true));
    assert_eq!(password_check(Some(Some(false))), Ok(false));
}

#[test]
fn a_missing_hash_is_a_derivation_error() {
    let failed = derived_key(None, "salt".to_string());
    assert_eq!(failed.err(), Some(CryptoError::KeyDerivationError));
    let packed = derived_key(Some("hash".to_string()), "salt".to_string()).unwrap();
    assert_eq!(packed.key, "hash");
    assert_eq!(packed.salt, "salt");
}

#[test]
fn verdicts_map_to_results() {
    assert_eq!(signature_check(None), Ok(false));
    assert_eq!(signature_check(Some(true)), Ok(true));
    assert_eq!(signature_check(Some(false)), Ok(false));
}

#[test]
fn key_pairs_belong_together() {
    let pair = generate_ed25519_keypair().unwrap();
    assert_eq!(pair.private_key.len(), 32);
    assert_eq!(pair.public_key.len(), 32);
    assert_ne!(pair.private_key, pair.public_key);
    let other = generate_ed25519_keypair().unwrap();
    assert_ne!(pair.private_key, other.private_key);
    assert_ne!(pair.public_key, other.public_key);
    let signature = sign_data(&pair.private_key, b"message").unwrap();
    assert_eq!(verify_signature(&pair.public_key, b"message", &signature), Ok(true));
    assert_eq!(verify_signature(&other.public_key, b"message", &signature), Ok(false));
}

#[test]
fn signing_follows_the_standard_test_vector() {
    // RFC 8032, section 7.1, test 1: the empty message.
    let private_key: Vec<u8> = vec![
        0x9d, 0x61, 0xb1, 0x9d, 0xef, 0xfd, 0x5a, 0x60, 0xba, 0x84, 0x4a, 0xf4, 0x92, 0xec, 0x2c,
        0xc4, 0x44, 0x49, 0xc5, 0x69, 0x7b, 0x32, 0x69, 0x19, 0x70, 0x3b, 0xac, 0x03, 0x1c, 0xae,
        0x7f, 0x60,
    ];
    let public_key: Vec<u8> = vec![
        0xd7, 0x5a, 0x98, 0x01, 0x82, 0xb1, 0x0a, 0xb7, 0xd5, 0x4b, 0xfe, 0xd3, 0xc9, 0x64, 0x07,
        0x3a, 0x0e, 0xe1, 0x72, 0xf3, 0xda, 0xa6, 0x23, 0x25, 0xaf, 0x02, 0x1a, 0x68, 0xf7, 0x07,
        0x51, 0x1a,
    ];
    let expected: Vec<u8> = vec![
        0xe5, 0x56, 0x43, 0x00, 0xc3, 0x60, 0xac, 0x72, 0x90, 0x86, 0xe2, 0xcc, 0x80, 0x6e, 0x82,
        0x8a, 0x84, 0x87, 0x7f, 0x1e, 0xb8, 0xe5, 0xd9, 0x74, 0xd8, 0x73, 0xe0, 0x65, 0x22, 0x49,
        0x01, 0x55, 0x5f, 0xb8, 0x82, 0x15, 0x90, 0xa3, 0x3b, 0xac, 0xc6, 0x1e, 0x39, 0x70, 0x1c,
        0xf9, 0xb4, 0x6b, 0xd2, 0x5b, 0xf5, 0xf0, 0x59, 0x5b, 0xbe, 0x24, 0x65, 0x51, 0x41, 0x43,
        0x8e, 0x7a, 0x10, 0x0b,
    ];
    let signature = sign_data(&private_key, b"").unwrap();
    assert_eq!(signature, expected);
    assert_eq!(verify_signature(&public_key, b"", &signature), Ok(true));
    assert_eq!(verify_signature(&public_key, b"x", &signature), Ok(false));
}

#[test]
fn malformed_keys_and_signatures_are_errors() {
    let pair = generate_ed25519_keypair().unwrap();
    let signature = sign_data(&pair.private_key, b"m").unwrap();
    assert_eq!(sign_data(&[0u8; 31], b"m"), Err(CryptoError::InvalidKeyLength));
    assert_eq!(sign_data(&[0u8; 33], b"m"), Err(CryptoError::InvalidKeyLength));
    assert_eq!(sign_data(&[], b"m"), Err(CryptoError::InvalidKeyLength));
    assert_eq!(
        verify_signature(&pair.public_key[..31], b"m", &signature),
        Err(CryptoError::InvalidKeyLength)
    );
    assert_eq!(
        verify_signature(&pair.public_key, b"m", &signature[..63]),
        Err(CryptoError::InvalidSignatureLength)
    );
    // The key length is looked at first.
    assert_eq!(verify_signature(&[0u8; 3], b"m", &[0u8; 3]), Err(CryptoError::InvalidKeyLength));
}

#[test]
fn bytes_that_are_no_public_key_verify_nothing() {
    let pair = generate_ed25519_keypair().unwrap();
    let signature = sign_data(&pair.private_key, b"m").unwrap();
    for first in 0u8..=255 {
        for last in [0u8, 1, 0x7f, 0x80, 0xff] {
            let mut candidate = vec![0u8; 32];
            candidate[0] = first;
            candidate[31] = last;
            assert_eq!(verify_signature(&candidate, b"m", &signature), Ok(false));
        }
    }
    assert_eq!(verify_signature(&[0xffu8; 32], b"m", &signature), Ok(false));
    assert_eq!(verify_signature(&[2u8; 32], b"m", &[0u8; 64]), Ok(false));
}

#[test]
fn a_key_pair_is_made_from_its_private_key() {
    // RFC 8032, section 7.1, test 1.
    let private_key: Vec<u8> = vec![
        0x9d, 0x61, 0xb1, 0x9d, 0xef, 0xfd, 0x5a, 0x60, 0xba, 0x84, 0x4a, 0xf4, 0x92, 0xec, 0x2c,
        0xc4, 0x44, 0x49, 0xc5, 0x69, 0x7b, 0x32, 0x69, 0x19, 0x70, 0x3b, 0xac, 0x03, 0x1c, 0xae,
        0x7f, 0x60,
    ];
    let public_key: Vec<u8> = vec![
        0xd7, 0x5a, 0x98, 0x01, 0x82, 0xb1, 0x0a, 0xb7, 0xd5, 0x4b, 0xfe, 0xd3, 0xc9, 0x64, 0x07,
        0x3a, 0x0e, 0xe1, 0x72, 0xf3, 0xda, 0xa6, 0x23, 0x25, 0xaf, 0x02, 0x1a, 0x68, 0xf7, 0x07,
        0x51, 0x1a,
    ];
    let pair = keypair_from_private(private_key.clone());
    assert_eq!(pair.private_key, private_key);
    assert_eq!(pair.public_key, public_key);
}

#[test]
fn a_given_salt_gives_one_verifier() {
    let salt = [0u8; 16];
    let first = derive_key_with_salt("pw", &salt).unwrap();
    let second = derive_key_with_salt("pw", &salt).unwrap();
    assert_eq!(first.salt, "AAAAAAAAAAAAAAAAAAAAAA");
    assert!(first.key.starts_with("$argon2id$v=19$m=65536,t=3,p=4$AAAAAAAAAAAAAAAAAAAAAA$"));
    assert_eq!(first.key, second.key);
    assert_eq!(first.salt, second.salt);
    let other = derive_key_with_salt("pw2", &salt).unwrap();
    assert_ne!(first.key, other.key);
    assert_eq!(verify_key("pw", &first.key), Ok(true));
    assert_eq!(verify_key("pw2", &first.key), Ok(false));
}

#[test]
fn a_salt_without_text_gives_no_verifier() {
    assert_eq!(derive_key_with_salt("pw", &[1, 2]).err(), Some(CryptoError::KeyDerivationError));
    assert_eq!(derive_key_with_salt("pw", &[]).err(), Some(CryptoError::KeyDerivationError));
    assert_eq!(
        derive_key_with_salt("pw", &[0u8; 100]).err(),
        Some(CryptoError::KeyDerivationError)
    );
}

#[test]
fn a_hash_that_asks_for_too_many_lanes_matches_nothing() {
    let derived = derive_key_with_salt("pw", &[7u8; 16]).unwrap();
    assert!(derived.key.contains("p=4$"));
    for lanes in ["p=536870912", "p=4294967295", "p=16777216", "p=4,p=536870912"] {
        let forged = derived.key.replace("p=4", lanes);
        assert_eq!(verify_key("pw", &forged), Ok(false), "{}", lanes);
    }
    // Where a parameter is written twice, the last one counts.
    let twice = derived.key.replace("p=4", "p=1073741824,p=4");
    assert_eq!(verify_key("pw", &twice), Ok(true));
    assert_eq!(verify_key("pw2", &twice), Ok(false));
    // In reach of Argon2, and refused there for want of memory.
    let forged = derived.key.replace("p=4", "p=16777215");
    assert_eq!(verify_key("pw", &forged), Ok(false));
    // Values that are no decimal numbers are Argon2's to refuse.
    let forged = derived.key.replace("p=4", "p=x999999999");
    assert_eq!(verify_key("pw", &forged), Ok(false));
    assert_eq!(verify_key("pw", &derived.key), Ok(true));
}

#[test]
fn the_lanes_of_a_hash_are_looked_at_before_argon2_is() {
    let pair = |name: &str, value: &str| (name.to_string(), value.to_string());
    assert!(params_parallelism_bounded(&vec![]));
    assert!(params_parallelism_bounded(&vec![pair("m", "99999999999"), pair("p", "4")]));
    assert!(params_parallelism_bounded(&vec![pair("p", "16777215")]));
    assert!(!params_parallelism_bounded(&vec![pair("p", "16777216")]));
    assert!(!params_parallelism_bounded(&vec![pair("p", "4"), pair("p", "536870912")]));
    assert!(params_parallelism_bounded(&vec![pair("p", "536870912"), pair("p", "4")]));
    assert!(!params_parallelism_bounded(&vec![pair("p", "536870912"), pair("t", "4")]));
    assert!(!params_parallelism_bounded(&vec![pair("p", "0000000000016777216")]));
    assert!(params_parallelism_bounded(&vec![pair("p", "167772160x")]));
    assert!(params_parallelism_bounded(&vec![pair("P", "999999999")]));
}

#[test]
fn failures_are_said_in_words() {
    assert_eq!(CryptoError::KeyGenerationError.message(), "Failed to generate master key");
    assert_eq!(CryptoError::KeyDerivationError.message(), "Failed to derive key");
    assert_eq!(
        CryptoError::InvalidKeyError.message(),
        "Invalid key format: failed to parse hash"
    );
    assert_eq!(CryptoError::VerificationError.message(), "Key verification failed");
    assert_eq!(
        CryptoError::InvalidKeyLength.message(),
        "Ed25519 key error: key must be exactly 32 bytes"
    );
    assert_eq!(
        CryptoError::InvalidSignatureLength.message(),
        "Signature error: signature must be exactly 64 bytes"
    );
}
