//! Cryptographic primitives: random keys, Argon2id password verifiers and
//! Ed25519 signatures.
//!
//! The algorithms themselves are those of the `rand`, `argon2` and
//! `ed25519-dalek` crates. Each is reached through one private function whose
//! contract is taken on trust; what such a function returns is named by a
//! specification function without a body, so that the contracts of the
//! verified functions can speak of it exactly. Which algorithm, which
//! version and which costs Argon2 runs with is decided here and handed to
//! those functions as plain values.

use argon2::password_hash::{PasswordHash, PasswordHasher, PasswordVerifier, SaltString};
use argon2::{Algorithm, Argon2, ParamsBuilder, Version};
use ed25519_dalek::{Signature, Signer, SigningKey, Verifier, VerifyingKey};
use rand::rngs::OsRng;
use rand::RngCore;
use crate::text::{decimal_is_within, decimal_within};
use vstd::prelude::*;
use vstd::string::StringExecFns;

verus! {

/// Argon2id memory cost in KiB.
pub const ARGON2_MEM_COST: u32 = 65536;

/// Argon2id number of passes.
pub const ARGON2_TIME_COST: u32 = 3;

/// Argon2id degree of parallelism.
pub const ARGON2_PARALLELISM: u32 = 4;

/// The version of Argon2 that verifiers are made with.
pub const ARGON2_VERSION: u32 = 0x13;

/// The largest degree of parallelism that Argon2 takes.
pub const ARGON2_MAX_PARALLELISM: u32 = 0xFF_FFFF;

/// Length of a master key in bytes.
pub const MASTER_KEY_SIZE: usize = 32;

/// Length of the random salt of a password verifier, in bytes.
pub const SALT_SIZE: usize = 16;

/// Length of an Ed25519 private or public key in bytes.
pub const ED25519_KEY_SIZE: usize = 32;

/// Length of an Ed25519 signature in bytes.
pub const ED25519_SIGNATURE_SIZE: usize = 64;

/// Why a cryptographic operation failed. A signature that does not match,
/// and a public key of the right length that is no point of the curve, are
/// no failures: verification then succeeds with `false`.
#[derive(Debug, Clone, Copy, PartialEq, Eq, Structural)]
pub enum CryptoError {
    /// The operating system gave no random bytes.
    KeyGenerationError,
    /// The password hash could not be computed.
    KeyDerivationError,
    /// The stored password verifier is not a PHC string.
    InvalidKeyError,
    /// The Argon2id parameters were refused.
    VerificationError,
    /// A private or public key is not 32 bytes long.
    InvalidKeyLength,
    /// A signature is not 64 bytes long.
    InvalidSignatureLength,
}

impl CryptoError {
    /// The words for the failure.
    pub open spec fn message_text(&self) -> Seq<char> {
        match self {
            CryptoError::KeyGenerationError => "Failed to generate master key"@,
            CryptoError::KeyDerivationError => "Failed to derive key"@,
            CryptoError::InvalidKeyError => "Invalid key format: failed to parse hash"@,
            CryptoError::VerificationError => "Key verification failed"@,
            CryptoError::InvalidKeyLength => "Ed25519 key error: key must be exactly 32 bytes"@,
            CryptoError::InvalidSignatureLength =>
                "Signature error: signature must be exactly 64 bytes"@,
        }
    }

    /// Says the failure in words.
    pub fn message(&self) -> (r: String)
        ensures
            r@ == self.message_text(),
    {
        let text = match self {
            CryptoError::KeyGenerationError => "Failed to generate master key",
            CryptoError::KeyDerivationError => "Failed to derive key",
            CryptoError::InvalidKeyError => "Invalid key format: failed to parse hash",
            CryptoError::VerificationError => "Key verification failed",
            CryptoError::InvalidKeyLength => "Ed25519 key error: key must be exactly 32 bytes",
            CryptoError::InvalidSignatureLength =>
                "Signature error: signature must be exactly 64 bytes",
        };
        String::from_str(text)
    }
}

/// A freshly generated master key.
#[derive(Debug)]
pub struct MasterKey {
    pub key: Vec<u8>,
}

/// A password verifier in PHC string format, and the salt it was made with.
#[derive(Debug)]
pub struct DerivedKey {
    pub key: String,
    pub salt: String,
}

/// An Ed25519 key pair as raw bytes, 32 each.
#[derive(Debug)]
pub struct Ed25519KeyPair {
    pub private_key: Vec<u8>,
    pub public_key: Vec<u8>,
}

/// The public key that belongs to a 32-byte Ed25519 private key.
pub uninterp spec fn ed25519_public_key(private_key: Seq<u8>) -> Seq<u8>;

/// The Ed25519 signature of `message` under a 32-byte private key.
pub uninterp spec fn ed25519_signature(private_key: Seq<u8>, message: Seq<u8>) -> Seq<u8>;

/// Whether 32 bytes are an Ed25519 public key: the encoding of a point of
/// the curve.
pub uninterp spec fn ed25519_key_valid(public_key: Seq<u8>) -> bool;

/// Whether a 64-byte signature is accepted for a message under a public key.
pub uninterp spec fn ed25519_accepts(
    public_key: Seq<u8>,
    message: Seq<u8>,
    signature: Seq<u8>,
) -> bool;

/// The outcome of checking a 64-byte signature against a message and a
/// 32-byte public key: `None` where the key bytes are no public key, else
/// whether the signature is accepted.
pub open spec fn ed25519_verdict(
    public_key: Seq<u8>,
    message: Seq<u8>,
    signature: Seq<u8>,
) -> Option<bool> {
    if ed25519_key_valid(public_key) {
        Some(ed25519_accepts(public_key, message, signature))
    } else {
        None
    }
}

/// The B64 text of a salt, `None` where the salt is too long to have one.
pub uninterp spec fn salt_b64_text(salt: Seq<u8>) -> Option<Seq<char>>;

/// The PHC string that Argon2 computes for a password under a salt text, an
/// algorithm by its name, a version and three costs; `None` where it
/// refuses them.
pub uninterp spec fn argon2_phc(
    password: Seq<char>,
    salt: Seq<char>,
    algorithm: Seq<char>,
    version: u32,
    mem_cost: u32,
    time_cost: u32,
    parallelism: u32,
) -> Option<Seq<char>>;

/// Whether a text is a password hash in PHC string format.
pub uninterp spec fn phc_string_valid(hash: Seq<char>) -> bool;

/// The parameters written in a PHC string, in their order, each as its name
/// and the text of its value. A text that is no PHC string has none.
pub uninterp spec fn phc_params(hash: Seq<char>) -> Seq<(Seq<char>, Seq<char>)>;

/// Whether a password matches a password hash in PHC string format.
pub uninterp spec fn argon2_matches(password: Seq<char>, hash: Seq<char>) -> bool;

/// The name of the algorithm that verifiers are made with.
pub open spec fn argon2_algorithm() -> Seq<char> {
    "argon2id"@
}

/// Argon2 takes the algorithm name, the version and the costs: the name is
/// one of its three, the version one of its two, the memory is at least 8
/// KiB and 8 KiB for each lane, there is at least one pass, and between one
/// and 2^24 - 1 lanes.
pub open spec fn argon2_setup_valid(
    algorithm: Seq<char>,
    version: u32,
    mem_cost: u32,
    time_cost: u32,
    parallelism: u32,
) -> bool {
    &&& algorithm == "argon2d"@ || algorithm == "argon2i"@ || algorithm == "argon2id"@
    &&& version == 0x10 || version == 0x13
    &&& mem_cost >= 8
    &&& mem_cost >= 8 * parallelism
    &&& time_cost >= 1
    &&& 1 <= parallelism <= ARGON2_MAX_PARALLELISM
}

/// The parallelism that counts among the parameters of a PHC string, the
/// last one, is one that Argon2 can look at: where the value of the last
/// parameter `p` is a decimal number, it is at most 2^24 - 1.
pub open spec fn parallelism_bounded(params: Seq<(Seq<char>, Seq<char>)>) -> bool
    decreases params.len(),
{
    if params.len() == 0 {
        true
    } else if params.last().0 == "p"@ {
        decimal_within(params.last().1, ARGON2_MAX_PARALLELISM as int)
    } else {
        parallelism_bounded(params.drop_last())
    }
}

/// The views of pairs of texts.
pub open spec fn pair_views(pairs: Seq<(String, String)>) -> Seq<(Seq<char>, Seq<char>)> {
    Seq::new(pairs.len(), |i: int| (pairs[i].0@, pairs[i].1@))
}

/// Calls `OsRng.try_fill_bytes` of `rand` on a zeroed buffer of `len` bytes.
/// Trusted: the buffer that comes back has the length asked for. Nothing is
/// claimed of its content, nor of when the operating system refuses.
#[verifier::external_body]
fn os_random_bytes(len: usize) -> (r: Option<Vec<u8>>)
    ensures
        r matches Some(bytes) ==> bytes@.len() == len,
{
    let mut bytes = vec![0u8; len];
    match OsRng.try_fill_bytes(&mut bytes) {
        Ok(()) => Some(bytes),
        Err(_) => None,
    }
}

/// Calls `SigningKey::from_bytes` and `SigningKey::verifying_key` of
/// `ed25519-dalek`. Trusted: the result is the public key of the private key,
/// it has 32 bytes, and it is a public key (it is the encoding of a point,
/// so decoding it succeeds).
#[verifier::external_body]
fn ed25519_derive_public(private_key: &[u8]) -> (r: Vec<u8>)
    requires
        private_key@.len() == 32,
    ensures
        r@ == ed25519_public_key(private_key@),
        r@.len() == 32,
        ed25519_key_valid(r@),
{
    let mut seed = [0u8; 32];
    seed.copy_from_slice(private_key);
    SigningKey::from_bytes(&seed).verifying_key().to_bytes().to_vec()
}

/// Calls `SigningKey::sign` of `ed25519-dalek`. Trusted: the result is the
/// signature of the message under the key, it has 64 bytes, and it is
/// accepted for the same message under the key's public key.
#[verifier::external_body]
fn ed25519_sign(private_key: &[u8], message: &[u8]) -> (r: Vec<u8>)
    requires
        private_key@.len() == 32,
    ensures
        r@ == ed25519_signature(private_key@, message@),
        r@.len() == 64,
        ed25519_accepts(ed25519_public_key(private_key@), message@, r@),
{
    let mut seed = [0u8; 32];
    seed.copy_from_slice(private_key);
    SigningKey::from_bytes(&seed).sign(message).to_bytes().to_vec()
}

/// Calls `VerifyingKey::from_bytes` and `VerifyingKey::verify` of
/// `ed25519-dalek`. Trusted: the result is `None` exactly where the bytes
/// are no public key, and else says whether the signature is accepted.
#[verifier::external_body]
fn ed25519_check(public_key: &[u8], message: &[u8], signature: &[u8]) -> (r: Option<bool>)
    requires
        public_key@.len() == 32,
        signature@.len() == 64,
    ensures
        r == ed25519_verdict(public_key@, message@, signature@),
{
    let mut key = [0u8; 32];
    key.copy_from_slice(public_key);
    let mut sig = [0u8; 64];
    sig.copy_from_slice(signature);
    match VerifyingKey::from_bytes(&key) {
        Ok(k) => Some(k.verify(message, &Signature::from_bytes(&sig)).is_ok()),
        Err(_) => None,
    }
}

/// Calls `SaltString::encode_b64` of `password-hash`. Trusted: the text that
/// comes back is the B64 text of the bytes, and none comes back exactly
/// where the bytes have none.
#[verifier::external_body]
fn salt_to_b64(salt: &[u8]) -> (r: Option<String>)
    ensures
        r matches Some(text) ==> salt_b64_text(salt@) == Some(text@),
        r is None ==> salt_b64_text(salt@) is None,
{
    match SaltString::encode_b64(salt) {
        Ok(text) => Some(text.as_str().to_string()),
        Err(_) => None,
    }
}

/// Calls `Argon2::hash_password` of `argon2`, after `Algorithm::new`,
/// `Version::try_from` and `ParamsBuilder::build` have turned the name, the
/// version and the costs into what it takes. Trusted: the hash that comes
/// back is the PHC string named above, and none comes back exactly where
/// that is `None`. A parallelism above 2^24 - 1 is kept out: the library
/// multiplies it by 8 before it looks at its size.
#[verifier::external_body]
fn argon2_hash(
    password: &str,
    salt: &str,
    algorithm: &str,
    version: u32,
    mem_cost: u32,
    time_cost: u32,
    parallelism: u32,
) -> (r: Option<String>)
    requires
        parallelism <= ARGON2_MAX_PARALLELISM,
    ensures
        r matches Some(hash) ==> argon2_phc(
            password@,
            salt@,
            algorithm@,
            version,
            mem_cost,
            time_cost,
            parallelism,
        ) == Some(hash@),
        r is None ==> argon2_phc(
            password@,
            salt@,
            algorithm@,
            version,
            mem_cost,
            time_cost,
            parallelism,
        ) is None,
{
    let algorithm = Algorithm::new(algorithm).ok()?;
    let version = Version::try_from(version).ok()?;
    let params =
        ParamsBuilder::new().m_cost(mem_cost).t_cost(time_cost).p_cost(parallelism).build().ok()?;
    let salt = SaltString::from_b64(salt).ok()?;
    match Argon2::new(algorithm, version, params).hash_password(password.as_bytes(), &salt) {
        Ok(hash) => Some(hash.to_string()),
        Err(_) => None,
    }
}

/// Calls `PasswordHash::new` of `password-hash` and hands out the parameters
/// of the parsed string, each as two texts. Trusted: they are the parameters
/// named above, and a text that is no PHC string has none.
#[verifier::external_body]
fn phc_params_of(hash: &str) -> (r: Vec<(String, String)>)
    ensures
        pair_views(r@) == phc_params(hash@),
        !phc_string_valid(hash@) ==> r@.len() == 0,
{
    let mut pairs = Vec::new();
    if let Ok(parsed) = PasswordHash::new(hash) {
        for (name, value) in parsed.params.iter() {
            pairs.push((name.as_str().to_string(), value.as_str().to_string()));
        }
    }
    pairs
}

/// Calls `PasswordHash::new` of `password-hash` and `Argon2::verify_password`
/// of `argon2`, after `Algorithm::new`, `Version::try_from` and
/// `ParamsBuilder::build` have made the context that the call needs. The
/// outer `None` says that the text is no PHC string, the inner one that the
/// context was refused. Trusted: the outer `None` comes exactly where the
/// text is no PHC string, the inner one exactly where Argon2 does not take
/// the name, the version and the costs, and an answer that comes back says
/// whether the password matches the hash (the costs written in the PHC
/// string decide that, not those given). Kept out are a parallelism above
/// 2^24 - 1, given or written last in the PHC string (the last one written
/// counts): the library multiplies it by 8 before it looks at its size.
#[verifier::external_body]
fn argon2_check(
    password: &str,
    hash: &str,
    algorithm: &str,
    version: u32,
    mem_cost: u32,
    time_cost: u32,
    parallelism: u32,
) -> (r: Option<Option<bool>>)
    requires
        parallelism <= ARGON2_MAX_PARALLELISM,
        parallelism_bounded(phc_params(hash@)),
    ensures
        r is None <==> !phc_string_valid(hash@),
        r matches Some(inner) ==> (inner is Some <==> argon2_setup_valid(
            algorithm@,
            version,
            mem_cost,
            time_cost,
            parallelism,
        )),
        r matches Some(Some(matched)) ==> matched == argon2_matches(password@, hash@),
{
    let parsed = PasswordHash::new(hash).ok()?;
    let built = ParamsBuilder::new().m_cost(mem_cost).t_cost(time_cost).p_cost(parallelism).build();
    match (Algorithm::new(algorithm), Version::try_from(version), built) {
        (Ok(algorithm), Ok(version), Ok(params)) => {
            let hasher = Argon2::new(algorithm, version, params);
            Some(Some(hasher.verify_password(password.as_bytes(), &parsed).is_ok()))
        },
        _ => Some(None),
    }
}

/// Generates a master key of 32 random bytes from the operating system.
pub fn generate_master_key() -> (r: Result<Vec<u8>, CryptoError>)
    ensures
        match r {
            Ok(key) => key@.len() == MASTER_KEY_SIZE,
            Err(e) => e == CryptoError::KeyGenerationError,
        },
{
    match os_random_bytes(MASTER_KEY_SIZE) {
        Some(key) => Ok(key),
        None => Err(CryptoError::KeyGenerationError),
    }
}

/// What `derive_key` returns for a computed hash and the salt it was made
/// with.
pub open spec fn derived_key_result(hash: Option<String>, salt: String) -> Result<
    DerivedKey,
    CryptoError,
> {
    match hash {
        Some(key) => Ok(DerivedKey { key, salt }),
        None => Err(CryptoError::KeyDerivationError),
    }
}

/// Packs a computed hash with its salt, or reports that none was computed.
pub fn derived_key(hash: Option<String>, salt: String) -> (r: Result<DerivedKey, CryptoError>)
    ensures
        r == derived_key_result(hash, salt),
{
    match hash {
        Some(key) => Ok(DerivedKey { key, salt }),
        None => Err(CryptoError::KeyDerivationError),
    }
}

/// The verifier and the salt text that belong to a password and the bytes
/// of a salt: the salt in B64, and the Argon2id PHC string (version 0x13,
/// 64 MiB, 3 passes, 4 lanes) of the password under it. `None` where the
/// salt has no text or Argon2 refuses it, as it does a salt that is too
/// short.
pub open spec fn derived_key_text(password: Seq<char>, salt: Seq<u8>) -> Option<
    (Seq<char>, Seq<char>),
> {
    match salt_b64_text(salt) {
        None => None,
        Some(text) => match argon2_phc(
            password,
            text,
            argon2_algorithm(),
            ARGON2_VERSION,
            ARGON2_MEM_COST,
            ARGON2_TIME_COST,
            ARGON2_PARALLELISM,
        ) {
            None => None,
            Some(key) => Some((key, text)),
        },
    }
}

/// Derives the password verifier of a password under the given salt bytes.
pub fn derive_key_with_salt(password: &str, salt: &[u8]) -> (r: Result<DerivedKey, CryptoError>)
    ensures
        match derived_key_text(password@, salt@) {
            Some(pair) => r matches Ok(derived) && derived.key@ == pair.0 && derived.salt@
                == pair.1,
            None => r matches Err(e) && e == CryptoError::KeyDerivationError,
        },
{
    let text = match salt_to_b64(salt) {
        Some(text) => text,
        None => {
            return Err(CryptoError::KeyDerivationError);
        },
    };
    let hash = argon2_hash(
        password,
        text.as_str(),
        "argon2id",
        ARGON2_VERSION,
        ARGON2_MEM_COST,
        ARGON2_TIME_COST,
        ARGON2_PARALLELISM,
    );
    derived_key(hash, text)
}

/// Derives a password verifier with Argon2id (64 MiB, 3 passes, 4 lanes) and
/// a fresh random salt of 16 bytes. The salt is random, so two calls on one
/// password differ; whatever the salt, the result is that of
/// `derive_key_with_salt` for it.
pub fn derive_key(password: &str) -> (r: Result<DerivedKey, CryptoError>)
    ensures
        match r {
            Ok(derived) => exists|salt: Seq<u8>|
                salt.len() == SALT_SIZE && #[trigger] derived_key_text(password@, salt) == Some(
                    (derived.key@, derived.salt@),
                ),
            Err(e) => e == CryptoError::KeyDerivationError,
        },
{
    match os_random_bytes(SALT_SIZE) {
        Some(salt) => derive_key_with_salt(password, salt.as_slice()),
        None => Err(CryptoError::KeyDerivationError),
    }
}

/// What `verify_key` returns for the outcome of the Argon2id check.
pub open spec fn password_check_result(outcome: Option<Option<bool>>) -> Result<bool, CryptoError> {
    match outcome {
        None => Err(CryptoError::InvalidKeyError),
        Some(None) => Err(CryptoError::VerificationError),
        Some(Some(matched)) => Ok(matched),
    }
}

/// Turns the outcome of the Argon2id check into the result of `verify_key`:
/// a text that is no PHC string and a refused context are errors, a password
/// that does not match is `Ok(false)`.
pub fn password_check(outcome: Option<Option<bool>>) -> (r: Result<bool, CryptoError>)
    ensures
        r == password_check_result(outcome),
{
    match outcome {
        None => Err(CryptoError::InvalidKeyError),
        Some(None) => Err(CryptoError::VerificationError),
        Some(Some(matched)) => Ok(matched),
    }
}

/// Says whether the parallelism that counts among the parameters of a PHC
/// string is one that Argon2 can look at.
pub fn params_parallelism_bounded(params: &Vec<(String, String)>) -> (r: bool)
    ensures
        r == parallelism_bounded(pair_views(params@)),
{
    let name = String::from_str("p");
    let mut bounded = true;
    let mut i: usize = 0;
    let ghost all = pair_views(params@);
    while i < params.len()
        invariant
            i <= params.len(),
            all == pair_views(params@),
            name@ == "p"@,
            bounded == parallelism_bounded(all.take(i as int)),
        decreases params.len() - i,
    {
        proof {
            assert(all.take(i + 1).drop_last() =~= all.take(i as int));
            assert(all.take(i + 1).last() == (params@[i as int].0@, params@[i as int].1@));
        }
        if params[i].0 == name {
            bounded = decimal_is_within(params[i].1.as_str(), ARGON2_MAX_PARALLELISM);
        }
        i = i + 1;
    }
    assert(all.take(params@.len() as int) =~= all);
    bounded
}

/// What `verify_key` returns: an error for a text that is no PHC string,
/// `false` for a PHC string that asks for more lanes than Argon2 takes, and
/// else whether the password matches.
pub open spec fn verify_key_result(password: Seq<char>, hash: Seq<char>) -> Result<
    bool,
    CryptoError,
> {
    if !phc_string_valid(hash) {
        Err(CryptoError::InvalidKeyError)
    } else if !parallelism_bounded(phc_params(hash)) {
        Ok(false)
    } else {
        Ok(argon2_matches(password, hash))
    }
}

/// Checks a password against a verifier made by `derive_key`.
pub fn verify_key(password: &str, hash: &str) -> (r: Result<bool, CryptoError>)
    ensures
        r == verify_key_result(password@, hash@),
{
    let params = phc_params_of(hash);
    if !params_parallelism_bounded(&params) {
        return Ok(false);
    }
    let outcome = argon2_check(
        password,
        hash,
        "argon2id",
        ARGON2_VERSION,
        ARGON2_MEM_COST,
        ARGON2_TIME_COST,
        ARGON2_PARALLELISM,
    );
    password_check(outcome)
}

/// The key pair of a private key: the key itself and the public key that
/// belongs to it.
pub fn keypair_from_private(private_key: Vec<u8>) -> (r: Ed25519KeyPair)
    requires
        private_key@.len() == 32,
    ensures
        r.private_key@ == private_key@,
        is_key_pair(r.private_key@, r.public_key@),
{
    let public_key = ed25519_derive_public(private_key.as_slice());
    Ed25519KeyPair { private_key, public_key }
}

/// Generates an Ed25519 key pair: 32 random bytes from the operating system
/// as the private key, and the public key that belongs to them.
pub fn generate_ed25519_keypair() -> (r: Result<Ed25519KeyPair, CryptoError>)
    ensures
        match r {
            Ok(pair) => is_key_pair(pair.private_key@, pair.public_key@),
            Err(e) => e == CryptoError::KeyGenerationError,
        },
{
    match os_random_bytes(ED25519_KEY_SIZE) {
        Some(private_key) => Ok(keypair_from_private(private_key)),
        None => Err(CryptoError::KeyGenerationError),
    }
}

/// `public_key` is the public key of the 32-byte private key `private_key`.
pub open spec fn is_key_pair(private_key: Seq<u8>, public_key: Seq<u8>) -> bool {
    &&& private_key.len() == 32
    &&& public_key.len() == 32
    &&& public_key == ed25519_public_key(private_key)
    &&& ed25519_key_valid(public_key)
}

/// What `sign_data` returns.
pub open spec fn sign_result(private_key: Seq<u8>, data: Seq<u8>) -> Result<Seq<u8>, CryptoError> {
    if private_key.len() != 32 {
        Err(CryptoError::InvalidKeyLength)
    } else {
        Ok(ed25519_signature(private_key, data))
    }
}

/// What `verify_signature` returns.
pub open spec fn verify_result(public_key: Seq<u8>, data: Seq<u8>, signature: Seq<u8>) -> Result<
    bool,
    CryptoError,
> {
    if public_key.len() != 32 {
        Err(CryptoError::InvalidKeyLength)
    } else if signature.len() != 64 {
        Err(CryptoError::InvalidSignatureLength)
    } else {
        signature_check_result(ed25519_verdict(public_key, data, signature))
    }
}

/// What a verdict on a signature means to the caller: only an accepted
/// signature verifies. A key that is no public key verifies nothing.
pub open spec fn signature_check_result(verdict: Option<bool>) -> Result<bool, CryptoError> {
    match verdict {
        None => Ok(false),
        Some(accepted) => Ok(accepted),
    }
}

/// Turns a verdict on a signature into the result of a verification: a key
/// that is no point of the curve and a signature that is not accepted are
/// both `Ok(false)`.
pub fn signature_check(verdict: Option<bool>) -> (r: Result<bool, CryptoError>)
    ensures
        r == signature_check_result(verdict),
{
    match verdict {
        None => Ok(false),
        Some(accepted) => Ok(accepted),
    }
}

/// Signs `data` with a 32-byte Ed25519 private key. The signature has 64
/// bytes and is accepted for `data` under the key's public key.
pub fn sign_data(private_key_bytes: &[u8], data: &[u8]) -> (r: Result<Vec<u8>, CryptoError>)
    ensures
        match r {
            Ok(signature) => {
                &&& sign_result(private_key_bytes@, data@) == Ok::<Seq<u8>, CryptoError>(
                    signature@,
                )
                &&& signature@.len() == 64
                &&& ed25519_accepts(ed25519_public_key(private_key_bytes@), data@, signature@)
            },
            Err(e) => sign_result(private_key_bytes@, data@) == Err::<Seq<u8>, CryptoError>(e),
        },
{
    if private_key_bytes.len() != ED25519_KEY_SIZE {
        return Err(CryptoError::InvalidKeyLength);
    }
    Ok(ed25519_sign(private_key_bytes, data))
}

/// Checks a signature of `data` against a public key. Keys and signatures of
/// the wrong length are the only errors; a signature that does not match,
/// under whatever 32 bytes of key, is `Ok(false)`.
pub fn verify_signature(public_key_bytes: &[u8], data: &[u8], signature_bytes: &[u8]) -> (r: Result<
    bool,
    CryptoError,
>)
    ensures
        r == verify_result(public_key_bytes@, data@, signature_bytes@),
{
    if public_key_bytes.len() != ED25519_KEY_SIZE {
        return Err(CryptoError::InvalidKeyLength);
    }
    if signature_bytes.len() != ED25519_SIGNATURE_SIZE {
        return Err(CryptoError::InvalidSignatureLength);
    }
    signature_check(ed25519_check(public_key_bytes, data, signature_bytes))
}

/// Signs the bytes of an audit payload: `sign_data` with the payload first.
pub fn sign_payload(payload: &[u8], private_key: &[u8]) -> (r: Result<Vec<u8>, CryptoError>)
    ensures
        match r {
            Ok(signature) => {
                &&& sign_result(private_key@, payload@) == Ok::<Seq<u8>, CryptoError>(signature@)
                &&& signature@.len() == 64
                &&& ed25519_accepts(ed25519_public_key(private_key@), payload@, signature@)
            },
            Err(e) => sign_result(private_key@, payload@) == Err::<Seq<u8>, CryptoError>(e),
        },
{
    sign_data(private_key, payload)
}

/// Checks the signature of an audit payload: `verify_signature` with the
/// payload first and the public key last.
pub fn verify_payload(payload: &[u8], signature: &[u8], public_key: &[u8]) -> (r: Result<
    bool,
    CryptoError,
>)
    ensures
        r == verify_result(public_key@, payload@, signature@),
{
    verify_signature(public_key, payload, signature)
}

} // verus!
