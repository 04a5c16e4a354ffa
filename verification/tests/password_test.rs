//! Password hashing tests.

use pop_mail_server::auth::password::PasswordError;
use pop_mail_server::auth::PasswordHasher;

#[test]
fn test_hash_and_verify() {
    let hasher = PasswordHasher::new();
    let password = "secret123";

    let hash = hasher.hash(password).unwrap();
    assert!(hash.starts_with("$argon2"));

    assert!(hasher.verify(password, &hash).unwrap());
    assert!(!hasher.verify("wrong", &hash).unwrap());
}

#[test]
fn test_different_hashes() {
    let hasher = PasswordHasher::new();
    let password = "secret123";

    let hash1 = hasher.hash(password).unwrap();
    let hash2 = hasher.hash(password).unwrap();

    // Same password should produce different hashes (different salts)
    assert_ne!(hash1, hash2);

    // But both should verify correctly
    assert!(hasher.verify(password, &hash1).unwrap());
    assert!(hasher.verify(password, &hash2).unwrap());
}

#[test]
fn test_invalid_hash() {
    let hasher = PasswordHasher::new();
    assert!(hasher.verify("password", "invalid").is_err());
}

#[test]
fn invalid_hash_is_invalid_format() {
    let hasher = PasswordHasher::default();
    let e = hasher.verify("password", "invalid").unwrap_err();
    assert!(matches!(e, PasswordError::InvalidFormat));
    assert_eq!(e.message(), "Invalid hash format");
}

#[test]
fn hashes_are_argon2id_phc_strings() {
    let hash = PasswordHasher::new().hash("pässwörd").unwrap();
    assert!(hash.starts_with("$argon2id$v=19$"));
}
