//! Tests for key derivation and the authenticated chunk transform.

use encrypted_backup::crypto::aes_decrypt;
use encrypted_backup::crypto::aes_encrypt;
use encrypted_backup::crypto::password_to_key;
use encrypted_backup::types::BackupError;

#[test]
fn test_aes() {
    let aes_message = "Hello, AES!";
    let key = password_to_key("password123");
    let aes_encrypted = aes_encrypt(&key, aes_message.as_bytes()).unwrap();
    let aes_decrypted = aes_decrypt(&key, &aes_encrypted).unwrap();
    let aes_decrypted_message = std::str::from_utf8(&aes_decrypted).unwrap();
    assert_eq!(aes_decrypted_message, aes_message);
    assert_ne!(aes_encrypted, aes_message.as_bytes());
}

#[test]
fn crypto_test_aes() {
    let aes_message = "Hello, AES!";
    let key = password_to_key("password123");
    let aes_encrypted = aes_encrypt(&key, aes_message.as_bytes()).unwrap();
    let aes_decrypted = aes_decrypt(&key, &aes_encrypted).unwrap();
    let aes_decrypted_message = std::str::from_utf8(&aes_decrypted).unwrap();
    assert_eq!(aes_decrypted_message, aes_message);
    assert_ne!(aes_encrypted, aes_message.as_bytes());
}

#[test]
fn test_password_to_key() {
    let key1 = password_to_key("password123");
    let key2 = password_to_key("password123");
    let key3 = password_to_key("password124");
    assert_eq!(key1, key2);
    assert_ne!(key1, key3);
}

#[test]
fn crypto_test_password_to_key() {
    let key1 = password_to_key("password123");
    let key2 = password_to_key("password123");
    let key3 = password_to_key("password124");
    assert_eq!(key1, key2);
    assert_ne!(key1, key3);
}

#[test]
fn encrypted_blob_has_nonce_and_tag_overhead() {
    let key = password_to_key("password123");
    let blob = aes_encrypt(&key, b"abc").unwrap();
    assert_eq!(blob.len(), 3 + 12 + 16);
    let empty_blob = aes_encrypt(&key, b"").unwrap();
    assert_eq!(empty_blob.len(), 28);
}

#[test]
fn two_encryptions_of_one_chunk_differ_by_nonce() {
    let key = password_to_key("password123");
    let first = aes_encrypt(&key, b"same chunk").unwrap();
    let second = aes_encrypt(&key, b"same chunk").unwrap();
    assert_ne!(first, second);
    assert_eq!(aes_decrypt(&key, &first).unwrap(), b"same chunk");
    assert_eq!(aes_decrypt(&key, &second).unwrap(), b"same chunk");
}

#[test]
fn short_blob_is_a_crypto_error() {
    let key = password_to_key("password123");
    let r = aes_decrypt(&key, &[0u8; 11]);
    assert!(matches!(r, Err(BackupError::CryptoError)));
}

#[test]
fn tampered_blob_is_a_crypto_error() {
    let key = password_to_key("password123");
    let mut blob = aes_encrypt(&key, b"payload bytes").unwrap();
    let last = blob.len() - 1;
    blob[last] ^= 1;
    let r = aes_decrypt(&key, &blob);
    assert!(matches!(r, Err(BackupError::CryptoError)));
}
