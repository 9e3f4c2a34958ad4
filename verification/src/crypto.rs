//! Cryptographic utilities: password-based key derivation and the
//! authenticated chunk transform.
//!
//! A sealed chunk is a freshly sampled 12-byte nonce followed by the
//! AES-256-GCM ciphertext of the chunk, which carries a 16-byte tag.

use aes_gcm::aead::Aead;
use aes_gcm::aead::KeyInit;
use aes_gcm::aead::OsRng;
use aes_gcm::AeadCore;
use aes_gcm::Aes256Gcm;
use aes_gcm::Nonce;
use sha2::Digest;
use sha2::Sha256;
use vstd::prelude::*;

use crate::types::BackupError;
use crate::types::BackupResult;

verus! {

/// The number of bytes of an AES-256 key.
pub const AES_KEY_SIZE: usize = 32;

/// The number of bytes of an AES-GCM nonce.
pub const AES_NONCE_SIZE: usize = 12;

/// The number of bytes of an AES-GCM authentication tag.
pub const AES_TAG_SIZE: usize = 16;

/// The largest plaintext that AES-GCM accepts, 2^36 bytes.
pub const GCM_MAX_PLAINTEXT_LEN: u64 = 0x10_0000_0000;

/// The SHA-256 digest of a password: the 32-byte key it derives.
pub uninterp spec fn key_of(password: Seq<char>) -> Seq<u8>;

/// What AES-256-GCM decryption of a ciphertext-with-tag yields under a given
/// key and nonce: the plaintext, or `None` when the tag does not verify.
pub uninterp spec fn gcm_open_of(key: Seq<u8>, nonce: Seq<u8>, ciphertext: Seq<u8>) -> Option<
    Seq<u8>,
>;

/// Converts a password of arbitrary length to an AES key by performing a
/// SHA-256 hash.
///
/// Relies on sha2's `Sha256`: the digest is 32 bytes and depends on the
/// hashed bytes alone.
#[verifier::external_body]
pub fn password_to_key(password: &str) -> (r: [u8; 32])
    ensures
        r@ == key_of(password@),
{
    let mut hasher = Sha256::new();
    hasher.update(password);
    let result = hasher.finalize();
    result.into()
}

/// Samples a fresh 12-byte nonce.
///
/// Relies on aes-gcm's `AeadCore::generate_nonce` over `OsRng`: the result is
/// random, so nothing is promised of its value.
#[verifier::external_body]
fn generate_nonce() -> (r: [u8; 12]) {
    Aes256Gcm::generate_nonce(&mut OsRng).into()
}

/// Seals one chunk: AES-256-GCM encryption with an empty AAD.
///
/// Relies on aes-gcm's `Aes256Gcm::new_from_slice` and `Aead::encrypt`:
/// encryption of a plaintext of at most 2^36 bytes succeeds, appends a
/// 16-byte tag, and decrypting the result under the same key and nonce gives
/// the plaintext back.
#[verifier::external_body]
fn gcm_seal(key: &[u8; 32], nonce: &[u8; 12], plaintext: &[u8]) -> (r: Vec<u8>)
    requires
        plaintext@.len() <= GCM_MAX_PLAINTEXT_LEN,
    ensures
        r@.len() == plaintext@.len() + AES_TAG_SIZE,
        gcm_open_of(key@, nonce@, r@) == Some(plaintext@),
{
    let cipher = Aes256Gcm::new_from_slice(key.as_slice()).unwrap();
    cipher.encrypt(Nonce::from_slice(nonce.as_slice()), plaintext).unwrap()
}

/// Opens one sealed chunk: AES-256-GCM decryption with an empty AAD.
///
/// Relies on aes-gcm's `Aes256Gcm::new_from_slice` and `Aead::decrypt`:
/// decryption is a function of the key, the nonce and the ciphertext alone,
/// and fails exactly when the tag does not verify.
#[verifier::external_body]
fn gcm_open(key: &[u8; 32], nonce: &[u8], ciphertext: &[u8]) -> (r: Option<Vec<u8>>)
    requires
        nonce@.len() == AES_NONCE_SIZE,
    ensures
        match r {
            Some(p) => gcm_open_of(key@, nonce@, ciphertext@) == Some(p@),
            None => gcm_open_of(key@, nonce@, ciphertext@) is None,
        },
{
    let cipher = Aes256Gcm::new_from_slice(key.as_slice()).unwrap();
    cipher.decrypt(Nonce::from_slice(nonce), ciphertext).ok()
}

/// What decrypting a nonce-prefixed blob yields under a given key: the
/// plaintext, or `None` for a malformed blob or a tag that does not verify.
pub open spec fn aes_blob_opens_to(key: Seq<u8>, blob: Seq<u8>) -> Option<Seq<u8>> {
    if blob.len() < AES_NONCE_SIZE {
        None
    } else {
        gcm_open_of(key, blob.take(AES_NONCE_SIZE as int), blob.skip(AES_NONCE_SIZE as int))
    }
}

/// Encrypts data with AES: samples a fresh nonce, seals the plaintext under
/// it, and prepends the nonce to the sealed bytes.
pub fn aes_encrypt(key: &[u8; 32], plaintext: &[u8]) -> (r: BackupResult<Vec<u8>>)
    requires
        plaintext@.len() <= GCM_MAX_PLAINTEXT_LEN,
    ensures
        r is Ok,
        r matches Ok(blob) ==> {
            &&& blob@.len() == plaintext@.len() + AES_NONCE_SIZE + AES_TAG_SIZE
            &&& aes_blob_opens_to(key@, blob@) == Some(plaintext@)
        },
{
    let nonce = generate_nonce();
    let sealed = gcm_seal(key, &nonce, plaintext);
    let mut blob: Vec<u8> = Vec::new();
    blob.extend_from_slice(nonce.as_slice());
    blob.extend_from_slice(sealed.as_slice());
    proof {
        assert(blob@.take(AES_NONCE_SIZE as int) =~= nonce@);
        assert(blob@.skip(AES_NONCE_SIZE as int) =~= sealed@);
    }
    Ok(blob)
}

/// Decrypts data with AES: splits the 12-byte nonce off the front of the
/// blob and opens the remainder under it.
pub fn aes_decrypt(key: &[u8; 32], ciphertext_with_nonce: &[u8]) -> (r: BackupResult<Vec<u8>>)
    ensures
        match r {
            Ok(p) => aes_blob_opens_to(key@, ciphertext_with_nonce@) == Some(p@),
            Err(e) => {
                &&& e is CryptoError
                &&& aes_blob_opens_to(key@, ciphertext_with_nonce@) is None
            },
        },
{
    if ciphertext_with_nonce.len() < AES_NONCE_SIZE {
        return Err(BackupError::CryptoError);
    }
    let (nonce_slice, ciphertext) = ciphertext_with_nonce.split_at(AES_NONCE_SIZE);
    proof {
        assert(nonce_slice@ =~= ciphertext_with_nonce@.take(AES_NONCE_SIZE as int));
        assert(ciphertext@ =~= ciphertext_with_nonce@.skip(AES_NONCE_SIZE as int));
    }
    match gcm_open(key, nonce_slice, ciphertext) {
        Some(p) => Ok(p),
        None => Err(BackupError::CryptoError),
    }
}

/// Key derivation is deterministic: equal passwords derive equal keys.
pub proof fn lemma_key_derivation_deterministic(pw1: Seq<char>, pw2: Seq<char>)
    requires
        pw1 == pw2,
    ensures
        key_of(pw1) == key_of(pw2),
{
}

} // verus!
