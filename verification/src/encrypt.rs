//! Key derivation and authenticated encryption.
//!
//! The master key is the SHA-256 digest of the UTF-8 password bytes,
//! never persisted and held only for one operation. The payload is
//! sealed with ChaCha20-Poly1305 under an explicit 96-bit nonce; a
//! failed authentication is the vault's only password check and is
//! reported as its own condition, never conflated with storage trouble.

use crate::errors::VaultError;
use chacha20poly1305::ChaCha20Poly1305;
use chacha20poly1305::Nonce;
use chacha20poly1305::aead::Aead;
use chacha20poly1305::aead::AeadCore;
use chacha20poly1305::aead::KeyInit;
use chacha20poly1305::aead::OsRng;
use vstd::prelude::*;

verus! {

/// The exact nonce width the cipher takes, in bytes; any other length
/// is a programming error, so the contracts demand this one.
pub const NONCE_LEN: usize = 12;

/// The width of the derived key, in bytes.
pub const KEY_LEN: usize = 32;

/// The longest plaintext, in characters, the engine seals. Its UTF-8
/// form stays far below the cipher's own message bound, so sealing an
/// admissible plaintext cannot fail.
pub const MAX_PLAIN_CHARS: usize = 0x4000_0000;

/// The derived key: what `hmac_sha256::Hash::hash` returns for the
/// UTF-8 bytes of the password. A digest has no short statement, so it
/// only carries a name; the one stated fact is its fixed width.
pub uninterp spec fn key_of(password: Seq<char>) -> Seq<u8>;

/// The sealed form: what ChaCha20-Poly1305 returns for this key, nonce
/// and plaintext (UTF-8 encoding of the text included). The result
/// depends on the three arguments alone.
pub uninterp spec fn cipher_of(key: Seq<u8>, nonce: Seq<u8>, plain: Seq<char>) -> Seq<u8>;

/// Relies on `hmac_sha256::Hash::hash`: a pure 32-byte SHA-256 digest
/// of the input bytes, a function of the password alone.
#[verifier::external_body]
fn hash_password(password: &str) -> (r: Vec<u8>)
    ensures
        r@ == key_of(password@),
        r@.len() == KEY_LEN,
{
    hmac_sha256::Hash::hash(password.as_bytes()).to_vec()
}

/// Relies on `ChaCha20Poly1305`: `new_from_slice` accepts exactly a
/// 32-byte key, and `encrypt` is deterministic in key, nonce and
/// message, failing only beyond a message bound far above what
/// `MAX_PLAIN_CHARS` characters can encode to.
#[verifier::external_body]
fn aead_encrypt(key: &Vec<u8>, nonce: &Vec<u8>, plain: &str) -> (r: Vec<u8>)
    requires
        key@.len() == KEY_LEN,
        nonce@.len() == NONCE_LEN,
        plain@.len() <= MAX_PLAIN_CHARS,
    ensures
        r@ == cipher_of(key@, nonce@, plain@),
{
    let cipher = ChaCha20Poly1305::new_from_slice(key).expect("key width");
    cipher.encrypt(Nonce::from_slice(nonce), plain.as_bytes()).expect("message bound")
}

/// Relies on `ChaCha20Poly1305`: decryption first verifies the
/// Poly1305 tag and then inverts the keystream, so it hands back
/// exactly the message that seals to this ciphertext under the same key
/// and nonce, and refuses every other buffer; plaintext that is not
/// UTF-8 is refused as well.
#[verifier::external_body]
fn aead_decrypt(key: &Vec<u8>, nonce: &Vec<u8>, ct: &Vec<u8>) -> (r: Option<String>)
    requires
        key@.len() == KEY_LEN,
        nonce@.len() == NONCE_LEN,
    ensures
        r matches Some(s) ==> ct@ == cipher_of(key@, nonce@, s@),
        r matches Some(s) ==> forall|p: Seq<char>|
            p.len() <= MAX_PLAIN_CHARS && ct@ == cipher_of(key@, nonce@, p) ==> s@ == p,
        r is None ==> forall|p: Seq<char>|
            p.len() <= MAX_PLAIN_CHARS ==> ct@ != cipher_of(key@, nonce@, p),
{
    let cipher = match ChaCha20Poly1305::new_from_slice(key) {
        Ok(c) => c,
        Err(_) => {
            return None;
        },
    };
    match cipher.decrypt(Nonce::from_slice(nonce), ct.as_slice()) {
        Ok(bytes) => match String::from_utf8(bytes) {
            Ok(s) => Some(s),
            Err(_) => None,
        },
        Err(_) => None,
    }
}

/// Relies on the aead crate's `generate_nonce`: it draws exactly one
/// 96-bit nonce from the operating system's randomness. Nothing is
/// assumed of the drawn value; drawing afresh for every rewrite is what
/// keeps a nonce from being reused under one key.
#[verifier::external_body]
pub fn generate_nonce() -> (r: Vec<u8>)
    ensures
        r@.len() == NONCE_LEN,
{
    ChaCha20Poly1305::generate_nonce(&mut OsRng).to_vec()
}

/// Derives the master key from the password and seals `content` under
/// it with the given nonce.
pub fn encrypt(key: &str, content: &str, nonce: &Vec<u8>) -> (r: Result<Vec<u8>, VaultError>)
    requires
        nonce@.len() == NONCE_LEN,
        content@.len() <= MAX_PLAIN_CHARS,
    ensures
        r matches Ok(c) && c@ == cipher_of(key_of(key@), nonce@, content@),
{
    let k = hash_password(key);
    Ok(aead_encrypt(&k, nonce, content))
}

/// Opens a sealed payload with the password-derived key. Whatever the
/// sealing wrote under the same password and nonce comes back exactly;
/// every other buffer, and so every wrong password, is refused as
/// `IncorrectPasswordOrCorruptData`.
pub fn decrypt(key: &str, content: Vec<u8>, nonce: &Vec<u8>) -> (r: Result<String, VaultError>)
    requires
        nonce@.len() == NONCE_LEN,
    ensures
        (match r {
            Ok(s) => content@ == cipher_of(key_of(key@), nonce@, s@),
            Err(e) => e == VaultError::IncorrectPasswordOrCorruptData,
        }),
        forall|p: Seq<char>|
            p.len() <= MAX_PLAIN_CHARS && content@ == cipher_of(key_of(key@), nonce@, p) ==> (r
                matches Ok(s) && s@ == p),
{
    let k = hash_password(key);
    match aead_decrypt(&k, nonce, &content) {
        Some(s) => Ok(s),
        None => Err(VaultError::IncorrectPasswordOrCorruptData),
    }
}

} // verus!
