//! A single-user local secrets vault engine.
//!
//! The vault stores named credential records (resource name, user name,
//! password) as an encrypted byte file: a 12-byte nonce followed by the
//! AEAD ciphertext of a plaintext record stream. This crate holds the
//! engine itself: key derivation and authenticated encryption, the on-disk
//! layout, the line-oriented record encoding, the CRUD operations over the
//! decrypted record stream, and the decision logic of the interrupt guard.
//! Prompting, file access, the clipboard and the signal handler live with
//! the callers; they hand the engine plain values and take plain values
//! back.

pub mod encrypt;
pub mod errors;
pub mod guard;
pub mod input;
pub mod lines;
pub mod resource;
pub mod vault;
