//! The error taxonomy of the vault engine.
//!
//! Every component surfaces errors to its caller immediately; there is no
//! retry anywhere in the engine. An authentication failure of the cipher is
//! kept distinct from storage problems, because it is the vault's only
//! password-verification mechanism.

use vstd::prelude::*;

verus! {

#[derive(Clone, Copy, Debug, PartialEq, Eq, Structural)]
pub enum VaultError {
    /// The vault file does not exist yet.
    NotInitialized,
    /// The vault file could not be read or written.
    StorageError,
    /// The authenticated cipher rejected the ciphertext: either the master
    /// password is wrong or the stored bytes were tampered with.
    IncorrectPasswordOrCorruptData,
    /// The decrypted record stream is not a sequence of complete
    /// four-line record blocks.
    MalformedRecord,
    /// No record carries the requested name.
    NotFound,
    /// A record with the same (trimmed) name is already stored.
    AlreadyExists,
    /// A caller-supplied field is rejected up front: a reserved token,
    /// an embedded newline, or an unusable master password.
    InvalidInput,
}

/// The text shown for each error condition.
pub open spec fn message_of(e: VaultError) -> Seq<char> {
    match e {
        VaultError::NotInitialized => "No resources saved - create one with `onepass new`"@,
        VaultError::StorageError => "Storage error"@,
        VaultError::IncorrectPasswordOrCorruptData => "Incorrect password - aborting."@,
        VaultError::MalformedRecord => "Malformed record"@,
        VaultError::NotFound => "Resource not found"@,
        VaultError::AlreadyExists => "Resource already exists"@,
        VaultError::InvalidInput => "invalid input"@,
    }
}

impl VaultError {
    /// The human-readable text of this error.
    pub fn message(&self) -> (r: String)
        ensures
            r@ == message_of(*self),
    {
        match self {
            VaultError::NotInitialized => String::from_str(
                "No resources saved - create one with `onepass new`",
            ),
            VaultError::StorageError => String::from_str("Storage error"),
            VaultError::IncorrectPasswordOrCorruptData => String::from_str(
                "Incorrect password - aborting.",
            ),
            VaultError::MalformedRecord => String::from_str("Malformed record"),
            VaultError::NotFound => String::from_str("Resource not found"),
            VaultError::AlreadyExists => String::from_str("Resource already exists"),
            VaultError::InvalidInput => String::from_str("invalid input"),
        }
    }
}

} // verus!
