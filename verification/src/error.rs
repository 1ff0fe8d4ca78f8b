//! The failures that vault operations report.

use vstd::prelude::*;

verus! {

/// Why a vault operation did not succeed.
#[derive(Clone, Copy, Debug, PartialEq, Eq, Structural)]
pub enum VaultError {
    /// No user is registered under the given account name or id.
    AccountNotFound,
    /// An account of that name is already registered.
    AccountExists,
    /// The passphrase does not match the stored verification hash.
    IncorrectPassphrase,
    /// The input is longer than the hash function can take.
    InputTooLarge,
    /// The key is wrong or the ciphertext is damaged.
    DecryptionError,
    /// No credential matches the requested triplet.
    EntryNotFound,
    /// The record store could not carry the operation out.
    StoreUnavailable,
}

/// What the user is told of `error`. An unknown account and a wrong
/// passphrase read the same, so that the answer does not give away which
/// accounts exist; a failed decryption is reported as a wrong key.
pub open spec fn message_of(error: VaultError) -> Seq<char> {
    match error {
        VaultError::AccountNotFound => "The account name or the passphrase is wrong"@,
        VaultError::IncorrectPassphrase => "The account name or the passphrase is wrong"@,
        VaultError::AccountExists => "An account of this name exists already"@,
        VaultError::InputTooLarge => "The input is too large"@,
        VaultError::DecryptionError => "The key is wrong"@,
        VaultError::EntryNotFound => "The entry was not found"@,
        VaultError::StoreUnavailable => "The record store is unavailable"@,
    }
}

impl VaultError {
    /// What the user is told of the error.
    pub fn message(&self) -> (text: String)
        ensures
            text@ == message_of(*self),
    {
        match self {
            VaultError::AccountNotFound => "The account name or the passphrase is wrong".to_owned(),
            VaultError::IncorrectPassphrase => "The account name or the passphrase is wrong".to_owned(),
            VaultError::AccountExists => "An account of this name exists already".to_owned(),
            VaultError::InputTooLarge => "The input is too large".to_owned(),
            VaultError::DecryptionError => "The key is wrong".to_owned(),
            VaultError::EntryNotFound => "The entry was not found".to_owned(),
            VaultError::StoreUnavailable => "The record store is unavailable".to_owned(),
        }
    }
}

/// A failed login reads the same whether the account is unknown or the
/// passphrase is wrong.
pub proof fn lemma_login_failures_read_alike()
    ensures
        message_of(VaultError::AccountNotFound) == message_of(VaultError::IncorrectPassphrase),
{
}

} // verus!
