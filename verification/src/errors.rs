//! The closed error taxonomy of the vault.

use vstd::prelude::*;

verus! {

/// Every failure a vault operation can report.
///
/// A wrong password at unlock is an expected outcome and is reported as a
/// value (`Ok(false)`) by the manager; `WrongPassword` appears only as the
/// authentication-failure result of the cipher layer. `VaultCorrupted` means
/// the stored or decrypted bytes do not have the expected structure; it never
/// causes data to be deleted. `CryptoError` marks malformed cipher inputs or
/// an internal cipher failure.
#[derive(Clone, Copy, Debug, PartialEq, Eq, Structural)]
pub enum VaultError {
    WrongPassword,
    VaultLocked,
    CredentialNotFound,
    StorageIo,
    VaultCorrupted,
    CryptoError,
}

} // verus!
