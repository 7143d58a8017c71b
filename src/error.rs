//! What can go wrong while a file is encrypted or decrypted.
use vstd::prelude::*;

verus! {

/// Why encryption of a file stopped.
#[derive(Clone, Copy, Debug, PartialEq, Eq, Structural)]
pub enum EncryptError {
    /// The input or the output could not be opened, or the input's length read.
    Open,
    /// Reading the input or writing the container failed, or the input ended
    /// before its recorded length.
    Io,
    /// No key could be derived: the salt could not be drawn, or the password
    /// hasher refused the password.
    KeyDerivation,
    /// The cipher could not be set up (no nonce could be drawn) or refused a block.
    Cipher,
}

/// Why decryption of a container stopped.
#[derive(Clone, Copy, Debug, PartialEq, Eq, Structural)]
pub enum DecryptError {
    /// The container or the output could not be opened, or the container's length read.
    Open,
    /// Reading the container or writing the plaintext failed.
    Io,
    /// The password hasher refused the password.
    KeyDerivation,
    /// The container is too short to hold its header.
    Format,
    /// A sealed block did not authenticate: wrong password, or the container
    /// was altered or cut.
    Authentication,
}

} // verus!
