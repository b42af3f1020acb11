//! What can go wrong in the cryptographic layer.

use vstd::prelude::*;

verus! {

/// What can go wrong in the cryptographic layer.
#[derive(Clone, Copy, Debug, PartialEq, Eq, Structural)]
pub enum CryptoError {
    /// A version byte other than the one this library knows.
    UnsupportedVersion,
    /// A key of the wrong kind, for another recipient, or that is no key at all.
    BadKey,
    /// Fewer bytes than the encoded form needs.
    BadLength,
    /// Bytes that do not follow the encoded form.
    BadFormat,
    /// The authentication tag does not match key, nonce, data and ciphertext.
    DecryptFailed,
    /// The cipher refused the message.
    EncryptFailed,
    /// The key is not held by the vault that was asked.
    NotInStorage,
    /// The system's random number source failed.
    RandomFailed,
    /// The object would grow past its maximum size.
    TooLarge,
}

} // verus!
