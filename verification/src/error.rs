//! The ways in which an operation of this library can fail.

use vstd::prelude::*;

verus! {

/// Why an encryption or decryption was refused.
#[derive(Clone, Copy, Debug, PartialEq, Eq, Structural)]
pub enum CryptError {
    /// The passphrase has more than 32 characters.
    PassphraseTooLong,
    /// The artifact is not base64 text, the delimiter, and base64 text of a
    /// 12-byte nonce.
    MalformedArtifact,
    /// The authentication tag does not match key, nonce and ciphertext.
    AuthenticationFailed,
}

/// The view of a result that holds bytes.
pub open spec fn result_view(result: Result<Vec<u8>, CryptError>) -> Result<Seq<u8>, CryptError> {
    match result {
        Ok(bytes) => Ok(bytes@),
        Err(e) => Err(e),
    }
}

} // verus!
