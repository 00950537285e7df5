//! Authenticated encryption with AES-256-GCM: a 256-bit key, a 96-bit nonce,
//! a 128-bit tag after the ciphertext, no associated data.
//!
//! The cipher is the `aes-gcm` crate's. What it computes is not restated
//! here: the results of sealing and opening have names, and the contracts
//! speak of those.

use vstd::prelude::*;
use vstd::pervasive::unreached;
use aead::{Aead, AeadCore, KeyInit, OsRng};
use aes_gcm::Aes256Gcm;
use crate::error::{result_view, CryptError};
use crate::key::Key;

verus! {

/// Number of bytes in a nonce.
pub const NONCE_LEN: usize = 12;

/// Number of bytes in the authentication tag.
pub const TAG_LEN: usize = 16;

/// The longest plaintext that the cipher seals, in bytes.
pub const MAX_PLAINTEXT_LEN: u64 = 0x10_0000_0000;

/// A 96-bit nonce. It must not be used twice with one key.
#[derive(Clone, Copy, Debug, PartialEq, Eq)]
pub struct Nonce {
    pub bytes: [u8; 12],
}

impl View for Nonce {
    type V = Seq<u8>;

    open spec fn view(&self) -> Seq<u8> {
        self.bytes@
    }
}

impl Nonce {
    /// The nonce that holds `bytes`, where there are 12 of them.
    pub fn from_slice(bytes: &[u8]) -> (result: Option<Nonce>)
        ensures
            bytes@.len() == NONCE_LEN ==> result is Some && result->Some_0@ == bytes@,
            bytes@.len() != NONCE_LEN ==> result is None,
    {
        if bytes.len() != NONCE_LEN {
            return None;
        }
        let mut copy = [0u8; 12];
        let mut k: usize = 0;
        while k < NONCE_LEN
            invariant
                k <= NONCE_LEN,
                bytes@.len() == NONCE_LEN,
                forall|m: int| 0 <= m < k ==> copy@[m] == bytes@[m],
            decreases NONCE_LEN - k,
        {
            copy[k] = bytes[k];
            k += 1;
        }
        Some(Nonce { bytes: copy })
    }
}

/// The error of the `aead` crate. It carries nothing.
#[verifier::external_type_specification]
#[verifier::external_body]
pub struct ExAeadError(aead::Error);

/// What AES-256-GCM makes of `plaintext` under `key` and `nonce`: the
/// ciphertext followed by the tag.
pub uninterp spec fn gcm_sealed(key: Seq<u8>, nonce: Seq<u8>, plaintext: Seq<u8>) -> Seq<u8>;

/// What AES-256-GCM recovers from `ciphertext` under `key` and `nonce`, or
/// `None` where it refuses the ciphertext.
pub uninterp spec fn gcm_opened(key: Seq<u8>, nonce: Seq<u8>, ciphertext: Seq<u8>) -> Option<
    Seq<u8>,
>;

/// Whether a plaintext of `len` bytes can be sealed: the cipher takes it, and
/// the ciphertext fits a buffer.
pub open spec fn sealable(len: nat) -> bool {
    len <= MAX_PLAINTEXT_LEN && len + TAG_LEN <= isize::MAX
}

/// Calls `Aes256Gcm::new` and `Aead::encrypt` of the `aes-gcm` crate.
///
/// Trusted: that the result depends on key, nonce and plaintext alone, that
/// the call fails exactly on a plaintext longer than the cipher's limit, and
/// that the ciphertext is 16 bytes longer than the plaintext. The call
/// panics where that length does not fit a buffer; `requires` leaves that
/// out.
#[verifier::external_body]
pub(crate) fn gcm_encrypt(key: &[u8; 32], nonce: &[u8; 12], plaintext: &[u8]) -> (result: Result<
    Vec<u8>,
    aead::Error,
>)
    requires
        plaintext@.len() + TAG_LEN <= isize::MAX,
    ensures
        result is Ok <==> plaintext@.len() <= MAX_PLAINTEXT_LEN,
        result matches Ok(ciphertext) ==> ciphertext@ == gcm_sealed(key@, nonce@, plaintext@)
            && ciphertext@.len() == plaintext@.len() + TAG_LEN,
{
    let cipher = Aes256Gcm::new(key.into());
    cipher.encrypt(nonce.into(), plaintext)
}

/// Calls `Aes256Gcm::new` and `Aead::decrypt` of the `aes-gcm` crate.
///
/// Trusted: that the result depends on key, nonce and ciphertext alone, that
/// a ciphertext shorter than the tag is refused, and that what was sealed
/// under a key and a nonce opens under them to the plaintext it was made
/// from.
#[verifier::external_body]
pub(crate) fn gcm_decrypt(key: &[u8; 32], nonce: &[u8; 12], ciphertext: &[u8]) -> (result: Result<
    Vec<u8>,
    aead::Error,
>)
    ensures
        result matches Ok(plaintext) ==> gcm_opened(key@, nonce@, ciphertext@) == Some(plaintext@),
        result is Err ==> gcm_opened(key@, nonce@, ciphertext@) is None,
        ciphertext@.len() < TAG_LEN ==> result is Err,
        forall|plaintext: Seq<u8>|
            plaintext.len() <= MAX_PLAINTEXT_LEN && #[trigger] gcm_sealed(key@, nonce@, plaintext)
                == ciphertext@ ==> result is Ok && result->Ok_0@ == plaintext,
{
    let cipher = Aes256Gcm::new(key.into());
    cipher.decrypt(nonce.into(), ciphertext)
}

/// Calls `AeadCore::generate_nonce` of the `aes-gcm` crate with the
/// operating system's random source, `OsRng`.
///
/// Nothing is promised of the bytes: two calls may give any two nonces. The
/// call panics where the operating system has no random bytes to give, which
/// no argument decides.
#[verifier::external_body]
pub(crate) fn random_nonce_bytes() -> (bytes: [u8; 12]) {
    Aes256Gcm::generate_nonce(&mut OsRng).into()
}

/// What opening gives: the plaintext, or `AuthenticationFailed`.
pub open spec fn opened(key: Seq<u8>, nonce: Seq<u8>, ciphertext: Seq<u8>) -> Result<
    Seq<u8>,
    CryptError,
> {
    match gcm_opened(key, nonce, ciphertext) {
        Some(plaintext) => Ok(plaintext),
        None => Err(CryptError::AuthenticationFailed),
    }
}

/// Seals `plaintext` under `key` and `nonce`: the ciphertext, 16 bytes
/// longer than the plaintext. The plaintext must be one that the cipher
/// takes.
pub fn seal(key: &Key, nonce: &Nonce, plaintext: &[u8]) -> (ciphertext: Vec<u8>)
    requires
        sealable(plaintext@.len()),
    ensures
        ciphertext@ == gcm_sealed(key@, nonce@, plaintext@),
        ciphertext@.len() == plaintext@.len() + TAG_LEN,
{
    match gcm_encrypt(&key.bytes, &nonce.bytes, plaintext) {
        Ok(ciphertext) => ciphertext,
        Err(_) => unreached(),
    }
}

/// Opens `ciphertext` under `key` and `nonce`.
///
/// Either the whole plaintext is returned or `AuthenticationFailed`: a
/// ciphertext shorter than the tag always fails, and what `seal` made under
/// this key and nonce always opens to the plaintext it was made from.
pub fn open(key: &Key, nonce: &Nonce, ciphertext: &[u8]) -> (result: Result<Vec<u8>, CryptError>)
    ensures
        result_view(result) == opened(key@, nonce@, ciphertext@),
        ciphertext@.len() < TAG_LEN ==> result == Err::<Vec<u8>, CryptError>(
            CryptError::AuthenticationFailed,
        ),
        forall|plaintext: Seq<u8>|
            plaintext.len() <= MAX_PLAINTEXT_LEN && #[trigger] gcm_sealed(key@, nonce@, plaintext)
                == ciphertext@ ==> result_view(result) == Ok::<Seq<u8>, CryptError>(plaintext),
{
    match gcm_decrypt(&key.bytes, &nonce.bytes, ciphertext) {
        Ok(plaintext) => Ok(plaintext),
        Err(_) => Err(CryptError::AuthenticationFailed),
    }
}

} // verus!
