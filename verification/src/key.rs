//! Derivation of the 256-bit key from a passphrase.
//!
//! The derivation is a fixed-width padding, not a key derivation function:
//! equal passphrases give equal keys, and nothing is salted or stretched.

use vstd::prelude::*;
use vstd::string::*;
use crate::error::CryptError;

verus! {

/// Number of bytes in a key.
pub const KEY_LEN: usize = 32;

/// A 256-bit symmetric key. It is made from a passphrase for one
/// encryption or decryption and is not meant to be kept.
pub struct Key {
    pub bytes: [u8; 32],
}

impl View for Key {
    type V = Seq<u8>;

    open spec fn view(&self) -> Seq<u8> {
        self.bytes@
    }
}

/// The byte that stands for a character in a key: its code point modulo 256.
pub open spec fn low_byte(c: char) -> u8 {
    ((c as u32) % 256) as u8
}

proof fn lemma_truncated_char(c: char)
    ensures
        c as u8 == low_byte(c),
{
    let n = c as u32;
    assert(n as u8 == (n % 256) as u8) by (bit_vector);
}

/// The key that a passphrase of at most 32 characters gives: one byte per
/// character, then zeros up to 32 bytes.
pub open spec fn padded_key(passphrase: Seq<char>) -> Seq<u8> {
    Seq::new(
        KEY_LEN as nat,
        |i: int| if i < passphrase.len() { low_byte(passphrase[i]) } else { 0u8 },
    )
}

/// Derives the key for `passphrase`.
///
/// A passphrase of more than 32 characters is refused. Otherwise the key is
/// `padded_key` of the passphrase.
pub fn derive_key(passphrase: &str) -> (result: Result<Key, CryptError>)
    ensures
        passphrase@.len() > KEY_LEN ==> result == Err::<Key, CryptError>(
            CryptError::PassphraseTooLong,
        ),
        passphrase@.len() <= KEY_LEN ==> result is Ok && result->Ok_0@ == padded_key(passphrase@),
{
    let count = passphrase.unicode_len();
    if count > KEY_LEN {
        return Err(CryptError::PassphraseTooLong);
    }
    let mut bytes = [0u8; 32];
    let mut i: usize = 0;
    while i < count
        invariant
            count == passphrase@.len(),
            count <= KEY_LEN,
            i <= count,
            forall|j: int| 0 <= j < i ==> bytes@[j] == low_byte(passphrase@[j]),
            forall|j: int| i <= j < KEY_LEN ==> bytes@[j] == 0u8,
        decreases count - i,
    {
        let c = passphrase.get_char(i);
        proof {
            lemma_truncated_char(c);
        }
        bytes[i] = c as u8;
        i += 1;
    }
    Ok(Key { bytes })
}

} // verus!
