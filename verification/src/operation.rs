//! Encryption of a plaintext to an artifact and decryption of an artifact,
//! from a passphrase.

use vstd::prelude::*;
use vstd::string::*;
use crate::artifact::{
    artifact_bytes, artifact_len, delimiter_at, lemma_parse_inverts_serialize, parse, parsed,
    serialize, DELIMITER_LEN, NONCE_TEXT_LEN,
};
use crate::codec::{
    gcm_sealed, open, opened, random_nonce_bytes, seal, Nonce, MAX_PLAINTEXT_LEN, NONCE_LEN,
    TAG_LEN,
};
use crate::error::{result_view, CryptError};
use crate::key::{derive_key, padded_key, Key, KEY_LEN};

verus! {

/// Which way a file is taken.
#[derive(Clone, Copy, Debug, PartialEq, Eq, Structural)]
pub enum Mode {
    /// From a plaintext to its artifact.
    Encrypt,
    /// From an artifact to its plaintext.
    Decrypt,
}

/// The mode that a word names: `encrypt`, `decrypt`, and nothing else.
pub open spec fn mode_of(word: Seq<char>) -> Option<Mode> {
    if word == "encrypt"@ {
        Some(Mode::Encrypt)
    } else if word == "decrypt"@ {
        Some(Mode::Decrypt)
    } else {
        None
    }
}

/// Whether a plaintext of `len` bytes can be encrypted: the cipher takes it,
/// and its artifact fits a buffer.
pub open spec fn encryptable(len: nat) -> bool {
    len <= MAX_PLAINTEXT_LEN && artifact_len(len + TAG_LEN as nat) <= isize::MAX
}

/// The artifact of `plaintext` under a key and a nonce.
pub open spec fn sealed_artifact(key: Seq<u8>, nonce: Seq<u8>, plaintext: Seq<u8>) -> Seq<u8> {
    artifact_bytes(gcm_sealed(key, nonce, plaintext), nonce)
}

/// What opening an artifact under a key gives.
pub open spec fn opened_artifact(key: Seq<u8>, artifact: Seq<u8>) -> Result<Seq<u8>, CryptError> {
    match parsed(artifact) {
        None => Err(CryptError::MalformedArtifact),
        Some((ciphertext, nonce)) => opened(key, nonce, ciphertext),
    }
}

/// What encrypting under a passphrase and a nonce gives.
pub open spec fn encrypted(passphrase: Seq<char>, nonce: Seq<u8>, plaintext: Seq<u8>) -> Result<
    Seq<u8>,
    CryptError,
> {
    if passphrase.len() > KEY_LEN {
        Err(CryptError::PassphraseTooLong)
    } else {
        Ok(sealed_artifact(padded_key(passphrase), nonce, plaintext))
    }
}

/// What decrypting under a passphrase gives.
pub open spec fn decrypted(passphrase: Seq<char>, artifact: Seq<u8>) -> Result<
    Seq<u8>,
    CryptError,
> {
    if passphrase.len() > KEY_LEN {
        Err(CryptError::PassphraseTooLong)
    } else {
        opened_artifact(padded_key(passphrase), artifact)
    }
}

/// Whether `artifact` is an encryption of `plaintext` under `passphrase`:
/// what encrypting gives with some nonce.
pub open spec fn is_encryption(
    artifact: Seq<u8>,
    passphrase: Seq<char>,
    plaintext: Seq<u8>,
) -> bool {
    exists|nonce: Seq<u8>|
        nonce.len() == NONCE_LEN && #[trigger] encrypted(passphrase, nonce, plaintext) == Ok::<
            Seq<u8>,
            CryptError,
        >(artifact)
}

/// Decrypting an encryption asks the cipher to open, under the same key and
/// nonce, the very ciphertext that it sealed: key derivation and the
/// artifact lose nothing on the way.
pub proof fn lemma_decrypt_opens_what_was_sealed(
    passphrase: Seq<char>,
    nonce: Seq<u8>,
    plaintext: Seq<u8>,
)
    requires
        passphrase.len() <= KEY_LEN,
        nonce.len() == NONCE_LEN,
    ensures
        encrypted(passphrase, nonce, plaintext) is Ok,
        decrypted(passphrase, encrypted(passphrase, nonce, plaintext)->Ok_0) == opened(
            padded_key(passphrase),
            nonce,
            gcm_sealed(padded_key(passphrase), nonce, plaintext),
        ),
{
    lemma_parse_inverts_serialize(gcm_sealed(padded_key(passphrase), nonce, plaintext), nonce);
}

/// A file that holds no delimiter is malformed, whatever the passphrase of
/// at most 32 characters.
pub proof fn lemma_missing_delimiter_is_malformed(passphrase: Seq<char>, artifact: Seq<u8>)
    requires
        passphrase.len() <= KEY_LEN,
        forall|i: int| !delimiter_at(artifact, i),
    ensures
        decrypted(passphrase, artifact) == Err::<Seq<u8>, CryptError>(
            CryptError::MalformedArtifact,
        ),
{
}

/// Whether two strings hold the same characters.
fn same_text(a: &str, b: &str) -> (result: bool)
    ensures
        result == (a@ == b@),
{
    let n = a.unicode_len();
    if n != b.unicode_len() {
        return false;
    }
    let mut i: usize = 0;
    while i < n
        invariant
            n == a@.len(),
            n == b@.len(),
            i <= n,
            forall|j: int| 0 <= j < i ==> a@[j] == b@[j],
        decreases n - i,
    {
        if a.get_char(i) != b.get_char(i) {
            return false;
        }
        i += 1;
    }
    assert(a@ =~= b@);
    true
}

/// Reads a mode from the word that names it.
pub fn parse_mode(word: &str) -> (mode: Option<Mode>)
    ensures
        mode == mode_of(word@),
{
    if same_text(word, "encrypt") {
        Some(Mode::Encrypt)
    } else if same_text(word, "decrypt") {
        Some(Mode::Decrypt)
    } else {
        None
    }
}

/// Whether a plaintext of `len` bytes can be encrypted.
pub fn can_encrypt(len: usize) -> (result: bool)
    ensures
        result == encryptable(len as nat),
{
    let n = len as u128;
    let text = (4 * (n + TAG_LEN as u128) + 2) / 3;
    n <= MAX_PLAINTEXT_LEN as u128 && text + DELIMITER_LEN as u128 + NONCE_TEXT_LEN as u128
        <= isize::MAX as u128
}

/// Seals `plaintext` under `key` and `nonce` and writes the artifact.
pub fn seal_artifact(key: &Key, nonce: &Nonce, plaintext: &[u8]) -> (artifact: Vec<u8>)
    requires
        encryptable(plaintext@.len()),
    ensures
        artifact@ == sealed_artifact(key@, nonce@, plaintext@),
{
    let ciphertext = seal(key, nonce, plaintext);
    serialize(ciphertext.as_slice(), nonce)
}

/// Reads `artifact` and opens its ciphertext under `key`.
///
/// A malformed artifact is reported before the cipher is asked. What
/// `seal_artifact` made under this key opens to the plaintext it was made
/// from, whatever the nonce.
pub fn open_artifact(key: &Key, artifact: &[u8]) -> (result: Result<Vec<u8>, CryptError>)
    ensures
        result_view(result) == opened_artifact(key@, artifact@),
        forall|nonce: Seq<u8>, plaintext: Seq<u8>|
            nonce.len() == NONCE_LEN && plaintext.len() <= MAX_PLAINTEXT_LEN
                && #[trigger] sealed_artifact(key@, nonce, plaintext) == artifact@ ==> result_view(
                result,
            ) == Ok::<Seq<u8>, CryptError>(plaintext),
{
    proof {
        assert forall|n: Seq<u8>, p: Seq<u8>|
            n.len() == NONCE_LEN && #[trigger] sealed_artifact(key@, n, p) == artifact@ implies parsed(
            artifact@,
        ) == Some((gcm_sealed(key@, n, p), n)) by {
            lemma_parse_inverts_serialize(gcm_sealed(key@, n, p), n);
        }
    }
    match parse(artifact) {
        Err(e) => Err(e),
        Ok((ciphertext, nonce)) => open(key, &nonce, ciphertext.as_slice()),
    }
}

/// Encrypts `plaintext` under `passphrase` with the nonce given.
///
/// A passphrase of more than 32 characters is refused.
pub fn encrypt_with_nonce(passphrase: &str, nonce: &Nonce, plaintext: &[u8]) -> (result: Result<
    Vec<u8>,
    CryptError,
>)
    requires
        encryptable(plaintext@.len()),
    ensures
        result_view(result) == encrypted(passphrase@, nonce@, plaintext@),
{
    match derive_key(passphrase) {
        Err(e) => Err(e),
        Ok(key) => Ok(seal_artifact(&key, nonce, plaintext)),
    }
}

/// Encrypts `plaintext` under `passphrase` with a fresh random nonce.
///
/// A passphrase of more than 32 characters is refused, before a nonce is
/// drawn. Otherwise the artifact is what `encrypt_with_nonce` gives with
/// some nonce; which one, nothing says.
pub fn encrypt(passphrase: &str, plaintext: &[u8]) -> (result: Result<Vec<u8>, CryptError>)
    requires
        encryptable(plaintext@.len()),
    ensures
        passphrase@.len() > KEY_LEN ==> result == Err::<Vec<u8>, CryptError>(
            CryptError::PassphraseTooLong,
        ),
        passphrase@.len() <= KEY_LEN ==> result is Ok && is_encryption(
            result->Ok_0@,
            passphrase@,
            plaintext@,
        ),
{
    match derive_key(passphrase) {
        Err(e) => Err(e),
        Ok(key) => {
            let nonce = Nonce { bytes: random_nonce_bytes() };
            let artifact = seal_artifact(&key, &nonce, plaintext);
            assert(encrypted(passphrase@, nonce@, plaintext@) == Ok::<Seq<u8>, CryptError>(
                artifact@,
            ));
            Ok(artifact)
        },
    }
}

/// Decrypts `artifact` under `passphrase`.
///
/// A passphrase of more than 32 characters is refused first, then a
/// malformed artifact, then a ciphertext that does not authenticate. An
/// encryption of a plaintext under this passphrase decrypts to that
/// plaintext.
pub fn decrypt(passphrase: &str, artifact: &[u8]) -> (result: Result<Vec<u8>, CryptError>)
    ensures
        result_view(result) == decrypted(passphrase@, artifact@),
        forall|plaintext: Seq<u8>|
            plaintext.len() <= MAX_PLAINTEXT_LEN && #[trigger] is_encryption(
                artifact@,
                passphrase@,
                plaintext,
            ) ==> result_view(result) == Ok::<Seq<u8>, CryptError>(plaintext),
{
    match derive_key(passphrase) {
        Err(e) => Err(e),
        Ok(key) => open_artifact(&key, artifact),
    }
}

/// Takes `input` the way `mode` says: a plaintext to an artifact as
/// `encrypt` does, or an artifact to its plaintext as `decrypt` does.
pub fn run(mode: Mode, passphrase: &str, input: &[u8]) -> (result: Result<Vec<u8>, CryptError>)
    requires
        mode == Mode::Encrypt ==> encryptable(input@.len()),
    ensures
        passphrase@.len() > KEY_LEN ==> result == Err::<Vec<u8>, CryptError>(
            CryptError::PassphraseTooLong,
        ),
        mode == Mode::Encrypt && passphrase@.len() <= KEY_LEN ==> result is Ok && is_encryption(
            result->Ok_0@,
            passphrase@,
            input@,
        ),
        mode == Mode::Decrypt ==> result_view(result) == decrypted(passphrase@, input@),
        mode == Mode::Decrypt ==> forall|plaintext: Seq<u8>|
            plaintext.len() <= MAX_PLAINTEXT_LEN && #[trigger] is_encryption(
                input@,
                passphrase@,
                plaintext,
            ) ==> result_view(result) == Ok::<Seq<u8>, CryptError>(plaintext),
{
    match mode {
        Mode::Encrypt => encrypt(passphrase, input),
        Mode::Decrypt => decrypt(passphrase, input),
    }
}

} // verus!
