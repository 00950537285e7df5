//! Passphrase-based authenticated encryption of a single file.
//!
//! A passphrase is padded to a 256-bit key, the plaintext is sealed with
//! AES-256-GCM under a fresh 96-bit nonce, and ciphertext and nonce are
//! written as one text artifact: unpadded base64 of the ciphertext, a fixed
//! delimiter, unpadded base64 of the nonce. Decryption reads the artifact
//! back and opens the ciphertext, or says why it cannot.
//!
//! The cipher and the base64 coding are those of the `aes-gcm` and `base64`
//! crates. Everything around them is proved: the key derivation, the
//! artifact's format with reading and writing as inverses of each other, and
//! the order in which an input is refused.

/// The errors of the library.
pub mod error;
/// The key and its derivation from a passphrase.
pub mod key;
/// Unpadded base64 text.
pub mod b64;
/// Sealing and opening with AES-256-GCM.
pub mod codec;
/// The artifact that holds ciphertext and nonce.
pub mod artifact;
/// Encryption and decryption from a passphrase.
pub mod operation;
/// The arguments of the command line.
pub mod invocation;
