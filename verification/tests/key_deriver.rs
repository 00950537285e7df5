use filecrypt::error::CryptError;
use filecrypt::key::{derive_key, KEY_LEN};

fn padded(prefix: &[u8]) -> [u8; 32] {
    let mut bytes = [0u8; 32];
    bytes[..prefix.len()].copy_from_slice(prefix);
    bytes
}

#[test]
fn key_has_thirty_two_bytes() {
    assert_eq!(KEY_LEN, 32);
    assert_eq!(derive_key("secret").unwrap().bytes.len(), 32);
}

#[test]
fn passphrase_is_padded_with_zeros() {
    let key = derive_key("secret").unwrap();
    assert_eq!(key.bytes, padded(b"secret"));
    assert_eq!(key.bytes[5], b't');
    assert_eq!(key.bytes[6], 0);
    assert_eq!(key.bytes[31], 0);
}

#[test]
fn empty_passphrase_gives_the_zero_key() {
    assert_eq!(derive_key("").unwrap().bytes, [0u8; 32]);
}

#[test]
fn thirty_two_characters_are_accepted() {
    let passphrase = "0123456789abcdef0123456789abcdef";
    assert_eq!(passphrase.chars().count(), 32);
    let key = derive_key(passphrase).unwrap();
    assert_eq!(&key.bytes[..], passphrase.as_bytes());
}

#[test]
fn thirty_three_characters_are_refused() {
    let passphrase = "0123456789abcdef0123456789abcdefX";
    assert_eq!(passphrase.chars().count(), 33);
    assert_eq!(derive_key(passphrase).err(), Some(CryptError::PassphraseTooLong));
}

#[test]
fn a_long_passphrase_is_refused() {
    let passphrase = "x".repeat(1000);
    assert_eq!(derive_key(&passphrase).err(), Some(CryptError::PassphraseTooLong));
}

#[test]
fn equal_passphrases_give_equal_keys() {
    let first = derive_key("correct horse").unwrap();
    let second = derive_key("correct horse").unwrap();
    assert_eq!(first.bytes, second.bytes);
    let shorter = derive_key("correct hors").unwrap();
    assert_ne!(first.bytes, shorter.bytes);
}

#[test]
fn a_character_counts_as_its_low_byte() {
    // U+00E9, U+20AC, U+1F600, U+0100
    let key = derive_key("\u{e9}\u{20ac}\u{1f600}\u{100}a").unwrap();
    assert_eq!(key.bytes, padded(&[0xe9, 0xac, 0x00, 0x00, b'a']));
}

#[test]
fn length_is_counted_in_characters() {
    let thirty_two = "\u{20ac}".repeat(32);
    assert_eq!(thirty_two.len(), 96);
    assert_eq!(derive_key(&thirty_two).unwrap().bytes, [0xacu8; 32]);
    let thirty_three = "\u{20ac}".repeat(33);
    assert_eq!(derive_key(&thirty_three).err(), Some(CryptError::PassphraseTooLong));
}
