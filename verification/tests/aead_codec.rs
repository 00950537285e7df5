use filecrypt::codec::{open, seal, Nonce, MAX_PLAINTEXT_LEN, NONCE_LEN, TAG_LEN};
use filecrypt::error::CryptError;
use filecrypt::key::{derive_key, Key};

const ZERO_KEY: Key = Key { bytes: [0u8; 32] };
const ZERO_NONCE: Nonce = Nonce { bytes: [0u8; 12] };

// AES-256-GCM with an all-zero key and nonce: the tag of the empty message,
// and ciphertext and tag of one block of zeros.
const EMPTY_TAG: [u8; 16] = [
    0x53, 0x0f, 0x8a, 0xfb, 0xc7, 0x45, 0x36, 0xb9, 0xa9, 0x63, 0xb4, 0xf1, 0xc4, 0xcb, 0x73, 0x8b,
];
const ZERO_BLOCK_SEALED: [u8; 32] = [
    0xce, 0xa7, 0x40, 0x3d, 0x4d, 0x60, 0x6b, 0x6e, 0x07, 0x4e, 0xc5, 0xd3, 0xba, 0xf3, 0x9d, 0x18,
    0xd0, 0xd1, 0xc8, 0xa7, 0x99, 0x99, 0x6b, 0xf0, 0x26, 0x5b, 0x98, 0xb5, 0xd4, 0x8a, 0xb9, 0x19,
];

#[test]
fn sizes_are_those_of_the_cipher() {
    assert_eq!(NONCE_LEN, 12);
    assert_eq!(TAG_LEN, 16);
    assert_eq!(MAX_PLAINTEXT_LEN, 1u64 << 36);
}

#[test]
fn seal_of_the_empty_message_is_its_tag() {
    assert_eq!(seal(&ZERO_KEY, &ZERO_NONCE, &[]), EMPTY_TAG.to_vec());
}

#[test]
fn seal_of_a_zero_block_is_known() {
    assert_eq!(seal(&ZERO_KEY, &ZERO_NONCE, &[0u8; 16]), ZERO_BLOCK_SEALED.to_vec());
}

#[test]
fn open_of_a_known_ciphertext() {
    assert_eq!(open(&ZERO_KEY, &ZERO_NONCE, &ZERO_BLOCK_SEALED), Ok(vec![0u8; 16]));
    assert_eq!(open(&ZERO_KEY, &ZERO_NONCE, &EMPTY_TAG), Ok(vec![]));
}

#[test]
fn ciphertext_is_sixteen_bytes_longer() {
    let key = derive_key("secret").unwrap();
    let nonce = Nonce { bytes: [7u8; 12] };
    for len in [0usize, 1, 15, 16, 17, 31, 32, 33, 100, 1000, 4097] {
        let plaintext = vec![0xa5u8; len];
        assert_eq!(seal(&key, &nonce, &plaintext).len(), len + 16);
    }
}

#[test]
fn sealing_is_a_function_of_its_arguments() {
    let key = derive_key("secret").unwrap();
    let nonce = Nonce { bytes: [1u8; 12] };
    assert_eq!(seal(&key, &nonce, b"hello world"), seal(&key, &nonce, b"hello world"));
    let other = Nonce { bytes: [2u8; 12] };
    assert_ne!(seal(&key, &nonce, b"hello world"), seal(&key, &other, b"hello world"));
}

#[test]
fn open_inverts_seal() {
    let key = derive_key("secret").unwrap();
    let nonce = Nonce { bytes: [3u8; 12] };
    for len in [0usize, 1, 11, 16, 17, 64, 255, 1024] {
        let plaintext: Vec<u8> = (0..len).map(|i| (i * 7 + 3) as u8).collect();
        let ciphertext = seal(&key, &nonce, &plaintext);
        assert_eq!(open(&key, &nonce, &ciphertext), Ok(plaintext));
    }
}

#[test]
fn a_ciphertext_shorter_than_the_tag_fails() {
    let key = derive_key("secret").unwrap();
    let nonce = Nonce { bytes: [3u8; 12] };
    for len in 0..16usize {
        let short = vec![0u8; len];
        assert_eq!(open(&key, &nonce, &short), Err(CryptError::AuthenticationFailed));
    }
}

#[test]
fn a_wrong_key_fails() {
    let nonce = Nonce { bytes: [4u8; 12] };
    let ciphertext = seal(&derive_key("secret").unwrap(), &nonce, b"hello world");
    let wrong = derive_key("wrong").unwrap();
    assert_eq!(open(&wrong, &nonce, &ciphertext), Err(CryptError::AuthenticationFailed));
}

#[test]
fn a_wrong_nonce_fails() {
    let key = derive_key("secret").unwrap();
    let ciphertext = seal(&key, &Nonce { bytes: [4u8; 12] }, b"hello world");
    let mut bytes = [4u8; 12];
    bytes[11] = 5;
    assert_eq!(open(&key, &Nonce { bytes }, &ciphertext), Err(CryptError::AuthenticationFailed));
}

#[test]
fn every_flipped_bit_fails() {
    let key = derive_key("secret").unwrap();
    let nonce = Nonce { bytes: [9u8; 12] };
    let ciphertext = seal(&key, &nonce, b"hello world");
    assert_eq!(ciphertext.len(), 27);
    for byte in 0..ciphertext.len() {
        for bit in 0..8 {
            let mut tampered = ciphertext.clone();
            tampered[byte] ^= 1 << bit;
            assert_eq!(
                open(&key, &nonce, &tampered),
                Err(CryptError::AuthenticationFailed),
                "byte {} bit {}",
                byte,
                bit
            );
        }
    }
}

#[test]
fn a_truncated_or_extended_ciphertext_fails() {
    let key = derive_key("secret").unwrap();
    let nonce = Nonce { bytes: [9u8; 12] };
    let ciphertext = seal(&key, &nonce, b"hello world");
    let truncated = &ciphertext[..ciphertext.len() - 1];
    assert_eq!(open(&key, &nonce, truncated), Err(CryptError::AuthenticationFailed));
    let mut extended = ciphertext.clone();
    extended.push(0);
    assert_eq!(open(&key, &nonce, &extended), Err(CryptError::AuthenticationFailed));
}

#[test]
fn a_nonce_is_twelve_bytes() {
    let bytes: Vec<u8> = (0..12u8).collect();
    assert_eq!(Nonce::from_slice(&bytes), Some(Nonce { bytes: [0, 1, 2, 3, 4, 5, 6, 7, 8, 9, 10, 11] }));
    assert_eq!(Nonce::from_slice(&bytes[..11]), None);
    assert_eq!(Nonce::from_slice(&[0u8; 13]), None);
    assert_eq!(Nonce::from_slice(&[]), None);
}

fn hex(text: &str) -> Vec<u8> {
    (0..text.len() / 2).map(|i| u8::from_str_radix(&text[2 * i..2 * i + 2], 16).unwrap()).collect()
}

#[test]
fn seal_of_four_blocks_under_a_known_key() {
    let key_bytes = hex("feffe9928665731c6d6a8f9467308308feffe9928665731c6d6a8f9467308308");
    let mut key = Key { bytes: [0u8; 32] };
    key.bytes.copy_from_slice(&key_bytes);
    let nonce = Nonce::from_slice(&hex("cafebabefacedbaddecaf888")).unwrap();
    let plaintext = hex(
        "d9313225f88406e5a55909c5aff5269a86a7a9531534f7da2e4c303d8a318a72\
         1c3c0c95956809532fcf0e2449a6b525b16aedf5aa0de657ba637b391aafd255",
    );
    let sealed = hex(
        "522dc1f099567d07f47f37a32a84427d643a8cdcbfe5c0c97598a2bd2555d1aa\
         8cb08e48590dbb3da7b08b1056828838c5f61e6393ba7a0abcc9f662898015ad\
         b094dac5d93471bdec1a502270e3cc6c",
    );
    assert_eq!(plaintext.len(), 64);
    assert_eq!(seal(&key, &nonce, &plaintext), sealed);
    assert_eq!(open(&key, &nonce, &sealed), Ok(plaintext));
}
