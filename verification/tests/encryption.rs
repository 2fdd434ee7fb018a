use aes_gcm::aead::OsRng;
use aes_gcm::{Aes256Gcm, KeyInit};
use relay_chat::encryption::{
    decrypt, encrypt, encrypt_with_nonce, generate_nonce, CipherError,
};

#[test]
pub fn test_encryption() {
    let key = Aes256Gcm::generate_key(&mut OsRng);

    let slice_key = key.as_slice();
    let data = b"hello world";

    let ciphered = encrypt(slice_key, data).unwrap();
    let plain = decrypt(slice_key, ciphered.clone()).unwrap();

    assert_eq!(
        String::from_utf8(data.to_vec()).unwrap(),
        String::from_utf8(plain).unwrap()
    );
}

#[test]
fn nonce_is_twelve_bytes_and_fresh() {
    let a = generate_nonce();
    let b = generate_nonce();
    assert_eq!(a.len(), 12);
    assert_eq!(b.len(), 12);
    assert_ne!(a, b);
}

#[test]
fn round_trip_for_empty_and_long_data() {
    let key = [7u8; 32];
    for data in [vec![], vec![0u8; 1], vec![0xab; 1000]] {
        let sealed = encrypt(&key, &data).unwrap();
        assert_eq!(sealed.len(), 12 + data.len() + 16);
        assert_eq!(decrypt(&key, sealed).unwrap(), data);
    }
}

#[test]
fn two_encryptions_differ() {
    let key = [1u8; 32];
    let first = encrypt(&key, b"same").unwrap();
    let second = encrypt(&key, b"same").unwrap();
    assert_ne!(first, second);
}

#[test]
fn known_answer_under_a_given_nonce() {
    // AES-256-GCM, zero key, zero nonce, empty plaintext: the tag alone.
    let sealed = encrypt_with_nonce(&[0u8; 32], &[0u8; 12], &[]).unwrap();
    let mut expected = vec![0u8; 12];
    expected.extend_from_slice(&[
        0x53, 0x0f, 0x8a, 0xfb, 0xc7, 0x45, 0x36, 0xb9, 0xa9, 0x63, 0xb4, 0xf1, 0xc4, 0xcb, 0x73,
        0x8b,
    ]);
    assert_eq!(sealed, expected);
    // the same key, nonce and data give the same message
    let again = encrypt_with_nonce(&[0u8; 32], &[0u8; 12], &[]).unwrap();
    assert_eq!(sealed, again);
    // the result is not the plaintext handed back
    let sealed = encrypt_with_nonce(&[0u8; 32], &[0u8; 12], b"hello").unwrap();
    assert_ne!(&sealed[12..17], b"hello");
    assert_eq!(decrypt(&[0u8; 32], sealed).unwrap(), b"hello");
}

#[test]
fn every_flipped_byte_is_rejected() {
    let key = [9u8; 32];
    let sealed = encrypt(&key, b"attack at dawn").unwrap();
    for i in 0..sealed.len() {
        let mut changed = sealed.clone();
        changed[i] ^= 0x01;
        assert_eq!(decrypt(&key, changed), Err(CipherError::Rejected));
    }
}

#[test]
fn another_key_is_rejected() {
    let sealed = encrypt(&[1u8; 32], b"for one").unwrap();
    assert_eq!(decrypt(&[2u8; 32], sealed), Err(CipherError::Rejected));
}

#[test]
fn bad_keys_and_short_messages_are_refused() {
    assert_eq!(encrypt(&[0u8; 31], b"x"), Err(CipherError::InvalidKey));
    assert_eq!(encrypt(&[0u8; 33], b"x"), Err(CipherError::InvalidKey));
    assert_eq!(encrypt(&[], b"x"), Err(CipherError::InvalidKey));
    assert_eq!(
        decrypt(&[0u8; 16], vec![0u8; 40]),
        Err(CipherError::InvalidKey)
    );
    assert_eq!(
        encrypt_with_nonce(&[0u8; 32], &[0u8; 11], b"x"),
        Err(CipherError::InvalidNonce)
    );
    assert_eq!(
        decrypt(&[0u8; 32], vec![0u8; 11]),
        Err(CipherError::Malformed)
    );
    // a nonce and less than a tag
    assert_eq!(
        decrypt(&[0u8; 32], vec![0u8; 12]),
        Err(CipherError::Rejected)
    );
    assert_eq!(
        decrypt(&[0u8; 32], vec![0u8; 27]),
        Err(CipherError::Rejected)
    );
}

#[test]
fn message_too_short_for_nonce_and_tag_opens_to_nothing() {
    let key = [5u8; 32];
    for len in 0..28usize {
        let r = decrypt(&key, vec![0x41u8; len]);
        if len < 12 {
            assert_eq!(r, Err(CipherError::Malformed));
        } else {
            assert_eq!(r, Err(CipherError::Rejected));
        }
    }
    // the shortest message that opens: a nonce and a tag around no data
    let sealed = encrypt(&key, &[]).unwrap();
    assert_eq!(sealed.len(), 28);
    assert_eq!(decrypt(&key, sealed), Ok(vec![]));
}
