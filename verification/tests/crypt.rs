use theca::crypt::{decrypt, encrypt, password_to_key};

#[test]
fn test_key_is_deterministic() {
    let k1 = password_to_key("secret");
    let k2 = password_to_key("secret");
    assert_eq!(k1, k2);
    assert_eq!(k1.len(), 32);
}

#[test]
fn test_different_passwords_differ() {
    let k1 = password_to_key("secret");
    let k2 = password_to_key("secret2");
    let k3 = password_to_key("");
    assert_ne!(k1, k2);
    assert_ne!(k1, k3);
    assert_ne!(k2, k3);
    assert_eq!(k2.len(), 32);
    assert_eq!(k3.len(), 32);
}

#[test]
fn test_encrypt_decrypt_round_trip() {
    let key = password_to_key("pw");
    let data = b"some plaintext to protect".to_vec();
    let blob = encrypt(&data, &key);
    assert!(blob.len() >= 16);
    let back = decrypt(&blob, &key).expect("same key must decrypt");
    assert_eq!(back, data);
}

#[test]
fn test_fresh_iv_gives_distinct_ciphertexts() {
    let key = password_to_key("pw");
    let data = b"identical plaintext".to_vec();
    let b1 = encrypt(&data, &key);
    let b2 = encrypt(&data, &key);
    // a fresh random IV every time: the blobs differ...
    assert_ne!(b1, b2);
    // ...but both decrypt back to the plaintext
    assert_eq!(decrypt(&b1, &key).unwrap(), data);
    assert_eq!(decrypt(&b2, &key).unwrap(), data);
}

#[test]
fn test_ciphertext_is_not_plaintext() {
    let key = password_to_key("pw");
    let data = b"identical plaintext".to_vec();
    let blob = encrypt(&data, &key);
    assert_ne!(&blob[16..], &data[..]);
}

#[test]
fn test_short_blob_is_crypto_error() {
    let key = password_to_key("pw");
    let r = decrypt(&[1, 2, 3], &key);
    assert!(r.is_err());
    assert_eq!(r.err().unwrap().kind, theca::errors::ErrorKind::CryptoError);
}

#[test]
fn test_empty_plaintext_round_trips() {
    let key = password_to_key("pw");
    let blob = encrypt(&[], &key);
    assert_eq!(decrypt(&blob, &key).unwrap(), Vec::<u8>::new());
}
