use sensitive_masker::crypto::{decrypt, encrypt, CryptoError, KEY_LEN};

fn key_of(byte: u8) -> [u8; KEY_LEN] {
    [byte; KEY_LEN]
}

#[test]
fn crypto_encrypt_then_decrypt_round_trips() {
    let key = key_of(7);
    let plaintext = b"{\"profile_name\":\"p\",\"rules\":[]}";
    let encrypted = encrypt(&key, plaintext, b"p");
    let decrypted = decrypt(&key, &encrypted.ciphertext, &encrypted.nonce, b"p").unwrap();
    assert_eq!(decrypted, plaintext);
}

#[test]
fn decrypting_with_the_wrong_key_fails() {
    let encrypted = encrypt(&key_of(1), b"secret", b"aad");
    let result = decrypt(&key_of(2), &encrypted.ciphertext, &encrypted.nonce, b"aad");
    assert!(matches!(result, Err(CryptoError::DecryptionFailed)));
}

#[test]
fn crypto_tampered_ciphertext_fails_to_decrypt() {
    let key = key_of(3);
    let mut encrypted = encrypt(&key, b"secret data", b"aad");
    let last = encrypted.ciphertext.len() - 1;
    encrypted.ciphertext[last] ^= 0xFF;
    let result = decrypt(&key, &encrypted.ciphertext, &encrypted.nonce, b"aad");
    assert!(matches!(result, Err(CryptoError::DecryptionFailed)));
}

#[test]
fn wrong_length_nonce_fails_cleanly_instead_of_panicking() {
    let key = key_of(4);
    let encrypted = encrypt(&key, b"secret", b"aad");
    let result = decrypt(&key, &encrypted.ciphertext, &[0u8; 3], b"aad");
    assert!(matches!(result, Err(CryptoError::DecryptionFailed)));
}

#[test]
fn two_encryptions_of_the_same_plaintext_use_different_nonces() {
    let key = key_of(9);
    let a = encrypt(&key, b"same plaintext", b"aad");
    let b = encrypt(&key, b"same plaintext", b"aad");
    assert_ne!(a.nonce, b.nonce, "nonceは毎回ランダムに生成されるはず");
    assert_eq!(a.nonce.len(), 12);
}

#[test]
fn ciphertext_from_a_different_aad_context_fails_to_decrypt() {
    let key = key_of(5);
    let encrypted = encrypt(&key, b"work profile rules", b"work");
    let result = decrypt(&key, &encrypted.ciphertext, &encrypted.nonce, b"personal");
    assert!(matches!(result, Err(CryptoError::DecryptionFailed)));
}
