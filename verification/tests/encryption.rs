use tx2pack::{decrypt_snapshot, encrypt_snapshot, EncryptionKey, PackError};

#[test]
fn test_encryption_decryption() {
    let data = b"Hello, World! This is sensitive data.";
    let key = EncryptionKey::generate();

    let encrypted = encrypt_snapshot(data, &key).unwrap();
    assert_ne!(data.as_slice(), encrypted.as_slice());

    let decrypted = decrypt_snapshot(&encrypted, &key).unwrap();
    assert_eq!(data.as_slice(), decrypted.as_slice());
}

#[test]
fn test_wrong_key() {
    let data = b"Hello, World!";
    let key1 = EncryptionKey::generate();
    let key2 = EncryptionKey::generate();

    let encrypted = encrypt_snapshot(data, &key1).unwrap();
    let result = decrypt_snapshot(&encrypted, &key2);

    assert!(result.is_err());
}

#[test]
fn test_key_from_bytes_length() {
    let short = [7u8; 16];
    assert!(matches!(EncryptionKey::from_bytes(&short), Err(PackError::Encryption(_))));

    let exact = [9u8; 32];
    let key = EncryptionKey::from_bytes(&exact).unwrap();
    assert_eq!(key.as_bytes(), &exact);
}

#[test]
fn test_decrypt_too_short() {
    let key = EncryptionKey::new([1u8; 32]);
    let r = decrypt_snapshot(&[0u8; 5], &key);
    assert!(matches!(r, Err(PackError::Decryption(_))));
}

#[test]
fn test_sealed_layout_length() {
    let key = EncryptionKey::generate();
    let data = b"0123456789";
    let sealed = encrypt_snapshot(data, &key).unwrap();
    assert_eq!(sealed.len(), data.len() + 12 + 16);
}
