//! Round-trip, tamper and key-isolation behavior of the credential cipher.

use agent_gateway::cipher::decrypt;
use agent_gateway::cipher::encrypt;

#[test]
fn encryption_test_encrypt_decrypt_roundtrip() {
    let key = "my-secret-key-32-chars-long!!!!";
    let plaintext = "secret_token_12345";

    let encrypted = encrypt(plaintext, key).unwrap();
    let decrypted = decrypt(&encrypted, key).unwrap();

    assert_eq!(plaintext, decrypted);
}

#[test]
fn test_encryption_roundtrip() {
    let key = "my-super-secret-encryption-key!!";
    let plaintext = "sk_live_secret_token_12345";

    let encrypted = encrypt(plaintext, key).unwrap();
    let decrypted = decrypt(&encrypted, key).unwrap();

    assert_eq!(plaintext, decrypted);
    assert_ne!(plaintext, encrypted); // Encrypted should be different
}

#[test]
fn test_envelope_shape() {
    // The envelope is base64 over nonce, ciphertext and tag: four characters
    // per started three-byte group of 12 + n + 16 bytes.
    let key = "envelope-shape-test-key!!!!!!!!!";
    let plaintext = "sk_live_secret_token_12345"; // 26 bytes
    let encrypted = encrypt(plaintext, key).unwrap();
    assert_eq!(encrypted.chars().count(), 4 * ((26 + 28 + 2) / 3));

    let empty = encrypt("", key).unwrap();
    assert_eq!(empty.chars().count(), 4 * ((28 + 2) / 3));
}

#[test]
fn test_encryption_different_keys() {
    let plaintext = "secret_data";
    let key1 = "key-one-32-characters-long!!!!!!";
    let key2 = "key-two-32-characters-long!!!!!!";

    let encrypted1 = encrypt(plaintext, key1).unwrap();
    let encrypted2 = encrypt(plaintext, key2).unwrap();

    // Same plaintext with different keys should produce different ciphertext
    // (Note: due to random nonce, even same key produces different ciphertext)
    assert_ne!(encrypted1, encrypted2);
}

#[test]
fn test_decrypt_with_wrong_key_fails() {
    let plaintext = "secret_data";
    let key1 = "key-one-32-characters-long!!!!!!";
    let key2 = "key-two-32-characters-long!!!!!!";

    let encrypted = encrypt(plaintext, key1).unwrap();
    assert!(decrypt(&encrypted, key2).is_err());
}

#[test]
fn test_two_encryptions_differ() {
    // A fresh random nonce per encryption makes two envelopes of the same
    // plaintext under the same key differ.
    let key = "nonce-freshness-test-key!!!!!!!!";
    let plaintext = "same_plaintext";

    let first = encrypt(plaintext, key).unwrap();
    let second = encrypt(plaintext, key).unwrap();

    assert_ne!(first, second);
    assert_eq!(decrypt(&first, key).unwrap(), plaintext);
    assert_eq!(decrypt(&second, key).unwrap(), plaintext);
}

#[test]
fn test_decrypt_rejects_tampered_envelope() {
    let key = "tamper-detection-test-key!!!!!!!";
    let plaintext = "authentic_payload";

    let encrypted = encrypt(plaintext, key).unwrap();
    // Flip the first character of the envelope.
    let mut chars: Vec<char> = encrypted.chars().collect();
    chars[0] = if chars[0] == 'A' { 'B' } else { 'A' };
    let tampered: String = chars.into_iter().collect();

    assert!(decrypt(&tampered, key).is_err());
}

#[test]
fn test_decrypt_rejects_short_envelope() {
    // An envelope whose bytes are shorter than the nonce is rejected.
    let key = "short-envelope-test-key!!!!!!!!!";
    assert!(decrypt("QQ==", key).is_err()); // one byte
    assert!(decrypt("", key).is_err()); // empty
    assert!(decrypt("not base64 at all!!", key).is_err());
}

#[test]
fn test_empty_plaintext_roundtrip() {
    let key = "empty-plaintext-test-key!!!!!!!!";
    let encrypted = encrypt("", key).unwrap();
    assert_eq!(decrypt(&encrypted, key).unwrap(), "");
}

#[test]
fn test_empty_key_roundtrip() {
    // An empty key string derives the all-zero key; the cipher still works.
    let encrypted = encrypt("payload", "").unwrap();
    assert_eq!(decrypt(&encrypted, "").unwrap(), "payload");
}
