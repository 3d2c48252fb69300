use aes_gcm::aead::{Aead, KeyInit};
use base64::Engine as _;
use wiretalk::secure_storage::{
    decrypt_payload, derive_key, encrypt_payload_with, encrypt_payload_with_salt, EncryptedStorageFile,
};

fn argon2_key(password: &str, salt: &[u8; 16]) -> [u8; 32] {
    let mut k = [0u8; 32];
    argon2::Argon2::default().hash_password_into(password.as_bytes(), salt, &mut k).unwrap();
    k
}

#[test]
fn short_password_is_refused() {
    assert_eq!(derive_key("abc", &[0u8; 16]), Err("Password/PIN must be at least 4 characters".to_string()));
    assert_eq!(derive_key("", &[0u8; 16]), Err("Password/PIN must be at least 4 characters".to_string()));
}

#[test]
fn key_is_argon2_of_password_and_salt() {
    let salt = [3u8; 16];
    let k = derive_key("1234", &salt).unwrap();
    assert_eq!(k, argon2_key("1234", &salt));
    assert_eq!(derive_key("1234", &salt).unwrap(), k);
    assert_ne!(derive_key("1234", &[4u8; 16]).unwrap(), k);
    assert_ne!(derive_key("12345", &salt).unwrap(), k);
}

#[test]
fn password_length_counts_bytes() {
    // two characters, four bytes
    assert!(derive_key("éé", &[0u8; 16]).is_ok());
}

#[test]
fn vault_roundtrip() {
    let payload = r#"{"messages":["hello","wörld"]}"#;
    let (file, key) = encrypt_payload_with_salt(payload, "s3cret-pin", [9u8; 16]).unwrap();
    assert_eq!(file.version, 1);
    assert_eq!(key, argon2_key("s3cret-pin", &[9u8; 16]));
    let (json, key2) = decrypt_payload(&file, "s3cret-pin").unwrap();
    assert_eq!(json, payload);
    assert_eq!(key2, key);
}

#[test]
fn vault_fields_are_base64() {
    let std = base64::engine::general_purpose::STANDARD;
    let (file, key) = encrypt_payload_with("{}", "pass", [0u8; 16], [1u8; 12], 42).unwrap();
    assert_eq!(file.salt_b64, "AAAAAAAAAAAAAAAAAAAAAA==");
    assert_eq!(file.nonce_b64, std.encode([1u8; 12]));
    assert_eq!(file.updated_at, 42);
    let cipher = aes_gcm::Aes256Gcm::new_from_slice(&key).unwrap();
    let ct = cipher.encrypt(aes_gcm::Nonce::from_slice(&[1u8; 12]), "{}".as_bytes()).unwrap();
    assert_eq!(file.ciphertext_b64, std.encode(ct));
    assert_eq!(std.decode(&file.nonce_b64).unwrap().len(), 12);
    assert_eq!(std.decode(&file.ciphertext_b64).unwrap().len(), "{}".len() + 16);
    let (salted, _) = encrypt_payload_with_salt("{\"k\":1}", "pass", [3u8; 16]).unwrap();
    assert_eq!(std.decode(&salted.nonce_b64).unwrap().len(), 12);
    assert_eq!(std.decode(&salted.ciphertext_b64).unwrap().len(), "{\"k\":1}".len() + 16);
}

#[test]
fn encrypting_with_short_password_fails() {
    assert_eq!(
        encrypt_payload_with_salt("{}", "abc", [0u8; 16]).map(|_| ()),
        Err("Password/PIN must be at least 4 characters".to_string())
    );
}

#[test]
fn wrong_password_does_not_open() {
    let (file, _) = encrypt_payload_with_salt("{}", "right-pin", [5u8; 16]).unwrap();
    assert_eq!(
        decrypt_payload(&file, "wrong-pin").map(|_| ()),
        Err("Failed to decrypt storage. Invalid password/PIN or corrupted data".to_string())
    );
    assert_eq!(
        decrypt_payload(&file, "abc").map(|_| ()),
        Err("Password/PIN must be at least 4 characters".to_string())
    );
}

fn sample() -> EncryptedStorageFile {
    encrypt_payload_with("{}", "pass", [0u8; 16], [1u8; 12], 0).unwrap().0
}

#[test]
fn unsupported_version() {
    let mut f = sample();
    f.version = 2;
    assert_eq!(decrypt_payload(&f, "pass").map(|_| ()), Err("Unsupported storage version: 2".to_string()));
    f.version = 255;
    assert_eq!(decrypt_payload(&f, "pass").map(|_| ()), Err("Unsupported storage version: 255".to_string()));
}

#[test]
fn malformed_fields() {
    let std = base64::engine::general_purpose::STANDARD;
    let mut f = sample();
    f.salt_b64 = "!!!".to_string();
    assert!(decrypt_payload(&f, "pass").unwrap_err().starts_with("Invalid storage salt encoding: "));
    let mut f = sample();
    f.salt_b64 = std.encode([0u8; 15]);
    assert_eq!(decrypt_payload(&f, "pass").map(|_| ()), Err("Invalid storage salt length".to_string()));
    let mut f = sample();
    f.nonce_b64 = "%%".to_string();
    assert!(decrypt_payload(&f, "pass").unwrap_err().starts_with("Invalid storage nonce encoding: "));
    let mut f = sample();
    f.nonce_b64 = std.encode([1u8; 16]);
    assert_eq!(decrypt_payload(&f, "pass").map(|_| ()), Err("Invalid storage nonce length".to_string()));
    let mut f = sample();
    f.ciphertext_b64 = "@".to_string();
    assert!(decrypt_payload(&f, "pass").unwrap_err().starts_with("Invalid storage ciphertext encoding: "));
}

#[test]
fn non_utf8_payload_is_refused() {
    let std = base64::engine::general_purpose::STANDARD;
    let mut f = sample();
    let key = argon2_key("pass", &[0u8; 16]);
    let cipher = aes_gcm::Aes256Gcm::new_from_slice(&key).unwrap();
    let ct = cipher.encrypt(aes_gcm::Nonce::from_slice(&[1u8; 12]), &[0xc3u8, 0x28][..]).unwrap();
    f.ciphertext_b64 = std.encode(ct);
    assert!(decrypt_payload(&f, "pass").unwrap_err().starts_with("Invalid decrypted UTF-8 payload: "));
}
