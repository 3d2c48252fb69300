use aes_gcm::aead::{Aead, KeyInit};
use sha2::Digest;
use wiretalk::encryption::{
    compute_fingerprint, CryptoIdentity, EncryptedMessage, EncryptionError, MessageCrypto,
};

fn unhex32(s: &str) -> [u8; 32] {
    let v = hex::decode(s).unwrap();
    let mut a = [0u8; 32];
    a.copy_from_slice(&v);
    a
}

#[test]
fn test_identity_generation() {
    let identity1 = CryptoIdentity::new();
    let identity2 = CryptoIdentity::new();

    // Different identities should have different keys and fingerprints
    assert_ne!(identity1.public_key, identity2.public_key);
    assert_ne!(identity1.key_fingerprint, identity2.key_fingerprint);
}

#[test]
fn test_key_agreement() {
    let identity1 = CryptoIdentity::new();
    let identity2 = CryptoIdentity::new();

    // Both sides should derive the same shared secret
    let secret1 = identity1.derive_shared_secret(&identity2.public_key).unwrap();
    let secret2 = identity2.derive_shared_secret(&identity1.public_key).unwrap();

    assert_eq!(secret1, secret2);
}

#[test]
fn test_message_encryption() {
    let mut crypto1 = MessageCrypto::new();
    let mut crypto2 = MessageCrypto::new();

    // Exchange public keys
    let id1_clone = crypto1.get_identity().clone();
    let id2_clone = crypto2.get_identity().clone();

    crypto1.add_peer_key("peer2", CryptoIdentity::from_public_key(id2_clone.public_key)).unwrap();
    crypto2.add_peer_key("peer1", CryptoIdentity::from_public_key(id1_clone.public_key)).unwrap();

    // Test encryption/decryption
    let message = "Hello, secure world!";
    let encrypted = crypto1.encrypt_message(message, "peer2", "room1").unwrap();
    let decrypted = crypto2.decrypt_message(&encrypted, "peer1").unwrap();

    assert_eq!(message, decrypted);
}

// RFC 7748, section 6.1.
const ALICE_SECRET: &str = "77076d0a7318a57d3c16c17251b26645df4c2f87ebc0992ab177fba51db92c2a";
const ALICE_PUBLIC: &str = "8520f0098930a754748b7ddcb43ef75a0dbf3a0d26381af4eba4a98eaa9b4e6a";
const BOB_SECRET: &str = "5dab087e624a8a4b79e17f8b83800ee66f3bb1292618b6fd1c2f8b27ff88e0eb";
const BOB_PUBLIC: &str = "de9edb7d7b7dc1b4d35b61c2ece435373f8343c85b78674dadfc7e146f882b4f";
const SHARED: &str = "4a5d9d5ba4ce2de1728e3bf480350f25e07e21c947d19e3376f09b3c1e161742";

fn expected_fingerprint(public_key: &[u8; 32]) -> String {
    hex::encode(sha2::Sha256::digest(public_key))[..16].to_uppercase()
}

fn expected_message_key(shared: &[u8; 32]) -> [u8; 32] {
    let hk = hkdf::Hkdf::<sha2::Sha256>::new(None, shared);
    let mut okm = [0u8; 32];
    hk.expand(b"WireTalk-E2EE-v1", &mut okm).unwrap();
    okm
}

#[test]
fn identity_from_rfc7748_secret() {
    let id = CryptoIdentity::from_private_bytes(unhex32(ALICE_SECRET));
    assert_eq!(id.public_key, unhex32(ALICE_PUBLIC));
    assert_eq!(id.get_private_bytes(), Some(unhex32(ALICE_SECRET)));
    assert_eq!(id.key_fingerprint, expected_fingerprint(&unhex32(ALICE_PUBLIC)));
}

#[test]
fn fingerprint_is_16_uppercase_hex_digits() {
    let pk = unhex32(BOB_PUBLIC);
    let f = compute_fingerprint(&pk);
    assert_eq!(f.len(), 16);
    assert!(f.chars().all(|c| c.is_ascii_digit() || ('A'..='F').contains(&c)));
    assert_eq!(f, expected_fingerprint(&pk));
    assert_ne!(f, hex::encode(&pk[..8]).to_uppercase());
}

#[test]
fn public_key_object_holds_the_key() {
    let id = CryptoIdentity::from_public_key(unhex32(BOB_PUBLIC));
    assert_eq!(id.get_public_key().as_bytes(), &unhex32(BOB_PUBLIC));
    let own = CryptoIdentity::from_private_bytes(unhex32(ALICE_SECRET));
    assert_eq!(own.get_public_key().to_bytes(), unhex32(ALICE_PUBLIC));
}

#[test]
fn public_only_identity_has_no_secret() {
    let id = CryptoIdentity::from_public_key(unhex32(BOB_PUBLIC));
    assert_eq!(id.public_key, unhex32(BOB_PUBLIC));
    assert_eq!(id.get_private_bytes(), None);
    assert!(matches!(id.derive_shared_secret(&unhex32(ALICE_PUBLIC)), Err(EncryptionError::InvalidKey)));
}

#[test]
fn derived_key_is_hkdf_of_x25519_shared_secret() {
    let alice = CryptoIdentity::from_private_bytes(unhex32(ALICE_SECRET));
    let bob = CryptoIdentity::from_private_bytes(unhex32(BOB_SECRET));
    let ka = alice.derive_shared_secret(&unhex32(BOB_PUBLIC)).unwrap();
    let kb = bob.derive_shared_secret(&unhex32(ALICE_PUBLIC)).unwrap();
    assert_eq!(ka, kb);
    assert_eq!(ka, expected_message_key(&unhex32(SHARED)));
    assert_ne!(ka, unhex32(SHARED));
}

fn paired() -> (MessageCrypto, MessageCrypto) {
    let mut a = MessageCrypto::from_private_key(unhex32(ALICE_SECRET));
    let mut b = MessageCrypto::from_private_key(unhex32(BOB_SECRET));
    a.add_peer_key("bob", CryptoIdentity::from_public_key(unhex32(BOB_PUBLIC))).unwrap();
    b.add_peer_key("alice", CryptoIdentity::from_public_key(unhex32(ALICE_PUBLIC))).unwrap();
    (a, b)
}

#[test]
fn encryption_with_fixed_nonce_is_aes_gcm() {
    let (a, _b) = paired();
    let nonce = [7u8; 12];
    let m = a.encrypt_message_with_nonce("hi there", "bob", "room-x", nonce).unwrap();
    assert_eq!(m.nonce, nonce);
    assert_eq!(m.room_id, "room-x");
    assert_eq!(m.sender_public_key, unhex32(ALICE_PUBLIC));
    assert_eq!(m.encrypted_content.len(), "hi there".len() + 16);
    let key = expected_message_key(&unhex32(SHARED));
    let cipher = aes_gcm::Aes256Gcm::new_from_slice(&key).unwrap();
    let expected = cipher.encrypt(aes_gcm::Nonce::from_slice(&nonce), "hi there".as_bytes()).unwrap();
    assert_eq!(m.encrypted_content, expected);
}

#[test]
fn roundtrip_between_paired_engines() {
    let (a, b) = paired();
    for text in ["", "x", "Grüße, 世界 🌍", "a much longer message with several words in it"] {
        let m = a.encrypt_message(text, "bob", "r").unwrap();
        assert_eq!(m.encrypted_content.len(), text.len() + 16);
        assert_eq!(b.decrypt_message(&m, "alice").unwrap(), text);
    }
}

#[test]
fn unknown_peer_is_refused() {
    let (a, b) = paired();
    match a.encrypt_message("hi", "carol", "r") {
        Err(EncryptionError::PeerKeyNotFound(p)) => assert_eq!(p, "carol"),
        other => panic!("unexpected {:?}", other.map(|_| ())),
    }
    let m = a.encrypt_message("hi", "bob", "r").unwrap();
    match b.decrypt_message(&m, "carol") {
        Err(EncryptionError::PeerKeyNotFound(p)) => assert_eq!(p, "carol"),
        other => panic!("unexpected {:?}", other),
    }
}

#[test]
fn sender_key_mismatch_is_refused() {
    let (a, b) = paired();
    let mut m = a.encrypt_message("hi", "bob", "r").unwrap();
    m.sender_public_key = unhex32(BOB_PUBLIC);
    match b.decrypt_message(&m, "alice") {
        Err(EncryptionError::Decryption(t)) => assert_eq!(t, "Sender public key mismatch"),
        other => panic!("unexpected {:?}", other),
    }
}

#[test]
fn tampered_ciphertext_is_refused() {
    let (a, b) = paired();
    let mut m = a.encrypt_message("hi", "bob", "r").unwrap();
    m.encrypted_content[0] ^= 1;
    match b.decrypt_message(&m, "alice") {
        Err(EncryptionError::Decryption(t)) => assert_eq!(t, "aead::Error"),
        other => panic!("unexpected {:?}", other),
    }
}

#[test]
fn non_utf8_plaintext_is_refused() {
    let (_a, b) = paired();
    let key = expected_message_key(&unhex32(SHARED));
    let cipher = aes_gcm::Aes256Gcm::new_from_slice(&key).unwrap();
    let nonce = [1u8; 12];
    let ct = cipher.encrypt(aes_gcm::Nonce::from_slice(&nonce), &[0xffu8, 0xfe][..]).unwrap();
    let m = EncryptedMessage {
        sender_public_key: unhex32(ALICE_PUBLIC),
        encrypted_content: ct,
        nonce,
        room_id: "r".to_string(),
    };
    match b.decrypt_message(&m, "alice") {
        Err(EncryptionError::Decryption(t)) => assert!(t.starts_with("Invalid UTF-8: ")),
        other => panic!("unexpected {:?}", other),
    }
}

#[test]
fn removed_peer_is_forgotten() {
    let (a, mut b) = paired();
    let m = a.encrypt_message("hi", "bob", "r").unwrap();
    assert!(b.has_peer("alice"));
    b.remove_peer("alice");
    assert!(!b.has_peer("alice"));
    assert!(matches!(b.decrypt_message(&m, "alice"), Err(EncryptionError::PeerKeyNotFound(_))));
    b.remove_peer("nobody");
    assert!(!b.has_peer("nobody"));
}

#[test]
fn peer_fingerprint_verification() {
    let (a, _b) = paired();
    let expected = expected_fingerprint(&unhex32(BOB_PUBLIC));
    assert!(a.verify_peer_fingerprint("bob", &expected));
    assert!(!a.verify_peer_fingerprint("bob", "0000000000000000"));
    assert!(!a.verify_peer_fingerprint("carol", &expected));
}

#[test]
fn adding_a_key_again_replaces_it() {
    let mut a = MessageCrypto::from_private_key(unhex32(ALICE_SECRET));
    let other = CryptoIdentity::new();
    a.add_peer_key("bob", other.clone()).unwrap();
    a.add_peer_key("bob", CryptoIdentity::from_public_key(unhex32(BOB_PUBLIC))).unwrap();
    let ids = a.get_peer_identities();
    assert_eq!(ids.len(), 1);
    assert_eq!(ids[0].0, "bob");
    assert_eq!(ids[0].1.public_key, unhex32(BOB_PUBLIC));
}

#[test]
fn key_exchange_message_carries_our_identity() {
    let a = MessageCrypto::from_private_key(unhex32(ALICE_SECRET));
    let m = a.create_key_exchange("peer-a", "alice");
    assert_eq!(m.sender_id, "peer-a");
    assert_eq!(m.sender_username, "alice");
    assert_eq!(m.public_key, unhex32(ALICE_PUBLIC));
    assert_eq!(m.key_fingerprint, expected_fingerprint(&unhex32(ALICE_PUBLIC)));
    assert!(m.timestamp > 0);
}

#[test]
fn error_messages() {
    assert_eq!(EncryptionError::Encryption("x".to_string()).message(), "Encryption failed: x");
    assert_eq!(EncryptionError::Decryption("y".to_string()).message(), "Decryption failed: y");
    assert_eq!(EncryptionError::KeyDerivation("z".to_string()).message(), "Key derivation failed: z");
    assert_eq!(EncryptionError::InvalidKey.message(), "Invalid key format");
    assert_eq!(EncryptionError::PeerKeyNotFound("p".to_string()).message(), "Peer key not found: p");
}
