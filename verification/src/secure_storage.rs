//! The encrypted vault: a JSON payload sealed with AES-256-GCM under a key
//! derived from the user's password or PIN with Argon2, stored with its salt
//! and nonce in base64. Locating, reading and writing the file is the
//! application's part.

use vstd::prelude::*;
use vstd::string::*;
use vstd::utf8::{decode_utf8, encode_utf8, valid_utf8};
use crate::primitives::{
    aead_error_text, aes256gcm_decrypt, aes256gcm_encrypt, aes256gcm_open, aes256gcm_seal,
    aes_gcm_max_plaintext, argon2_hash, argon2_key, base64_decode, base64_decoded, base64_encode,
    base64_encoded, now_micros, random_nonce, string_from_utf8,
};
use crate::text::{decimal, decimal_string};

verus! {

/// The vault file as stored.
pub struct EncryptedStorageFile {
    pub version: u8,
    pub salt_b64: String,
    pub nonce_b64: String,
    pub ciphertext_b64: String,
    /// Microseconds since the Unix epoch.
    pub updated_at: i64,
}

pub struct StorageFileView {
    pub version: u8,
    pub salt_b64: Seq<char>,
    pub nonce_b64: Seq<char>,
    pub ciphertext_b64: Seq<char>,
    pub updated_at: i64,
}

impl View for EncryptedStorageFile {
    type V = StorageFileView;

    open spec fn view(&self) -> StorageFileView {
        StorageFileView {
            version: self.version,
            salt_b64: self.salt_b64@,
            nonce_b64: self.nonce_b64@,
            ciphertext_b64: self.ciphertext_b64@,
            updated_at: self.updated_at,
        }
    }
}

/// Shortest accepted password or PIN, in bytes.
pub open spec fn min_password_len() -> int {
    4
}

/// Longest password Argon2 accepts, in bytes.
pub open spec fn max_password_len() -> int {
    0xFFFF_FFFF
}

/// The payload and key a vault file opens to under a password, or `None`
/// when it does not open: wrong version, malformed base64, a salt that is
/// not 16 bytes or a nonce that is not 12, a password Argon2 does not take,
/// a ciphertext that does not authenticate, or a payload that is not UTF-8.
pub open spec fn vault_opens(f: StorageFileView, password: Seq<u8>) -> Option<(Seq<char>, Seq<u8>)> {
    if f.version != 1 || password.len() < min_password_len() || password.len() > max_password_len() {
        None
    } else {
        match (base64_decoded(f.salt_b64), base64_decoded(f.nonce_b64), base64_decoded(f.ciphertext_b64)) {
            (Some(salt), Some(nonce), Some(ct)) => {
                if salt.len() != 16 || nonce.len() != 12 {
                    None
                } else {
                    let key = argon2_key(password, salt);
                    match aes256gcm_open(key, nonce, ct) {
                        Some(p) => if valid_utf8(p) {
                            Some((decode_utf8(p), key))
                        } else {
                            None
                        },
                        None => None,
                    }
                }
            },
            _ => None,
        }
    }
}

/// `f` is a vault of `payload` sealed under `password`: version 1, its
/// salt and nonce decode to the right lengths, `key` is the Argon2 key of the
/// password and salt, and the ciphertext opens to the payload's bytes.
pub open spec fn vault_sealed(f: StorageFileView, password: Seq<u8>, payload: Seq<char>, key: Seq<u8>) -> bool {
    &&& f.version == 1
    &&& match (base64_decoded(f.salt_b64), base64_decoded(f.nonce_b64), base64_decoded(f.ciphertext_b64)) {
        (Some(salt), Some(nonce), Some(ct)) => {
            &&& salt.len() == 16
            &&& key == argon2_key(password, salt)
            &&& nonce.len() == 12
            &&& aes256gcm_open(key, nonce, ct) == Some(encode_utf8(payload))
        },
        _ => false,
    }
}

/// `prefix` followed by the text of `detail`.
fn prefixed(prefix: &str, detail: String) -> (s: String)
    ensures
        prefix@.is_prefix_of(s@),
        s@ == prefix@ + detail@,
{
    let s = String::from_str(prefix).concat(detail.as_str());
    assert(s@.subrange(0, prefix@.len() as int) =~= prefix@);
    s
}

/// Derive the vault key from a password or PIN of at least 4 bytes.
pub fn derive_key(password: &str, salt: &[u8; 16]) -> (r: Result<[u8; 32], String>)
    ensures
        password.spec_bytes().len() < min_password_len() ==> (r matches Err(e) && e@ == "Password/PIN must be at least 4 characters"@),
        min_password_len() <= password.spec_bytes().len() <= max_password_len() ==> (r matches Ok(k) && k@ == argon2_key(password.spec_bytes(), salt@)),
        password.spec_bytes().len() > max_password_len() ==> (r matches Err(e) && "Failed to derive encryption key: "@.is_prefix_of(e@)),
        r matches Ok(k) ==> k@ == argon2_key(password.spec_bytes(), salt@),
{
    if password.as_bytes().len() < 4 {
        return Err(String::from_str("Password/PIN must be at least 4 characters"));
    }
    match argon2_hash(password.as_bytes(), salt) {
        Ok(k) => Ok(k),
        Err(e) => Err(prefixed("Failed to derive encryption key: ", e.to_string())),
    }
}

/// Seal `payload_json` under `password` with the given salt, nonce and time.
pub fn encrypt_payload_with(
    payload_json: &str,
    password: &str,
    salt: [u8; 16],
    nonce: [u8; 12],
    updated_at: i64,
) -> (r: Result<(EncryptedStorageFile, [u8; 32]), String>)
    requires
        (payload_json.spec_bytes().len() + 16) / 3 * 4 + 4 <= usize::MAX,
    ensures
        password.spec_bytes().len() < min_password_len() ==> (r matches Err(e) && e@ == "Password/PIN must be at least 4 characters"@),
        password.spec_bytes().len() > max_password_len() ==> (r matches Err(e) && "Failed to derive encryption key: "@.is_prefix_of(e@)),
        min_password_len() <= password.spec_bytes().len() <= max_password_len() && payload_json.spec_bytes().len() > aes_gcm_max_plaintext()
            ==> (r matches Err(e) && e@ == "Failed to encrypt storage payload: aead::Error"@),
        min_password_len() <= password.spec_bytes().len() <= max_password_len() && payload_json.spec_bytes().len() <= aes_gcm_max_plaintext()
            ==> (r matches Ok((f, k)) && {
                &&& k@ == argon2_key(password.spec_bytes(), salt@)
                &&& f.version == 1
                &&& f.salt_b64@ == base64_encoded(salt@)
                &&& f.nonce_b64@ == base64_encoded(nonce@)
                &&& base64_decoded(f.nonce_b64@) == Some(nonce@)
                &&& base64_decoded(f.ciphertext_b64@) matches Some(ct) && ct.len() == payload_json.spec_bytes().len() + 16
                &&& f.ciphertext_b64@ == base64_encoded(aes256gcm_seal(k@, nonce@, payload_json.spec_bytes()))
                &&& f.updated_at == updated_at
                &&& vault_sealed(f@, password.spec_bytes(), payload_json@, k@)
            }),
        r matches Ok((f, k)) ==> vault_sealed(f@, password.spec_bytes(), payload_json@, k@)
            && min_password_len() <= password.spec_bytes().len() <= max_password_len(),
{
    let key = match derive_key(password, &salt) {
        Ok(k) => k,
        Err(e) => return Err(e),
    };
    let ciphertext = match aes256gcm_encrypt(&key, &nonce, payload_json.as_bytes()) {
        Ok(c) => c,
        Err(e) => {
            let msg = String::from_str("Failed to encrypt storage payload: ").concat(aead_error_text(&e).as_str());
            proof {
                reveal_strlit("Failed to encrypt storage payload: ");
                reveal_strlit("aead::Error");
                reveal_strlit("Failed to encrypt storage payload: aead::Error");
                assert(msg@ =~= "Failed to encrypt storage payload: aead::Error"@);
            }
            return Err(msg);
        },
    };
    let file = EncryptedStorageFile {
        version: 1,
        salt_b64: base64_encode(salt.as_slice()),
        nonce_b64: base64_encode(nonce.as_slice()),
        ciphertext_b64: base64_encode(ciphertext.as_slice()),
        updated_at,
    };
    proof {
        crate::primitives::lemma_base64_roundtrip(salt@);
        crate::primitives::lemma_base64_roundtrip(nonce@);
        crate::primitives::lemma_base64_roundtrip(ciphertext@);
        assert(base64_decoded(file.salt_b64@) == Some(salt@));
        assert(base64_decoded(file.nonce_b64@) == Some(nonce@));
        assert(base64_decoded(file.ciphertext_b64@) == Some(ciphertext@));
        assert(aes256gcm_open(key@, nonce@, ciphertext@) == Some(encode_utf8(payload_json@)));
    }
    Ok((file, key))
}

/// Seal `payload_json` under `password` with the given salt, a fresh random
/// nonce and the current time.
pub fn encrypt_payload_with_salt(
    payload_json: &str,
    password: &str,
    salt: [u8; 16],
) -> (r: Result<(EncryptedStorageFile, [u8; 32]), String>)
    requires
        (payload_json.spec_bytes().len() + 16) / 3 * 4 + 4 <= usize::MAX,
    ensures
        password.spec_bytes().len() < min_password_len() ==> (r matches Err(e) && e@ == "Password/PIN must be at least 4 characters"@),
        password.spec_bytes().len() > max_password_len() ==> (r matches Err(e) && "Failed to derive encryption key: "@.is_prefix_of(e@)),
        min_password_len() <= password.spec_bytes().len() <= max_password_len() && payload_json.spec_bytes().len() > aes_gcm_max_plaintext()
            ==> (r matches Err(e) && e@ == "Failed to encrypt storage payload: aead::Error"@),
        min_password_len() <= password.spec_bytes().len() <= max_password_len() && payload_json.spec_bytes().len() <= aes_gcm_max_plaintext()
            ==> (r matches Ok((f, k)) && {
                &&& k@ == argon2_key(password.spec_bytes(), salt@)
                &&& f.version == 1
                &&& f.salt_b64@ == base64_encoded(salt@)
                &&& base64_decoded(f.nonce_b64@) matches Some(n) && n.len() == 12
                &&& base64_decoded(f.ciphertext_b64@) matches Some(ct) && ct.len() == payload_json.spec_bytes().len() + 16
                &&& vault_sealed(f@, password.spec_bytes(), payload_json@, k@)
            }),
        r matches Ok((f, k)) ==> vault_sealed(f@, password.spec_bytes(), payload_json@, k@)
            && min_password_len() <= password.spec_bytes().len() <= max_password_len(),
{
    let nonce = random_nonce();
    let now = now_micros();
    encrypt_payload_with(payload_json, password, salt, nonce, now)
}

fn copy_salt(bytes: &Vec<u8>) -> (a: [u8; 16])
    requires
        bytes@.len() == 16,
    ensures
        a@ == bytes@,
{
    let mut a = [0u8; 16];
    let mut i: usize = 0;
    while i < 16
        invariant
            i <= 16,
            bytes@.len() == 16,
            forall|j: int| 0 <= j < i ==> a@[j] == bytes@[j],
        decreases 16 - i,
    {
        a[i] = bytes[i];
        i = i + 1;
    }
    assert(a@ =~= bytes@);
    a
}

fn copy_nonce(bytes: &Vec<u8>) -> (a: [u8; 12])
    requires
        bytes@.len() == 12,
    ensures
        a@ == bytes@,
{
    let mut a = [0u8; 12];
    let mut i: usize = 0;
    while i < 12
        invariant
            i <= 12,
            bytes@.len() == 12,
            forall|j: int| 0 <= j < i ==> a@[j] == bytes@[j],
        decreases 12 - i,
    {
        a[i] = bytes[i];
        i = i + 1;
    }
    assert(a@ =~= bytes@);
    a
}

/// Open a vault file with a password or PIN, giving the payload and the key.
pub fn decrypt_payload(file: &EncryptedStorageFile, password: &str) -> (r: Result<(String, [u8; 32]), String>)
    ensures
        match vault_opens(file@, password.spec_bytes()) {
            Some((payload, key)) => r matches Ok((s, k)) && s@ == payload && k@ == key,
            None => r is Err,
        },
        file.version != 1 ==> (r matches Err(e) && e@ == "Unsupported storage version: "@ + decimal(file.version as nat)),
        file.version == 1 ==> match base64_decoded(file.salt_b64@) {
            None => r matches Err(e) && "Invalid storage salt encoding: "@.is_prefix_of(e@),
            Some(salt) => {
                &&& salt.len() != 16 ==> (r matches Err(e) && e@ == "Invalid storage salt length"@)
                &&& salt.len() == 16 && password.spec_bytes().len() < min_password_len()
                    ==> (r matches Err(e) && e@ == "Password/PIN must be at least 4 characters"@)
                &&& salt.len() == 16 && password.spec_bytes().len() > max_password_len()
                    ==> (r matches Err(e) && "Failed to derive encryption key: "@.is_prefix_of(e@))
                &&& salt.len() == 16 && min_password_len() <= password.spec_bytes().len() <= max_password_len()
                    ==> match base64_decoded(file.nonce_b64@) {
                    None => r matches Err(e) && "Invalid storage nonce encoding: "@.is_prefix_of(e@),
                    Some(nonce) => {
                        &&& nonce.len() != 12 ==> (r matches Err(e) && e@ == "Invalid storage nonce length"@)
                        &&& nonce.len() == 12 ==> match base64_decoded(file.ciphertext_b64@) {
                            None => r matches Err(e) && "Invalid storage ciphertext encoding: "@.is_prefix_of(e@),
                            Some(ct) => match aes256gcm_open(argon2_key(password.spec_bytes(), salt), nonce, ct) {
                                None => r matches Err(e) && e@ == "Failed to decrypt storage. Invalid password/PIN or corrupted data"@,
                                Some(p) => !valid_utf8(p)
                                    ==> (r matches Err(e) && "Invalid decrypted UTF-8 payload: "@.is_prefix_of(e@)),
                            },
                        }
                    },
                }
            },
        },
{
    if file.version != 1 {
        let v = decimal_string(file.version as u64);
        return Err(String::from_str("Unsupported storage version: ").concat(v.as_str()));
    }
    let salt_bytes = match base64_decode(file.salt_b64.as_str()) {
        Ok(b) => b,
        Err(e) => return Err(prefixed("Invalid storage salt encoding: ", e.to_string())),
    };
    if salt_bytes.len() != 16 {
        return Err(String::from_str("Invalid storage salt length"));
    }
    let salt = copy_salt(&salt_bytes);
    let key = match derive_key(password, &salt) {
        Ok(k) => k,
        Err(e) => return Err(e),
    };
    let nonce_bytes = match base64_decode(file.nonce_b64.as_str()) {
        Ok(b) => b,
        Err(e) => return Err(prefixed("Invalid storage nonce encoding: ", e.to_string())),
    };
    if nonce_bytes.len() != 12 {
        return Err(String::from_str("Invalid storage nonce length"));
    }
    let nonce = copy_nonce(&nonce_bytes);
    let ciphertext = match base64_decode(file.ciphertext_b64.as_str()) {
        Ok(b) => b,
        Err(e) => return Err(prefixed("Invalid storage ciphertext encoding: ", e.to_string())),
    };
    let plaintext = match aes256gcm_decrypt(&key, &nonce, ciphertext.as_slice()) {
        Ok(p) => p,
        Err(_) => return Err(String::from_str("Failed to decrypt storage. Invalid password/PIN or corrupted data")),
    };
    match string_from_utf8(plaintext) {
        Ok(json) => Ok((json, key)),
        Err(e) => Err(prefixed("Invalid decrypted UTF-8 payload: ", e.to_string())),
    }
}

/// A vault sealed under a password opens under that password to the same
/// payload and key. Every file that `encrypt_payload_with_salt` (or
/// `encrypt_payload_with`) returns meets this law's requirements, so
/// `decrypt_payload` gives back exactly the payload and key it sealed.
pub proof fn law_vault_roundtrip(f: StorageFileView, password: Seq<u8>, payload: Seq<char>, key: Seq<u8>)
    requires
        vault_sealed(f, password, payload, key),
        min_password_len() <= password.len() <= max_password_len(),
    ensures
        vault_opens(f, password) == Some((payload, key)),
{
    vstd::utf8::encode_utf8_valid_utf8(payload);
    vstd::utf8::encode_utf8_decode_utf8(payload);
}

} // verus!
