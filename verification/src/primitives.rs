//! The calls this library makes into outside crates (X25519, SHA-256, HKDF,
//! AES-256-GCM, Argon2, hex, base64, UTF-8 decoding, time, UUIDs, random
//! numbers), each behind a small trusted function whose contract says what
//! the crate's source or documentation shows of it.
//!
//! Results that take pages to state (a hash, a cipher) are given a name: the
//! contract then says that the same inputs give the same output, plus the
//! short facts the documentation gives (an AEAD opens what it sealed, both
//! sides of a Diffie-Hellman exchange agree, a decoder reads back what the
//! encoder wrote).

use vstd::prelude::*;
use vstd::utf8::{decode_utf8, valid_utf8};
use vstd::string::StringSliceAdditionalSpecFns;
use crate::text::digit_char;
use aes_gcm::aead::{Aead, AeadCore, KeyInit};
use base64::Engine as _;
use hkdf::Hkdf;
use sha2::Digest as _;

verus! {

#[verifier::external_type_specification]
#[verifier::external_body]
pub struct ExAeadError(aes_gcm::Error);

#[verifier::external_type_specification]
#[verifier::external_body]
pub struct ExArgon2Error(argon2::Error);

#[verifier::external_type_specification]
#[verifier::external_body]
pub struct ExBase64DecodeError(base64::DecodeError);

#[verifier::external_type_specification]
#[verifier::external_body]
pub struct ExFromHexError(hex::FromHexError);

#[verifier::external_type_specification]
#[verifier::external_body]
pub struct ExFromUtf8Error(std::string::FromUtf8Error);

#[verifier::external_type_specification]
#[verifier::external_body]
pub struct ExX25519PublicKey(x25519_dalek::PublicKey);

// ─── Names for results that take pages to state ──────────────────────────

/// The X25519 public key of a secret key (RFC 7748 scalar multiplication
/// of the base point by the clamped secret).
pub uninterp spec fn x25519_public(secret: Seq<u8>) -> Seq<u8>;

/// The X25519 shared secret of a secret key and a peer's public key.
pub uninterp spec fn x25519_shared(secret: Seq<u8>, peer_public: Seq<u8>) -> Seq<u8>;

/// The SHA-256 digest of `data`.
pub uninterp spec fn sha256(data: Seq<u8>) -> Seq<u8>;

/// 32 bytes of HKDF-SHA256 output for input key material `ikm`, no salt,
/// and context `info`.
pub uninterp spec fn hkdf_sha256_32(ikm: Seq<u8>, info: Seq<u8>) -> Seq<u8>;

/// AES-256-GCM encryption (ciphertext followed by the 16-byte tag), no
/// associated data.
pub uninterp spec fn aes256gcm_seal(key: Seq<u8>, nonce: Seq<u8>, plaintext: Seq<u8>) -> Seq<u8>;

/// AES-256-GCM decryption: the plaintext, or `None` when the tag does not
/// authenticate the ciphertext.
pub uninterp spec fn aes256gcm_open(key: Seq<u8>, nonce: Seq<u8>, ciphertext: Seq<u8>) -> Option<Seq<u8>>;

/// The 32-byte Argon2id key (default parameters) for a password and salt.
pub uninterp spec fn argon2_key(password: Seq<u8>, salt: Seq<u8>) -> Seq<u8>;


// ─── Results a few lines can state ───────────────────────────────────────

/// Lowercase hexadecimal digit for `v` (0 to 15).
pub open spec fn hex_digit(v: nat) -> char {
    if v < 10 {
        digit_char(v)
    } else if v == 10 {
        'a'
    } else if v == 11 {
        'b'
    } else if v == 12 {
        'c'
    } else if v == 13 {
        'd'
    } else if v == 14 {
        'e'
    } else {
        'f'
    }
}

/// A lowercase hexadecimal digit.
pub open spec fn is_lower_hex_digit(c: char) -> bool {
    ('0' <= c && c <= '9') || ('a' <= c && c <= 'f')
}

/// The text form of a version-4 UUID with the RFC 4122 variant, as
/// `Uuid::to_string` writes it: 36 characters, hyphens at positions 8, 13,
/// 18 and 23, lowercase hexadecimal digits elsewhere, the version digit `4`
/// at position 14 and one of `8`, `9`, `a`, `b` at position 19.
pub open spec fn uuid_v4_text(s: Seq<char>) -> bool {
    &&& s.len() == 36
    &&& forall|i: int|
        0 <= i < 36 ==> if i == 8 || i == 13 || i == 18 || i == 23 {
            #[trigger] s[i] == '-'
        } else {
            is_lower_hex_digit(s[i])
        }
    &&& s[14] == '4'
    &&& (s[19] == '8' || s[19] == '9' || s[19] == 'a' || s[19] == 'b')
}

/// Lowercase hexadecimal text of `bytes`, two digits per byte, high nibble first.
pub open spec fn hex_lower(bytes: Seq<u8>) -> Seq<char>
    decreases bytes.len(),
{
    if bytes.len() == 0 {
        Seq::empty()
    } else {
        hex_lower(bytes.drop_last()) + seq![
            hex_digit(bytes.last() as nat / 16),
            hex_digit(bytes.last() as nat % 16),
        ]
    }
}

/// Value of a hexadecimal digit byte (either case).
pub open spec fn hex_value(b: u8) -> Option<u8> {
    if 48 <= b <= 57 {
        Some((b - 48) as u8)
    } else if 65 <= b <= 70 {
        Some((b - 55) as u8)
    } else if 97 <= b <= 102 {
        Some((b - 87) as u8)
    } else {
        None
    }
}

/// Hex decoding of text bytes: `None` for odd length or a non-hex digit.
pub open spec fn hex_decoded(text: Seq<u8>) -> Option<Seq<u8>>
    decreases text.len(),
{
    if text.len() == 0 {
        Some(Seq::empty())
    } else if text.len() == 1 {
        None
    } else {
        match (hex_value(text[0]), hex_value(text[1]), hex_decoded(text.skip(2))) {
            (Some(h), Some(l), Some(rest)) => Some(seq![(h * 16 + l) as u8] + rest),
            _ => None,
        }
    }
}

/// The standard base64 alphabet.
pub open spec fn base64_symbol(v: int) -> char {
    if v < 26 {
        (65 + v) as char
    } else if v < 52 {
        (97 + v - 26) as char
    } else if v < 62 {
        (48 + v - 52) as char
    } else if v == 62 {
        '+'
    } else {
        '/'
    }
}

/// Standard base64 encoding with `=` padding.
pub open spec fn base64_encoded(b: Seq<u8>) -> Seq<char>
    decreases b.len(),
{
    if b.len() == 0 {
        Seq::empty()
    } else if b.len() == 1 {
        seq![base64_symbol(b[0] as int / 4), base64_symbol((b[0] as int % 4) * 16), '=', '=']
    } else if b.len() == 2 {
        seq![
            base64_symbol(b[0] as int / 4),
            base64_symbol((b[0] as int % 4) * 16 + b[1] as int / 16),
            base64_symbol((b[1] as int % 16) * 4),
            '=',
        ]
    } else {
        seq![
            base64_symbol(b[0] as int / 4),
            base64_symbol((b[0] as int % 4) * 16 + b[1] as int / 16),
            base64_symbol((b[1] as int % 16) * 4 + b[2] as int / 64),
            base64_symbol(b[2] as int % 64),
        ] + base64_encoded(b.skip(3))
    }
}

proof fn lemma_base64_symbol(v: int)
    requires
        0 <= v < 64,
    ensures
        base64_symbol(v) != '=',
        base64_symbol(v) as u32 == if v < 26 { 65 + v } else if v < 52 { 71 + v } else if v < 62 { v - 4 } else if v == 62 { 43 } else { 47 },
{
}

proof fn lemma_base64_symbol_injective(v: int, w: int)
    requires
        0 <= v < 64,
        0 <= w < 64,
        base64_symbol(v) == base64_symbol(w),
    ensures
        v == w,
{
    lemma_base64_symbol(v);
    lemma_base64_symbol(w);
}

proof fn lemma_base64_len(b: Seq<u8>)
    ensures
        b.len() == 0 <==> base64_encoded(b).len() == 0,
        b.len() > 0 ==> base64_encoded(b).len() >= 4,
        b.len() == 1 ==> base64_encoded(b)[2] == '=' && base64_encoded(b)[3] == '=',
        b.len() == 2 ==> base64_encoded(b)[2] != '=' && base64_encoded(b)[3] == '=',
        b.len() >= 3 ==> base64_encoded(b)[2] != '=' && base64_encoded(b)[3] != '=',
        b.len() >= 3 ==> base64_encoded(b).skip(4) == base64_encoded(b.skip(3)),
    decreases b.len(),
{
    if b.len() >= 3 {
        lemma_base64_len(b.skip(3));
        lemma_base64_symbol((b[1] as int % 16) * 4 + b[2] as int / 64);
        lemma_base64_symbol(b[2] as int % 64);
        let e = base64_encoded(b);
        assert(e.skip(4) =~= base64_encoded(b.skip(3)));
    } else if b.len() == 2 {
        lemma_base64_symbol((b[1] as int % 16) * 4);
    }
}

proof fn lemma_bytes_from_symbols(a0: u8, a1: u8, a2: u8, c0: u8, c1: u8, c2: u8)
    requires
        a0 as int / 4 == c0 as int / 4,
        (a0 as int % 4) * 16 + a1 as int / 16 == (c0 as int % 4) * 16 + c1 as int / 16,
        (a1 as int % 16) * 4 + a2 as int / 64 == (c1 as int % 16) * 4 + c2 as int / 64,
        a2 as int % 64 == c2 as int % 64,
    ensures
        a0 == c0,
        a1 == c1,
        a2 == c2,
{
}

/// Standard base64 encoding is one-to-one: each text encodes at most one
/// byte string.
proof fn lemma_base64_injective(b: Seq<u8>, c: Seq<u8>)
    requires
        base64_encoded(b) == base64_encoded(c),
    ensures
        b == c,
    decreases b.len(),
{
    lemma_base64_len(b);
    lemma_base64_len(c);
    let e = base64_encoded(b);
    if b.len() == 0 {
        assert(b =~= c);
        return;
    }
    assert(e[0] == base64_symbol(b[0] as int / 4) && e[0] == base64_symbol(c[0] as int / 4));
    lemma_base64_symbol_injective(b[0] as int / 4, c[0] as int / 4);
    if b.len() == 1 {
        assert(c.len() == 1);
        lemma_base64_symbol_injective((b[0] as int % 4) * 16, (c[0] as int % 4) * 16);
        lemma_bytes_from_symbols(b[0], 0, 0, c[0], 0, 0);
        assert(b =~= c);
    } else if b.len() == 2 {
        assert(c.len() == 2);
        lemma_base64_symbol_injective((b[0] as int % 4) * 16 + b[1] as int / 16, (c[0] as int % 4) * 16 + c[1] as int / 16);
        lemma_base64_symbol_injective((b[1] as int % 16) * 4, (c[1] as int % 16) * 4);
        lemma_bytes_from_symbols(b[0], b[1], 0, c[0], c[1], 0);
        assert(b =~= c);
    } else {
        assert(c.len() >= 3);
        let ec = base64_encoded(c);
        assert(e[1] == base64_symbol((b[0] as int % 4) * 16 + b[1] as int / 16));
        assert(ec[1] == base64_symbol((c[0] as int % 4) * 16 + c[1] as int / 16));
        assert(e[2] == base64_symbol((b[1] as int % 16) * 4 + b[2] as int / 64));
        assert(ec[2] == base64_symbol((c[1] as int % 16) * 4 + c[2] as int / 64));
        assert(e[3] == base64_symbol(b[2] as int % 64));
        assert(ec[3] == base64_symbol(c[2] as int % 64));
        lemma_base64_symbol_injective((b[0] as int % 4) * 16 + b[1] as int / 16, (c[0] as int % 4) * 16 + c[1] as int / 16);
        lemma_base64_symbol_injective((b[1] as int % 16) * 4 + b[2] as int / 64, (c[1] as int % 16) * 4 + c[2] as int / 64);
        lemma_base64_symbol_injective(b[2] as int % 64, c[2] as int % 64);
        lemma_bytes_from_symbols(b[0], b[1], b[2], c[0], c[1], c[2]);
        lemma_base64_injective(b.skip(3), c.skip(3));
        assert(b =~= seq![b[0], b[1], b[2]] + b.skip(3));
        assert(c =~= seq![c[0], c[1], c[2]] + c.skip(3));
    }
}

/// Standard base64 decoding with canonical padding and no trailing bits:
/// the bytes whose encoding `text` is, or `None` when `text` is the
/// encoding of no bytes (a character outside the alphabet, missing or
/// misplaced padding, a bad length, or nonzero trailing bits). At most one
/// byte string qualifies (`lemma_base64_injective`).
pub open spec fn base64_decoded(text: Seq<char>) -> Option<Seq<u8>> {
    if exists|b: Seq<u8>| #[trigger] base64_encoded(b) == text {
        Some(choose|b: Seq<u8>| #[trigger] base64_encoded(b) == text)
    } else {
        None
    }
}

/// Decoding gives back what was encoded.
pub proof fn lemma_base64_roundtrip(b: Seq<u8>)
    ensures
        base64_decoded(base64_encoded(b)) == Some(b),
{
    let t = base64_encoded(b);
    assert(exists|x: Seq<u8>| #[trigger] base64_encoded(x) == t);
    let c = choose|x: Seq<u8>| #[trigger] base64_encoded(x) == t;
    lemma_base64_injective(c, b);
}

/// Largest plaintext AES-GCM accepts, in bytes.
pub open spec fn aes_gcm_max_plaintext() -> int {
    0x10_0000_0000
}

// ─── X25519 ──────────────────────────────────────────────────────────────

/// 32 random bytes for a secret key, from the operating system's generator
/// (`StaticSecret::random_from_rng(OsRng)`). Nothing is promised of the value.
#[verifier::external_body]
pub(crate) fn random_secret_key() -> (key: [u8; 32]) {
    x25519_dalek::StaticSecret::random_from_rng(rand::rngs::OsRng).to_bytes()
}

/// `PublicKey::from(&StaticSecret::from(secret))`: the X25519 public key
/// of `secret`.
#[verifier::external_body]
pub(crate) fn x25519_public_key(secret: &[u8; 32]) -> (public: [u8; 32])
    ensures
        public@ == x25519_public(secret@),
{
    let sk = x25519_dalek::StaticSecret::from(*secret);
    *x25519_dalek::PublicKey::from(&sk).as_bytes()
}

/// `PublicKey::from(bytes)`: the X25519 public key object for `bytes`.
/// The object is opaque here, so nothing is stated of it.
#[verifier::external_body]
pub(crate) fn x25519_public_key_object(bytes: [u8; 32]) -> (key: x25519_dalek::PublicKey) {
    x25519_dalek::PublicKey::from(bytes)
}

/// `StaticSecret::from(secret).diffie_hellman(&PublicKey::from(peer_public))`:
/// the X25519 shared secret. As the crate documents, both sides of an
/// exchange compute the same value: whoever holds a secret `other` whose
/// public key is `peer_public` gets this same result from `other` and the
/// public key of `secret`.
#[verifier::external_body]
pub(crate) fn x25519_diffie_hellman(secret: &[u8; 32], peer_public: &[u8; 32]) -> (shared: [u8; 32])
    ensures
        shared@ == x25519_shared(secret@, peer_public@),
        forall|other: Seq<u8>|
            #![trigger x25519_public(other)]
            other.len() == 32 && x25519_public(other) == peer_public@ ==> shared@ == x25519_shared(
                other,
                x25519_public(secret@),
            ),
{
    let sk = x25519_dalek::StaticSecret::from(*secret);
    sk.diffie_hellman(&x25519_dalek::PublicKey::from(*peer_public)).to_bytes()
}

// ─── Hashing and key derivation ──────────────────────────────────────────

/// `Sha256::digest(data)`.
#[verifier::external_body]
pub(crate) fn sha256_digest(data: &[u8]) -> (digest: [u8; 32])
    ensures
        digest@ == sha256(data@),
{
    sha2::Sha256::digest(data).into()
}

/// `Hkdf::<Sha256>::new(None, ikm).expand(info, &mut [0; 32])`. Expansion
/// fails only for outputs longer than 255 hash lengths, so 32 bytes always
/// succeed.
#[verifier::external_body]
pub(crate) fn hkdf_sha256_expand(ikm: &[u8; 32], info: &[u8]) -> (okm: [u8; 32])
    ensures
        okm@ == hkdf_sha256_32(ikm@, info@),
{
    let hk = Hkdf::<sha2::Sha256>::new(None, ikm);
    let mut okm = [0u8; 32];
    hk.expand(info, &mut okm).expect("32 bytes is a valid HKDF-SHA256 length");
    okm
}

/// `Argon2::default().hash_password_into(password, salt, &mut [0; 32])`.
/// With the default parameters, a 32-byte output and a 16-byte salt, the
/// call succeeds exactly for passwords of at most `0xFFFF_FFFF` bytes
/// (longer ones are refused as too long).
#[verifier::external_body]
pub(crate) fn argon2_hash(password: &[u8], salt: &[u8; 16]) -> (key: Result<[u8; 32], argon2::Error>)
    ensures
        key is Ok <==> password@.len() <= 0xFFFF_FFFF,
        key matches Ok(k) ==> k@ == argon2_key(password@, salt@),
{
    let mut key = [0u8; 32];
    match argon2::Argon2::default().hash_password_into(password, salt, &mut key) {
        Ok(()) => Ok(key),
        Err(e) => Err(e),
    }
}

// ─── AES-256-GCM ─────────────────────────────────────────────────────────

/// 12 random bytes for a nonce (`Aes256Gcm::generate_nonce(&mut OsRng)`).
/// Nothing is promised of the value.
#[verifier::external_body]
pub(crate) fn random_nonce() -> (nonce: [u8; 12]) {
    let n = aes_gcm::Aes256Gcm::generate_nonce(&mut aes_gcm::aead::OsRng);
    n.into()
}

/// `Aes256Gcm::new_from_slice(key)?.encrypt(nonce, plaintext)`. The key is
/// 32 bytes, so the cipher is always built; encryption fails only for a
/// plaintext longer than 2^36 bytes. The output is the ciphertext followed
/// by the 16-byte tag, and decryption with the same key and nonce gives the
/// plaintext back.
#[verifier::external_body]
pub(crate) fn aes256gcm_encrypt(key: &[u8; 32], nonce: &[u8; 12], plaintext: &[u8]) -> (ct: Result<Vec<u8>, aes_gcm::Error>)
    ensures
        ct is Ok <==> plaintext@.len() <= aes_gcm_max_plaintext(),
        ct matches Ok(c) ==> {
            &&& c@ == aes256gcm_seal(key@, nonce@, plaintext@)
            &&& c@.len() == plaintext@.len() + 16
            &&& aes256gcm_open(key@, nonce@, c@) == Some(plaintext@)
        },
{
    let cipher = aes_gcm::Aes256Gcm::new_from_slice(key).expect("32-byte key");
    cipher.encrypt(aes_gcm::Nonce::from_slice(nonce), plaintext)
}

/// `Aes256Gcm::new_from_slice(key)?.decrypt(nonce, ciphertext)`.
#[verifier::external_body]
pub(crate) fn aes256gcm_decrypt(key: &[u8; 32], nonce: &[u8; 12], ciphertext: &[u8]) -> (pt: Result<Vec<u8>, aes_gcm::Error>)
    ensures
        match aes256gcm_open(key@, nonce@, ciphertext@) {
            Some(p) => pt matches Ok(v) && v@ == p,
            None => pt is Err,
        },
{
    let cipher = aes_gcm::Aes256Gcm::new_from_slice(key).expect("32-byte key");
    cipher.decrypt(aes_gcm::Nonce::from_slice(nonce), ciphertext)
}

/// The text of `aead::Error` (its `Display` writes `aead::Error`).
#[verifier::external_body]
pub(crate) fn aead_error_text(e: &aes_gcm::Error) -> (s: String)
    ensures
        s@ == "aead::Error"@,
{
    e.to_string()
}

// ─── Text encodings ──────────────────────────────────────────────────────

/// `hex::encode(data)`: lowercase hexadecimal.
#[verifier::external_body]
pub(crate) fn hex_encode(data: &[u8]) -> (s: String)
    ensures
        s@ == hex_lower(data@),
{
    hex::encode(data)
}

/// `hex::decode(text)`: both digit cases accepted; odd length or a
/// non-digit is an error.
#[verifier::external_body]
pub(crate) fn hex_decode(text: &str) -> (r: Result<Vec<u8>, hex::FromHexError>)
    ensures
        match hex_decoded(text.spec_bytes()) {
            Some(b) => r matches Ok(v) && v@ == b,
            None => r is Err,
        },
{
    hex::decode(text)
}

/// `STANDARD.encode(data)`: base64 with padding.
#[verifier::external_body]
pub(crate) fn base64_encode(data: &[u8]) -> (s: String)
    requires
        data@.len() / 3 * 4 + 4 <= usize::MAX,
    ensures
        s@ == base64_encoded(data@),
{
    base64::engine::general_purpose::STANDARD.encode(data)
}

/// `STANDARD.decode(text)`: with the standard engine's canonical padding and
/// no trailing bits, it accepts exactly the canonical encodings.
#[verifier::external_body]
pub(crate) fn base64_decode(text: &str) -> (r: Result<Vec<u8>, base64::DecodeError>)
    ensures
        match base64_decoded(text@) {
            Some(b) => r matches Ok(v) && v@ == b,
            None => r is Err,
        },
{
    base64::engine::general_purpose::STANDARD.decode(text)
}

/// `String::from_utf8(bytes)`: succeeds exactly on valid UTF-8.
#[verifier::external_body]
pub(crate) fn string_from_utf8(bytes: Vec<u8>) -> (r: Result<String, std::string::FromUtf8Error>)
    ensures
        r is Ok <==> valid_utf8(bytes@),
        r matches Ok(s) ==> s@ == decode_utf8(bytes@),
{
    String::from_utf8(bytes)
}

// ─── Time and identifiers ────────────────────────────────────────────────

/// The current time, `Utc::now()`, in microseconds since the Unix epoch.
/// Nothing is promised of the value.
#[verifier::external_body]
pub(crate) fn now_micros() -> (t: i64) {
    chrono::Utc::now().timestamp_micros()
}

/// A fresh random identifier, `Uuid::new_v4().to_string()`. The value is
/// random; what every outcome shares is its form: `new_v4` fixes the version
/// (4) and variant bits, and `Display` writes the hyphenated lowercase text.
#[verifier::external_body]
pub(crate) fn new_uuid() -> (id: String)
    ensures
        uuid_v4_text(id@),
{
    uuid::Uuid::new_v4().to_string()
}

} // verus!
