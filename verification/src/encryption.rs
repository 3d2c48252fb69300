//! End-to-end encryption: X25519 identities with a SHA-256 fingerprint for
//! out-of-band verification, per-peer AES-256-GCM keys derived by HKDF from
//! the Diffie-Hellman shared secret, and message encryption and decryption.

use vstd::prelude::*;
use vstd::string::*;
use vstd::utf8::{decode_utf8, encode_utf8, valid_utf8};
use crate::primitives::{
    aead_error_text, aes256gcm_decrypt, aes256gcm_encrypt, aes256gcm_open, aes256gcm_seal,
    aes_gcm_max_plaintext, hex_digit, hex_encode, is_lower_hex_digit, hex_lower, hkdf_sha256_32, hkdf_sha256_expand,
    now_micros, random_nonce, random_secret_key, sha256, sha256_digest, string_from_utf8, x25519_diffie_hellman,
    x25519_public, x25519_public_key, x25519_public_key_object, x25519_shared,
};

verus! {

/// What can go wrong while encrypting or decrypting.
#[derive(Debug)]
pub enum EncryptionError {
    Encryption(String),
    Decryption(String),
    KeyDerivation(String),
    InvalidKey,
    PeerKeyNotFound(String),
}

impl EncryptionError {
    /// The message this error displays.
    pub fn message(&self) -> (s: String)
        ensures
            s@ == error_message(*self),
    {
        match self {
            EncryptionError::Encryption(m) => String::from_str("Encryption failed: ").concat(m.as_str()),
            EncryptionError::Decryption(m) => String::from_str("Decryption failed: ").concat(m.as_str()),
            EncryptionError::KeyDerivation(m) => String::from_str("Key derivation failed: ").concat(m.as_str()),
            EncryptionError::InvalidKey => String::from_str("Invalid key format"),
            EncryptionError::PeerKeyNotFound(m) => String::from_str("Peer key not found: ").concat(m.as_str()),
        }
    }
}

pub open spec fn error_message(e: EncryptionError) -> Seq<char> {
    match e {
        EncryptionError::Encryption(m) => "Encryption failed: "@ + m@,
        EncryptionError::Decryption(m) => "Decryption failed: "@ + m@,
        EncryptionError::KeyDerivation(m) => "Key derivation failed: "@ + m@,
        EncryptionError::InvalidKey => "Invalid key format"@,
        EncryptionError::PeerKeyNotFound(m) => "Peer key not found: "@ + m@,
    }
}

// ─── Fingerprints ────────────────────────────────────────────────────────

/// ASCII uppercase of a character (other characters unchanged).
pub open spec fn ascii_upper(c: char) -> char {
    if 'a' <= c <= 'z' {
        ((c as u32) - 32) as char
    } else {
        c
    }
}

/// The fingerprint shown for a public key: the first 16 hex digits of its
/// SHA-256 digest, uppercase.
pub open spec fn fingerprint_of(public_key: Seq<u8>) -> Seq<char> {
    hex_lower(sha256(public_key)).take(16).map_values(|c: char| ascii_upper(c))
}

proof fn lemma_hex_lower_len(bytes: Seq<u8>)
    ensures
        hex_lower(bytes).len() == 2 * bytes.len(),
    decreases bytes.len(),
{
    if bytes.len() > 0 {
        lemma_hex_lower_len(bytes.drop_last());
    }
}

/// An uppercase hexadecimal digit.
pub open spec fn is_upper_hex_digit(c: char) -> bool {
    ('0' <= c && c <= '9') || ('A' <= c && c <= 'F')
}

proof fn lemma_hex_lower_digits(bytes: Seq<u8>)
    ensures
        forall|i: int| 0 <= i < hex_lower(bytes).len() ==> is_lower_hex_digit(#[trigger] hex_lower(bytes)[i]),
    decreases bytes.len(),
{
    if bytes.len() > 0 {
        let init = bytes.drop_last();
        lemma_hex_lower_digits(init);
        let h = hex_lower(bytes);
        let hi = hex_lower(init);
        let v = bytes.last() as nat;
        assert(is_lower_hex_digit(hex_digit(v / 16)));
        assert(is_lower_hex_digit(hex_digit(v % 16)));
        assert forall|i: int| 0 <= i < h.len() implies is_lower_hex_digit(#[trigger] h[i]) by {
            if i < hi.len() {
                assert(h[i] == hi[i]);
            }
        }
    }
}

proof fn lemma_upper_of_lower_hex(c: char)
    requires
        is_lower_hex_digit(c),
    ensures
        is_upper_hex_digit(ascii_upper(c)),
{
    if 'a' <= c && c <= 'f' {
        assert(97 <= (c as u32) <= 102);
        assert(65 <= (c as u32) - 32 <= 70);
        assert(('A' as u32) == 65 && ('F' as u32) == 70);
    }
}

fn upper_char_str(s: &str, i: usize) -> (r: &str)
    requires
        i < s@.len() <= usize::MAX,
    ensures
        r@ == seq![ascii_upper(s@[i as int])],
{
    let c = s.get_char(i);
    if 'a' <= c && c <= 'z' {
        let letters = "ABCDEFGHIJKLMNOPQRSTUVWXYZ";
        proof {
            reveal_strlit("ABCDEFGHIJKLMNOPQRSTUVWXYZ");
        }
        let k = (c as u32 - 97) as usize;
        let r = letters.substring_char(k, k + 1);
        assert(r@ =~= seq![ascii_upper(c)]);
        r
    } else {
        let r = s.substring_char(i, i + 1);
        assert(r@ =~= seq![ascii_upper(c)]);
        r
    }
}

/// SHA-256 fingerprint of a public key for MITM protection (first 16 hex
/// digits, uppercase, for display).
pub fn compute_fingerprint(public_key: &[u8; 32]) -> (f: String)
    ensures
        f@ == fingerprint_of(public_key@),
        f@.len() == 16,
        forall|i: int| 0 <= i < 16 ==> is_upper_hex_digit(#[trigger] f@[i]),
{
    let digest = sha256_digest(public_key.as_slice());
    let hex = hex_encode(digest.as_slice());
    proof {
        lemma_hex_lower_len(digest@);
    }
    let mut f = String::new();
    let mut i: usize = 0;
    while i < 16
        invariant
            i <= 16,
            hex@ == hex_lower(sha256(public_key@)),
            hex@.len() == 64,
            f@ == hex@.take(i as int).map_values(|c: char| ascii_upper(c)),
        decreases 16 - i,
    {
        let piece = upper_char_str(hex.as_str(), i);
        f.append(piece);
        assert(hex@.take(i + 1).map_values(|c: char| ascii_upper(c)) =~= hex@.take(i as int).map_values(
            |c: char| ascii_upper(c),
        ).push(ascii_upper(hex@[i as int])));
        i = i + 1;
    }
    proof {
        lemma_hex_lower_digits(digest@);
        assert forall|j: int| 0 <= j < 16 implies is_upper_hex_digit(#[trigger] f@[j]) by {
            assert(f@[j] == ascii_upper(hex@[j]));
            lemma_upper_of_lower_hex(hex@[j]);
        }
    }
    f
}

} // verus!

verus! {

// ─── Identities ──────────────────────────────────────────────────────────

/// A user's cryptographic identity: an X25519 public key, its fingerprint,
/// and the secret key when the identity is our own.
pub struct CryptoIdentity {
    pub public_key: [u8; 32],
    pub key_fingerprint: String,
    private_key: Option<[u8; 32]>,
}

/// Context string bound into every derived message key.
pub open spec fn e2ee_info() -> Seq<u8> {
    "WireTalk-E2EE-v1".spec_bytes()
}

/// The AES-256 key a holder of `secret` derives for a peer's public key:
/// HKDF-SHA256 over the X25519 shared secret.
pub open spec fn message_key(secret: Seq<u8>, peer_public: Seq<u8>) -> Seq<u8> {
    hkdf_sha256_32(x25519_shared(secret, peer_public), e2ee_info())
}

impl Clone for CryptoIdentity {
    fn clone(&self) -> (r: Self)
        ensures
            r == *self,
    {
        CryptoIdentity {
            public_key: self.public_key,
            key_fingerprint: self.key_fingerprint.clone(),
            private_key: self.private_key,
        }
    }
}

impl CryptoIdentity {
    /// The secret key, when this identity holds one.
    pub closed spec fn secret(&self) -> Option<Seq<u8>> {
        match self.private_key {
            Some(k) => Some(k@),
            None => None,
        }
    }

    /// The public key.
    pub closed spec fn public(&self) -> Seq<u8> {
        self.public_key@
    }

    /// The fingerprint text.
    pub closed spec fn fingerprint(&self) -> Seq<char> {
        self.key_fingerprint@
    }

    /// The fingerprint matches the public key, and the public key is the
    /// one of the secret key, if any.
    pub open spec fn wf(&self) -> bool {
        &&& self.public().len() == 32
        &&& self.fingerprint() == fingerprint_of(self.public())
        &&& self.secret() matches Some(sk) ==> sk.len() == 32 && self.public() == x25519_public(sk)
    }

    /// Generate a new cryptographic identity from a random secret key.
    pub fn new() -> (id: CryptoIdentity)
        ensures
            id.wf(),
            id.secret() is Some,
    {
        Self::from_private_bytes(random_secret_key())
    }

    /// Create an identity from existing secret key bytes.
    pub fn from_private_bytes(private_bytes: [u8; 32]) -> (id: CryptoIdentity)
        ensures
            id.wf(),
            id.secret() == Some(private_bytes@),
            id.public() == x25519_public(private_bytes@),
    {
        let public_key = x25519_public_key(&private_bytes);
        let key_fingerprint = compute_fingerprint(&public_key);
        CryptoIdentity { public_key, key_fingerprint, private_key: Some(private_bytes) }
    }

    /// Create an identity from a public key only (for peers).
    pub fn from_public_key(public_key: [u8; 32]) -> (id: CryptoIdentity)
        ensures
            id.wf(),
            id.secret() is None,
            id.public() == public_key@,
    {
        let key_fingerprint = compute_fingerprint(&public_key);
        CryptoIdentity { public_key, key_fingerprint, private_key: None }
    }

    /// The public key as an X25519 `PublicKey` object.
    pub fn get_public_key(&self) -> x25519_dalek::PublicKey {
        x25519_public_key_object(self.public_key)
    }

    /// The public key bytes.
    pub fn public_key_bytes(&self) -> (k: [u8; 32])
        ensures
            k@ == self.public(),
    {
        self.public_key
    }

    /// The fingerprint text.
    pub fn fingerprint_text(&self) -> (f: String)
        ensures
            f@ == self.fingerprint(),
    {
        self.key_fingerprint.clone()
    }

    /// The secret key bytes, for secure storage.
    pub fn get_private_bytes(&self) -> (b: Option<[u8; 32]>)
        ensures
            match b {
                Some(k) => self.secret() == Some(k@),
                None => self.secret() is None,
            },
    {
        self.private_key
    }

    /// ECDH key agreement with a peer's public key, then HKDF to a 256-bit
    /// message key. Fails without a secret key. For a well-formed identity
    /// the key is the one the holder of the peer's secret derives for our
    /// public key.
    pub fn derive_shared_secret(&self, peer_public_key: &[u8; 32]) -> (r: Result<[u8; 32], EncryptionError>)
        ensures
            match self.secret() {
                None => r matches Err(EncryptionError::InvalidKey),
                Some(sk) => r matches Ok(k) && {
                    &&& k@ == message_key(sk, peer_public_key@)
                    &&& self.wf() ==> agreed_key(sk, self.public(), peer_public_key@, k@)
                },
            },
    {
        let private_key = match &self.private_key {
            Some(k) => k,
            None => return Err(EncryptionError::InvalidKey),
        };
        let shared = x25519_diffie_hellman(private_key, peer_public_key);
        let info = "WireTalk-E2EE-v1".as_bytes();
        let okm = hkdf_sha256_expand(&shared, info);
        Ok(okm)
    }
}

} // verus!

verus! {

// ─── Messages ────────────────────────────────────────────────────────────

/// An encrypted chat message.
pub struct EncryptedMessage {
    pub sender_public_key: [u8; 32],
    pub encrypted_content: Vec<u8>,
    /// AES-GCM nonce
    pub nonce: [u8; 12],
    /// Kept plaintext for routing
    pub room_id: String,
}

pub struct EncryptedMessageView {
    pub sender_public_key: Seq<u8>,
    pub encrypted_content: Seq<u8>,
    pub nonce: Seq<u8>,
    pub room_id: Seq<char>,
}

impl View for EncryptedMessage {
    type V = EncryptedMessageView;

    open spec fn view(&self) -> EncryptedMessageView {
        EncryptedMessageView {
            sender_public_key: self.sender_public_key@,
            encrypted_content: self.encrypted_content@,
            nonce: self.nonce@,
            room_id: self.room_id@,
        }
    }
}

impl Clone for EncryptedMessage {
    fn clone(&self) -> (r: Self)
        ensures
            r@ == self@,
    {
        EncryptedMessage {
            sender_public_key: self.sender_public_key,
            encrypted_content: self.encrypted_content.clone(),
            nonce: self.nonce,
            room_id: self.room_id.clone(),
        }
    }
}

/// Key exchange message for secure peer discovery.
pub struct KeyExchangeMessage {
    pub sender_id: String,
    pub sender_username: String,
    pub public_key: [u8; 32],
    pub key_fingerprint: String,
    /// Microseconds since the Unix epoch.
    pub timestamp: i64,
}

/// A known peer: its identity and the message key shared with it.
pub struct PeerEntry {
    pub peer_id: String,
    pub identity: CryptoIdentity,
    shared_secret: [u8; 32],
}

/// What is known of a peer, by value.
pub struct PeerRecord {
    pub identity: CryptoIdentity,
    pub shared_secret: Seq<u8>,
}

/// Message encryption/decryption engine: our identity and the peers whose
/// keys we hold, each at most once.
pub struct MessageCrypto {
    identity: CryptoIdentity,
    peers: Vec<PeerEntry>,
}

spec fn record_of(e: PeerEntry) -> PeerRecord {
    PeerRecord { identity: e.identity, shared_secret: e.shared_secret@ }
}

spec fn entries_map(s: Seq<PeerEntry>) -> Map<Seq<char>, PeerRecord>
    decreases s.len(),
{
    if s.len() == 0 {
        Map::empty()
    } else {
        entries_map(s.drop_last()).insert(s.last().peer_id@, record_of(s.last()))
    }
}

spec fn ids_distinct(s: Seq<PeerEntry>) -> bool {
    forall|i: int, j: int| 0 <= i < s.len() && 0 <= j < s.len() && i != j ==> s[i].peer_id@ != s[j].peer_id@
}

/// A message key for `peer_public` held by the owner of `secret`/`public`:
/// derived by HKDF from X25519, and equal to the key the peer derives.
pub open spec fn agreed_key(secret: Seq<u8>, public: Seq<u8>, peer_public: Seq<u8>, key: Seq<u8>) -> bool {
    &&& key == message_key(secret, peer_public)
    &&& forall|other: Seq<u8>|
        #![trigger x25519_public(other)]
        other.len() == 32 && x25519_public(other) == peer_public ==> key == message_key(other, public)
}

proof fn lemma_entries_map(s: Seq<PeerEntry>)
    requires
        ids_distinct(s),
    ensures
        forall|k: Seq<char>| #[trigger] entries_map(s).contains_key(k) <==> exists|i: int| 0 <= i < s.len() && s[i].peer_id@ == k,
        forall|i: int| 0 <= i < s.len() ==> #[trigger] entries_map(s)[s[i].peer_id@] == record_of(s[i]),
    decreases s.len(),
{
    if s.len() > 0 {
        let init = s.drop_last();
        assert(ids_distinct(init));
        lemma_entries_map(init);
        let m = entries_map(s);
        assert forall|k: Seq<char>| #[trigger] m.contains_key(k) <==> exists|i: int| 0 <= i < s.len() && s[i].peer_id@ == k by {
            if m.contains_key(k) && k != s.last().peer_id@ {
                assert(entries_map(init).contains_key(k));
                let i = choose|i: int| 0 <= i < init.len() && init[i].peer_id@ == k;
                assert(s[i].peer_id@ == k);
            }
            if exists|i: int| 0 <= i < s.len() && s[i].peer_id@ == k {
                let i = choose|i: int| 0 <= i < s.len() && s[i].peer_id@ == k;
                if i < s.len() - 1 {
                    assert(init[i].peer_id@ == k);
                }
            }
        }
        assert forall|i: int| 0 <= i < s.len() implies #[trigger] m[s[i].peer_id@] == record_of(s[i]) by {
            if i < s.len() - 1 {
                assert(init[i] == s[i]);
                assert(s[i].peer_id@ != s.last().peer_id@);
            }
        }
    }
}

impl MessageCrypto {
    /// Our identity.
    pub closed spec fn our_identity(&self) -> CryptoIdentity {
        self.identity
    }

    /// The known peers, by peer id.
    pub closed spec fn peer_map(&self) -> Map<Seq<char>, PeerRecord> {
        entries_map(self.peers@)
    }

    /// Our secret key.
    pub closed spec fn our_secret(&self) -> Seq<u8> {
        self.identity.secret().unwrap()
    }

    /// Well-formed: our identity holds its secret, peer ids are distinct and
    /// each peer's key is the one agreed with it.
    pub closed spec fn wf(&self) -> bool {
        &&& self.identity.wf()
        &&& self.identity.secret() is Some
        &&& ids_distinct(self.peers@)
        &&& forall|i: int|
            0 <= i < self.peers@.len() ==> agreed_key(
                self.our_secret(),
                self.identity.public(),
                #[trigger] self.peers@[i].identity.public(),
                self.peers@[i].shared_secret@,
            )
    }

    /// Every known peer's key is the one agreed with it.
    pub proof fn lemma_peer_keys(&self)
        requires
            self.wf(),
        ensures
            self.our_identity().wf(),
            self.our_identity().secret() == Some(self.our_secret()),
            forall|k: Seq<char>| #[trigger] self.peer_map().contains_key(k) ==> agreed_key(
                self.our_secret(),
                self.our_identity().public(),
                self.peer_map()[k].identity.public(),
                self.peer_map()[k].shared_secret,
            ),
    {
        lemma_entries_map(self.peers@);
        assert forall|k: Seq<char>| #[trigger] self.peer_map().contains_key(k) implies agreed_key(
            self.our_secret(),
            self.our_identity().public(),
            self.peer_map()[k].identity.public(),
            self.peer_map()[k].shared_secret,
        ) by {
            let i = choose|i: int| 0 <= i < self.peers@.len() && self.peers@[i].peer_id@ == k;
            assert(self.peer_map()[self.peers@[i].peer_id@] == record_of(self.peers@[i]));
        }
    }

    fn find(&self, peer_id: &String) -> (r: Option<usize>)
        requires
            self.wf(),
        ensures
            match r {
                Some(i) => i < self.peers@.len() && self.peers@[i as int].peer_id@ == peer_id@,
                None => !self.peer_map().contains_key(peer_id@),
            },
    {
        proof {
            lemma_entries_map(self.peers@);
        }
        let mut i: usize = 0;
        while i < self.peers.len()
            invariant
                i <= self.peers@.len(),
                forall|j: int| 0 <= j < i ==> self.peers@[j].peer_id@ != peer_id@,
            decreases self.peers@.len() - i,
        {
            if self.peers[i].peer_id == *peer_id {
                return Some(i);
            }
            i = i + 1;
        }
        None
    }

    /// Create a MessageCrypto with a freshly generated identity.
    pub fn new() -> (c: MessageCrypto)
        ensures
            c.wf(),
            c.peer_map() == Map::<Seq<char>, PeerRecord>::empty(),
    {
        MessageCrypto { identity: CryptoIdentity::new(), peers: Vec::new() }
    }

    /// Create a MessageCrypto from an existing secret key.
    pub fn from_private_key(private_bytes: [u8; 32]) -> (c: MessageCrypto)
        ensures
            c.wf(),
            c.our_identity().secret() == Some(private_bytes@),
            c.peer_map() == Map::<Seq<char>, PeerRecord>::empty(),
    {
        MessageCrypto { identity: CryptoIdentity::from_private_bytes(private_bytes), peers: Vec::new() }
    }

    /// Our public identity, for sharing.
    pub fn get_identity(&self) -> (id: &CryptoIdentity)
        ensures
            *id == self.our_identity(),
    {
        &self.identity
    }

    /// Whether a key is known for `peer_id`.
    pub fn has_peer(&self, peer_id: &str) -> (b: bool)
        requires
            self.wf(),
        ensures
            b == self.peer_map().contains_key(peer_id@),
    {
        proof {
            lemma_entries_map(self.peers@);
        }
        let key = String::from_str(peer_id);
        self.find(&key).is_some()
    }

    /// All known peer identities, by peer id.
    pub fn get_peer_identities(&self) -> (r: Vec<(String, CryptoIdentity)>)
        requires
            self.wf(),
        ensures
            forall|k: Seq<char>| self.peer_map().contains_key(k) <==> exists|i: int| 0 <= i < r@.len() && #[trigger] r@[i].0@ == k,
            forall|i: int| 0 <= i < r@.len() ==> self.peer_map()[#[trigger] r@[i].0@].identity == r@[i].1,
    {
        proof {
            lemma_entries_map(self.peers@);
        }
        let mut r: Vec<(String, CryptoIdentity)> = Vec::new();
        let mut i: usize = 0;
        while i < self.peers.len()
            invariant
                i <= self.peers@.len(),
                r@.len() == i,
                forall|j: int| 0 <= j < i ==> #[trigger] r@[j].0@ == self.peers@[j].peer_id@ && r@[j].1 == self.peers@[j].identity,
            decreases self.peers@.len() - i,
        {
            let e = &self.peers[i];
            r.push((e.peer_id.clone(), e.identity.clone()));
            i = i + 1;
        }
        proof {
            assert forall|k: Seq<char>| self.peer_map().contains_key(k) implies exists|i: int| 0 <= i < r@.len() && #[trigger] r@[i].0@ == k by {
                let j = choose|j: int| 0 <= j < self.peers@.len() && self.peers@[j].peer_id@ == k;
                assert(r@[j].0@ == k);
            }
            assert forall|i: int| 0 <= i < r@.len() implies self.peer_map()[#[trigger] r@[i].0@].identity == r@[i].1 by {
                assert(self.peer_map()[self.peers@[i].peer_id@] == record_of(self.peers@[i]));
            }
        }
        r
    }
}

} // verus!

verus! {

spec fn without_id(s: Seq<PeerEntry>, id: Seq<char>) -> Seq<PeerEntry>
    decreases s.len(),
{
    if s.len() == 0 {
        s
    } else if s.last().peer_id@ == id {
        without_id(s.drop_last(), id)
    } else {
        without_id(s.drop_last(), id).push(s.last())
    }
}

proof fn lemma_without_id(s: Seq<PeerEntry>, id: Seq<char>)
    ensures
        forall|j: int|
            #![trigger without_id(s, id)[j]]
            0 <= j < without_id(s, id).len() ==> without_id(s, id)[j].peer_id@ != id && s.contains(
                without_id(s, id)[j],
            ),
        forall|i: int| 0 <= i < s.len() && s[i].peer_id@ != id ==> without_id(s, id).contains(#[trigger] s[i]),
        ids_distinct(s) ==> ids_distinct(without_id(s, id)),
    decreases s.len(),
{
    if s.len() > 0 {
        let init = s.drop_last();
        lemma_without_id(init, id);
        let w = without_id(s, id);
        let wi = without_id(init, id);
        assert forall|j: int| 0 <= j < w.len() implies #[trigger] w[j].peer_id@ != id && s.contains(w[j]) by {
            if j < wi.len() {
                assert(w[j] == wi[j]);
                assert(init.contains(wi[j]));
                let k = choose|k: int| 0 <= k < init.len() && init[k] == wi[j];
                assert(s[k] == init[k]);
            } else {
                assert(s[s.len() - 1] == w[j]);
            }
        }
        assert forall|i: int| 0 <= i < s.len() && s[i].peer_id@ != id implies w.contains(#[trigger] s[i]) by {
            if i < s.len() - 1 {
                assert(init[i] == s[i]);
                assert(wi.contains(s[i]));
                let k = choose|k: int| 0 <= k < wi.len() && wi[k] == s[i];
                assert(w[k] == s[i]);
            } else {
                assert(w[w.len() - 1] == s[i]);
            }
        }
        if ids_distinct(s) {
            assert(ids_distinct(init));
            if s.last().peer_id@ != id {
                assert forall|a: int, b: int| 0 <= a < w.len() && 0 <= b < w.len() && a != b implies w[a].peer_id@ != w[b].peer_id@ by {
                    if a < wi.len() && b < wi.len() {
                        assert(w[a] == wi[a] && w[b] == wi[b]);
                    } else if a < wi.len() {
                        assert(w[a] == wi[a]);
                        let k = choose|k: int| 0 <= k < init.len() && init[k] == wi[a];
                        assert(s[k] == init[k]);
                    } else {
                        assert(w[b] == wi[b]);
                        let k = choose|k: int| 0 <= k < init.len() && init[k] == wi[b];
                        assert(s[k] == init[k]);
                    }
                }
            }
        }
    }
}

proof fn lemma_map_without_id(s: Seq<PeerEntry>, id: Seq<char>)
    requires
        ids_distinct(s),
    ensures
        entries_map(without_id(s, id)) == entries_map(s).remove(id),
{
    lemma_without_id(s, id);
    let w = without_id(s, id);
    lemma_entries_map(s);
    lemma_entries_map(w);
    assert forall|k: Seq<char>| #[trigger] entries_map(w).contains_key(k) <==> entries_map(s).remove(id).contains_key(k) by {
        if entries_map(w).contains_key(k) {
            let j = choose|j: int| 0 <= j < w.len() && w[j].peer_id@ == k;
            assert(w[j].peer_id@ != id);
            assert(s.contains(w[j]));
        }
        if entries_map(s).remove(id).contains_key(k) {
            let i = choose|i: int| 0 <= i < s.len() && s[i].peer_id@ == k;
            assert(w.contains(s[i]));
            let j = choose|j: int| 0 <= j < w.len() && w[j] == s[i];
            assert(w[j].peer_id@ == k);
        }
    }
    assert forall|k: Seq<char>| #[trigger] entries_map(w).contains_key(k) implies entries_map(w)[k] == entries_map(s).remove(id)[k] by {
        let j = choose|j: int| 0 <= j < w.len() && w[j].peer_id@ == k;
        assert(s.contains(w[j]));
        let i = choose|i: int| 0 <= i < s.len() && s[i] == w[j];
        assert(entries_map(w)[w[j].peer_id@] == record_of(w[j]));
        assert(entries_map(s)[s[i].peer_id@] == record_of(s[i]));
    }
    assert(entries_map(w) =~= entries_map(s).remove(id));
}

fn remove_entries(peers: &mut Vec<PeerEntry>, id: &String)
    ensures
        final(peers)@ == without_id(old(peers)@, id@),
{
    let ghost s = peers@;
    let mut kept: Vec<PeerEntry> = Vec::new();
    let mut i: usize = 0;
    while i < peers.len()
        invariant
            i <= peers@.len(),
            peers@ == s,
            kept@ == without_id(s.take(i as int), id@),
        decreases peers@.len() - i,
    {
        proof {
            assert(s.take(i + 1).drop_last() =~= s.take(i as int));
            assert(s.take(i + 1).last() == s[i as int]);
        }
        if peers[i].peer_id != *id {
            kept.push(clone_entry(&peers[i]));
        }
        i = i + 1;
    }
    assert(s.take(s.len() as int) =~= s);
    *peers = kept;
}

fn clone_entry(e: &PeerEntry) -> (r: PeerEntry)
    ensures
        r == *e,
{
    PeerEntry { peer_id: e.peer_id.clone(), identity: e.identity.clone(), shared_secret: e.shared_secret }
}

} // verus!

verus! {

/// Whether `m` is what `self` encrypts for `peer_id` from text `content`:
/// sent under our public key, sealed with the key agreed with that peer, and
/// opening back to the UTF-8 bytes of `content`.
pub open spec fn seals_for(c: MessageCrypto, m: EncryptedMessageView, peer_id: Seq<char>, content: Seq<char>) -> bool {
    &&& c.peer_map().contains_key(peer_id)
    &&& m.sender_public_key == c.our_identity().public()
    &&& m.encrypted_content == aes256gcm_seal(c.peer_map()[peer_id].shared_secret, m.nonce, encode_utf8(content))
    &&& aes256gcm_open(c.peer_map()[peer_id].shared_secret, m.nonce, m.encrypted_content) == Some(encode_utf8(content))
}

/// The text `self` reads from `m` as sent by `peer_id`, or `None` when
/// decryption fails.
pub open spec fn opens_to(c: MessageCrypto, m: EncryptedMessageView, peer_id: Seq<char>) -> Option<Seq<char>> {
    if !c.peer_map().contains_key(peer_id) || m.sender_public_key != c.peer_map()[peer_id].identity.public() {
        None
    } else {
        match aes256gcm_open(c.peer_map()[peer_id].shared_secret, m.nonce, m.encrypted_content) {
            Some(p) => if valid_utf8(p) {
                Some(decode_utf8(p))
            } else {
                None
            },
            None => None,
        }
    }
}

impl MessageCrypto {
    /// Add a peer's public key (after verification), deriving the message key
    /// shared with it; a key already held for `peer_id` is replaced.
    pub fn add_peer_key(&mut self, peer_id: &str, peer_identity: CryptoIdentity) -> (r: Result<(), EncryptionError>)
        requires
            old(self).wf(),
        ensures
            final(self).wf(),
            r is Ok,
            final(self).our_identity() == old(self).our_identity(),
            final(self).peer_map().dom() == old(self).peer_map().dom().insert(peer_id@),
            final(self).peer_map()[peer_id@].identity == peer_identity,
            forall|k: Seq<char>| k != peer_id@ && #[trigger] old(self).peer_map().contains_key(k) ==> final(self).peer_map()[k] == old(self).peer_map()[k],
    {
        let shared_secret = match self.identity.derive_shared_secret(&peer_identity.public_key) {
            Ok(k) => k,
            Err(e) => return Err(e),
        };
        let key = String::from_str(peer_id);
        let ghost s = self.peers@;
        let entry = PeerEntry { peer_id: key.clone(), identity: peer_identity, shared_secret };
        proof {
            lemma_entries_map(s);
        }
        match self.find(&key) {
            Some(i) => {
                self.peers.set(i, entry);
                proof {
                    let n = self.peers@;
                    assert(n == s.update(i as int, entry));
                    assert(ids_distinct(n)) by {
                        assert forall|a: int, b: int| 0 <= a < n.len() && 0 <= b < n.len() && a != b implies n[a].peer_id@ != n[b].peer_id@ by {
                            if a != i && b != i {
                                assert(n[a] == s[a] && n[b] == s[b]);
                            } else if a == i {
                                assert(n[b] == s[b]);
                            } else {
                                assert(n[a] == s[a]);
                            }
                        }
                    }
                    lemma_entries_map(n);
                    let m_old = entries_map(s);
                    let m_new = entries_map(n);
                    assert forall|k: Seq<char>| #[trigger] m_new.contains_key(k) <==> m_old.insert(peer_id@, record_of(entry)).contains_key(k) by {
                        if m_new.contains_key(k) {
                            let j = choose|j: int| 0 <= j < n.len() && n[j].peer_id@ == k;
                            if j != i {
                                assert(s[j] == n[j]);
                            }
                        }
                        if m_old.contains_key(k) {
                            let j = choose|j: int| 0 <= j < s.len() && s[j].peer_id@ == k;
                            if j != i {
                                assert(s[j] == n[j]);
                            } else {
                                assert(n[j].peer_id@ == k);
                            }
                        }
                        if k == peer_id@ {
                            assert(n[i as int].peer_id@ == k);
                        }
                    }
                    assert forall|k: Seq<char>| #[trigger] m_new.contains_key(k) implies m_new[k] == m_old.insert(peer_id@, record_of(entry))[k] by {
                        let j = choose|j: int| 0 <= j < n.len() && n[j].peer_id@ == k;
                        assert(m_new[n[j].peer_id@] == record_of(n[j]));
                        if j != i {
                            assert(s[j] == n[j]);
                            assert(m_old[s[j].peer_id@] == record_of(s[j]));
                        }
                    }
                    assert(m_new =~= m_old.insert(peer_id@, record_of(entry)));
                }
            },
            None => {
                self.peers.push(entry);
                proof {
                    let n = self.peers@;
                    assert(n.drop_last() =~= s);
                    assert(ids_distinct(n)) by {
                        assert forall|a: int, b: int| 0 <= a < n.len() && 0 <= b < n.len() && a != b implies n[a].peer_id@ != n[b].peer_id@ by {
                            if a < s.len() && b < s.len() {
                                assert(n[a] == s[a] && n[b] == s[b]);
                            } else if a < s.len() {
                                assert(n[a] == s[a]);
                                assert(entries_map(s).contains_key(s[a].peer_id@));
                            } else {
                                assert(n[b] == s[b]);
                                assert(entries_map(s).contains_key(s[b].peer_id@));
                            }
                        }
                    }
                }
            },
        }
        proof {
            let n = self.peers@;
            assert forall|i: int|
                0 <= i < n.len() implies agreed_key(
                    self.our_secret(),
                    self.identity.public(),
                    #[trigger] n[i].identity.public(),
                    n[i].shared_secret@,
                ) by {
                if n[i] != entry {
                    assert(s.contains(n[i]));
                    let j = choose|j: int| 0 <= j < s.len() && s[j] == n[i];
                    assert(agreed_key(self.our_secret(), self.identity.public(), s[j].identity.public(), s[j].shared_secret@));
                }
            }
        }
        Ok(())
    }
}

} // verus!

verus! {

fn arrays_equal(a: &[u8; 32], b: &[u8; 32]) -> (r: bool)
    ensures
        r == (a@ == b@),
{
    let mut i: usize = 0;
    while i < 32
        invariant
            i <= 32,
            a@.len() == 32,
            b@.len() == 32,
            forall|j: int| 0 <= j < i ==> a@[j] == b@[j],
        decreases 32 - i,
    {
        if a[i] != b[i] {
            return false;
        }
        i = i + 1;
    }
    assert(a@ =~= b@);
    true
}

impl MessageCrypto {
    /// Remove a peer (when it disconnects).
    pub fn remove_peer(&mut self, peer_id: &str)
        requires
            old(self).wf(),
        ensures
            final(self).wf(),
            final(self).our_identity() == old(self).our_identity(),
            final(self).peer_map() == old(self).peer_map().remove(peer_id@),
    {
        let key = String::from_str(peer_id);
        let ghost s = self.peers@;
        remove_entries(&mut self.peers, &key);
        proof {
            lemma_without_id(s, peer_id@);
            lemma_map_without_id(s, peer_id@);
            let n = self.peers@;
            assert forall|i: int|
                0 <= i < n.len() implies agreed_key(
                    self.our_secret(),
                    self.identity.public(),
                    #[trigger] n[i].identity.public(),
                    n[i].shared_secret@,
                ) by {
                assert(s.contains(n[i]));
                let j = choose|j: int| 0 <= j < s.len() && s[j] == n[i];
                assert(agreed_key(self.our_secret(), self.identity.public(), s[j].identity.public(), s[j].shared_secret@));
            }
        }
    }

    /// Verify a peer's key fingerprint for MITM protection.
    pub fn verify_peer_fingerprint(&self, peer_id: &str, expected_fingerprint: &str) -> (b: bool)
        requires
            self.wf(),
        ensures
            b == fingerprint_verifies(*self, peer_id@, expected_fingerprint@),
    {
        proof {
            lemma_entries_map(self.peers@);
        }
        let key = String::from_str(peer_id);
        match self.find(&key) {
            Some(i) => {
                let expected = String::from_str(expected_fingerprint);
                proof {
                    assert(self.peer_map()[self.peers@[i as int].peer_id@] == record_of(self.peers@[i as int]));
                }
                self.peers[i].identity.key_fingerprint == expected
            },
            None => false,
        }
    }

    /// Key exchange message announcing our identity.
    pub fn create_key_exchange(&self, our_id: &str, our_username: &str) -> (m: KeyExchangeMessage)
        ensures
            m.sender_id@ == our_id@,
            m.sender_username@ == our_username@,
            m.public_key@ == self.our_identity().public(),
            m.key_fingerprint@ == self.our_identity().fingerprint(),
    {
        KeyExchangeMessage {
            sender_id: String::from_str(our_id),
            sender_username: String::from_str(our_username),
            public_key: self.identity.public_key,
            key_fingerprint: self.identity.key_fingerprint.clone(),
            timestamp: now_micros(),
        }
    }

    /// Encrypt `content` for a peer under the given nonce.
    pub fn encrypt_message_with_nonce(&self, content: &str, peer_id: &str, room_id: &str, nonce: [u8; 12]) -> (r: Result<EncryptedMessage, EncryptionError>)
        requires
            self.wf(),
        ensures
            !self.peer_map().contains_key(peer_id@) ==> (r matches Err(EncryptionError::PeerKeyNotFound(p)) && p@ == peer_id@),
            self.peer_map().contains_key(peer_id@) && encode_utf8(content@).len() > aes_gcm_max_plaintext()
                ==> (r matches Err(EncryptionError::Encryption(t)) && t@ == "aead::Error"@),
            self.peer_map().contains_key(peer_id@) && encode_utf8(content@).len() <= aes_gcm_max_plaintext() ==> (r matches Ok(m) && {
                &&& seals_for(*self, m@, peer_id@, content@)
                &&& m.encrypted_content@.len() == encode_utf8(content@).len() + 16
                &&& m.nonce == nonce
                &&& m.room_id@ == room_id@
            }),
    {
        proof {
            lemma_entries_map(self.peers@);
        }
        let key = String::from_str(peer_id);
        let i = match self.find(&key) {
            Some(i) => i,
            None => return Err(EncryptionError::PeerKeyNotFound(key)),
        };
        let entry = &self.peers[i];
        proof {
            assert(self.peer_map()[self.peers@[i as int].peer_id@] == record_of(self.peers@[i as int]));
        }
        let bytes = content.as_bytes();
        match aes256gcm_encrypt(&entry.shared_secret, &nonce, bytes) {
            Ok(encrypted_content) => Ok(EncryptedMessage {
                sender_public_key: self.identity.public_key,
                encrypted_content,
                nonce,
                room_id: String::from_str(room_id),
            }),
            Err(e) => Err(EncryptionError::Encryption(aead_error_text(&e))),
        }
    }

    /// Encrypt a message for a specific peer under a fresh random nonce.
    pub fn encrypt_message(&self, content: &str, peer_id: &str, room_id: &str) -> (r: Result<EncryptedMessage, EncryptionError>)
        requires
            self.wf(),
        ensures
            !self.peer_map().contains_key(peer_id@) ==> (r matches Err(EncryptionError::PeerKeyNotFound(p)) && p@ == peer_id@),
            self.peer_map().contains_key(peer_id@) && encode_utf8(content@).len() > aes_gcm_max_plaintext()
                ==> (r matches Err(EncryptionError::Encryption(t)) && t@ == "aead::Error"@),
            self.peer_map().contains_key(peer_id@) && encode_utf8(content@).len() <= aes_gcm_max_plaintext() ==> (r matches Ok(m) && {
                &&& seals_for(*self, m@, peer_id@, content@)
                &&& m.encrypted_content@.len() == encode_utf8(content@).len() + 16
                &&& m.room_id@ == room_id@
            }),
    {
        let nonce = random_nonce();
        self.encrypt_message_with_nonce(content, peer_id, room_id, nonce)
    }

    /// Decrypt a message from a peer: the sender's key must be the one held
    /// for `peer_id`, the ciphertext must authenticate, and the plaintext
    /// must be UTF-8.
    pub fn decrypt_message(&self, encrypted_msg: &EncryptedMessage, peer_id: &str) -> (r: Result<String, EncryptionError>)
        requires
            self.wf(),
        ensures
            match opens_to(*self, encrypted_msg@, peer_id@) {
                Some(text) => r matches Ok(s) && s@ == text,
                None => r is Err,
            },
            !self.peer_map().contains_key(peer_id@) ==> (r matches Err(EncryptionError::PeerKeyNotFound(p)) && p@ == peer_id@),
            self.peer_map().contains_key(peer_id@) && encrypted_msg.sender_public_key@ != self.peer_map()[peer_id@].identity.public()
                ==> (r matches Err(EncryptionError::Decryption(t)) && t@ == "Sender public key mismatch"@),
            self.peer_map().contains_key(peer_id@) && encrypted_msg.sender_public_key@ == self.peer_map()[peer_id@].identity.public()
                && aes256gcm_open(self.peer_map()[peer_id@].shared_secret, encrypted_msg.nonce@, encrypted_msg.encrypted_content@) is None
                ==> (r matches Err(EncryptionError::Decryption(t)) && t@ == "aead::Error"@),
            self.peer_map().contains_key(peer_id@) && encrypted_msg.sender_public_key@ == self.peer_map()[peer_id@].identity.public()
                && (aes256gcm_open(self.peer_map()[peer_id@].shared_secret, encrypted_msg.nonce@, encrypted_msg.encrypted_content@) matches Some(p)
                && !valid_utf8(p))
                ==> (r matches Err(EncryptionError::Decryption(t)) && "Invalid UTF-8: "@.is_prefix_of(t@)),
    {
        proof {
            lemma_entries_map(self.peers@);
        }
        let key = String::from_str(peer_id);
        let i = match self.find(&key) {
            Some(i) => i,
            None => return Err(EncryptionError::PeerKeyNotFound(key)),
        };
        let entry = &self.peers[i];
        proof {
            assert(self.peer_map()[self.peers@[i as int].peer_id@] == record_of(self.peers@[i as int]));
        }
        if !arrays_equal(&encrypted_msg.sender_public_key, &entry.identity.public_key) {
            return Err(EncryptionError::Decryption(String::from_str("Sender public key mismatch")));
        }
        let plaintext = match aes256gcm_decrypt(&entry.shared_secret, &encrypted_msg.nonce, encrypted_msg.encrypted_content.as_slice()) {
            Ok(p) => p,
            Err(e) => return Err(EncryptionError::Decryption(aead_error_text(&e))),
        };
        match string_from_utf8(plaintext) {
            Ok(s) => Ok(s),
            Err(e) => {
                let prefix = String::from_str("Invalid UTF-8: ");
                let detail = e.to_string();
                let msg = prefix.concat(detail.as_str());
                assert(msg@.subrange(0, prefix@.len() as int) =~= prefix@);
                Err(EncryptionError::Decryption(msg))
            },
        }
    }
}

} // verus!

verus! {

/// Two parties that hold each other's public keys read each other's
/// messages: whatever `alice` encrypts for her name of `bob`, `bob` decrypts
/// to the same text as sent by his name of `alice`.
pub proof fn law_message_roundtrip(
    alice: MessageCrypto,
    bob: MessageCrypto,
    bob_at_alice: Seq<char>,
    alice_at_bob: Seq<char>,
    m: EncryptedMessageView,
    content: Seq<char>,
)
    requires
        alice.wf(),
        bob.wf(),
        alice.peer_map().contains_key(bob_at_alice),
        alice.peer_map()[bob_at_alice].identity.public() == bob.our_identity().public(),
        bob.peer_map().contains_key(alice_at_bob),
        bob.peer_map()[alice_at_bob].identity.public() == alice.our_identity().public(),
        seals_for(alice, m, bob_at_alice, content),
    ensures
        opens_to(bob, m, alice_at_bob) == Some(content),
{
    alice.lemma_peer_keys();
    bob.lemma_peer_keys();
    let sk_b = bob.our_secret();
    let pub_a = alice.our_identity().public();
    let k_a = alice.peer_map()[bob_at_alice].shared_secret;
    let k_b = bob.peer_map()[alice_at_bob].shared_secret;
    assert(alice.peer_map().contains_key(bob_at_alice));
    assert(bob.peer_map().contains_key(alice_at_bob));
    assert(x25519_public(sk_b) == bob.our_identity().public());
    assert(k_a == message_key(sk_b, pub_a));
    assert(k_b == message_key(sk_b, pub_a));
    vstd::utf8::encode_utf8_valid_utf8(content);
    vstd::utf8::encode_utf8_decode_utf8(content);
}

/// Whether fingerprint verification of `peer_id` against `expected`
/// succeeds, as `verify_peer_fingerprint` decides it.
pub open spec fn fingerprint_verifies(c: MessageCrypto, peer_id: Seq<char>, expected: Seq<char>) -> bool {
    c.peer_map().contains_key(peer_id) && c.peer_map()[peer_id].identity.fingerprint() == expected
}

/// Fingerprints protect against a man in the middle: a peer held with a
/// well-formed identity (its fingerprint computed from its public key, as
/// every constructor makes it) verifies against the fingerprint of that key
/// and against no other text, and a peer whose key we do not hold verifies
/// against nothing.
pub proof fn law_fingerprint_verification(c: MessageCrypto, peer_id: Seq<char>, expected: Seq<char>)
    requires
        c.wf(),
    ensures
        !c.peer_map().contains_key(peer_id) ==> !fingerprint_verifies(c, peer_id, expected),
        c.peer_map().contains_key(peer_id) && c.peer_map()[peer_id].identity.wf() ==> (fingerprint_verifies(
            c,
            peer_id,
            expected,
        ) <==> expected == fingerprint_of(c.peer_map()[peer_id].identity.public())),
{
}

/// Both sides of a key exchange derive the same message key: what the holder
/// of `a` derives for the public key of `b` equals what the holder of `b`
/// derives for the public key of `a`.
pub proof fn law_key_agreement(a: CryptoIdentity, b: CryptoIdentity, key_a: Seq<u8>, key_b: Seq<u8>)
    requires
        a.wf(),
        b.wf(),
        a.secret() is Some,
        b.secret() is Some,
        agreed_key(a.secret().unwrap(), a.public(), b.public(), key_a),
        agreed_key(b.secret().unwrap(), b.public(), a.public(), key_b),
    ensures
        key_a == key_b,
{
    let sk_b = b.secret().unwrap();
    assert(x25519_public(sk_b) == b.public());
}

} // verus!
