# wiretalk

The core of WireTalk, a serverless, end-to-end encrypted chat client that
talks over a libp2p network and, across networks, a WireGuard tunnel. The
library is written in Verus: its functions state their behaviour in
`requires` / `ensures` and are proved against it. The exception is the
small wrappers in `src/primitives.rs` around the outside crates
(cryptography, encodings, time, UUIDs): their contracts are trusted, taken
from those crates' sources and documentation, and everything else is
proved on top of them.

## Layout

- `src/encryption.rs`: X25519 identities and their fingerprints, per-peer
  message keys (HKDF over the shared secret), AES-256-GCM message
  encryption and decryption.
- `src/secure_storage.rs`: the password-protected vault (Argon2 key,
  AES-256-GCM, base64 fields).
- `src/wireguard.rs`: the WireGuard peer table, the `wg-quick` file text,
  the `wg` command arguments and the config shared with peers.
- `src/chat.rs`: rooms, the message log, outgoing message plans (never in
  the clear while encryption is on), what an incoming message, key exchange
  or invitation does.
- `src/network.rs`: connected peers and room subscriptions of the P2P layer.
- `src/primitives.rs`: the trusted calls into the cryptography, encoding,
  time and UUID crates, each with the contract its crate documents.
- `src/text.rs`: decimal rendering, splitting, parsing and UTF-8 cutting.
- `tests/`: tests of the library on concrete values.
- `app/`: the desktop application (Tauri commands, the libp2p swarm,
  running the WireGuard tools, file I/O), which hands the library plain
  values and acts on what it returns.

Laws that span several operations are public proof functions named
`law_*` (for example `encryption::law_message_roundtrip`,
`secure_storage::law_vault_roundtrip`, `wireguard::law_remove_undoes_add`).
