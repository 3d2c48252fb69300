//! WireTalk core: the verified logic of a serverless, end-to-end encrypted
//! chat client (identities and message encryption, the encrypted vault,
//! WireGuard configuration, peer bookkeeping and chat state).

pub mod text;
pub mod wireguard;
pub mod primitives;
pub mod encryption;
pub mod secure_storage;
pub mod chat;
pub mod network;
