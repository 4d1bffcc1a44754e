//! Verified core of a WireGuard-style secure tunnel: the
//! Noise_IKpsk2_25519_ChaChaPoly_BLAKE2s handshake, fixed-layout packet
//! framing, transport encryption under a strict nonce discipline, and the
//! per-peer session table.

pub mod crypto;
pub mod cipher;
pub mod error;
pub mod handshake;
pub mod packet;
pub mod tunnel;

pub use error::Error;
