//! Error kinds shared by framing, cipher, handshake and tunnel operations.

use vstd::prelude::*;

verus! {

/// Every way a core operation can fail. Each operation's contract states
/// exactly which inputs produce which variant.
#[derive(Clone, Copy, PartialEq, Eq, Structural, Debug)]
pub enum Error {
    /// A framing view or a decrypt saw fewer bytes than the record needs.
    BufferLengthTooShort { expected: usize, got: usize },
    /// Transport ciphertext length is not a multiple of the cipher block.
    BufferLengthInvalid,
    /// The leading message-type byte does not match the expected record.
    InvalidMessageType,
    /// Poly1305 tag mismatch while opening an AEAD payload.
    AeadError,
    /// The first message authentication code did not verify.
    MacMismatch,
    /// No entry under the given receiver index.
    UnknownIndex,
    /// The send counter reached its upper bound.
    CounterExhausted,
    /// Encryption was requested while no session is established.
    NoSession,
    /// No fresh local index could be picked.
    Exhausted,
}

impl Error {
    /// A short human-readable name for the error kind.
    pub fn describe(&self) -> (r: &'static str)
        ensures
            r@.len() > 0,
    {
        let r = match self {
            Error::BufferLengthTooShort { .. } => "buffer length too short",
            Error::BufferLengthInvalid => "buffer length invalid",
            Error::InvalidMessageType => "invalid message type",
            Error::AeadError => "aead error",
            Error::MacMismatch => "mac mismatch",
            Error::UnknownIndex => "unknown index",
            Error::CounterExhausted => "counter exhausted",
            Error::NoSession => "no session",
            Error::Exhausted => "exhausted",
        };
        proof {
            reveal_strlit("buffer length too short");
            reveal_strlit("buffer length invalid");
            reveal_strlit("invalid message type");
            reveal_strlit("aead error");
            reveal_strlit("mac mismatch");
            reveal_strlit("unknown index");
            reveal_strlit("counter exhausted");
            reveal_strlit("no session");
            reveal_strlit("exhausted");
        }
        r
    }
}

} // verus!
