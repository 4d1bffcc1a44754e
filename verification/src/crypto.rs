//! Cryptographic primitives: BLAKE2s hashing and MACs, HMAC-BLAKE2s, the
//! HKDF-style key-derivation chain, ChaCha20-Poly1305 sealing and opening
//! under the fixed WireGuard nonce form, and X25519 scalar multiplication.
//!
//! The primitives themselves come from outside crates; each is reached
//! through one trusted wrapper whose contract names its result. The
//! key-derivation chain is the library's own logic, verified against the
//! HMAC wrapper's contract.

use vstd::prelude::*;

use chacha20poly1305::{AeadInPlace, KeyInit};

use crate::error::Error;

verus! {

/// The BLAKE2s-256 digest (32 bytes) of a byte sequence.
pub uninterp spec fn blake2s_of(data: Seq<u8>) -> Seq<u8>;

/// The BLAKE2s keyed MAC with 16-byte digest of `data` under `key`.
pub uninterp spec fn blake2s_mac_of(key: Seq<u8>, data: Seq<u8>) -> Seq<u8>;

/// The HMAC (RFC 2104) with BLAKE2s-256 as inner hash of `data` under `key`.
pub uninterp spec fn hmac_blake2s_of(key: Seq<u8>, data: Seq<u8>) -> Seq<u8>;

/// Ciphertext followed by the 16-byte tag that ChaCha20-Poly1305 produces
/// for `pt` under `key`, associated data `aad`, and the 12-byte nonce
/// `[0, 0, 0, 0] ++ LE64(counter)`.
pub uninterp spec fn chacha_seal_of(key: Seq<u8>, counter: u64, aad: Seq<u8>, pt: Seq<u8>) -> Seq<u8>;

/// What ChaCha20-Poly1305 decryption returns for `ct` and `tag` under `key`,
/// `aad` and the nonce `[0, 0, 0, 0] ++ LE64(counter)`: the plaintext when
/// the tag verifies, `None` otherwise.
pub uninterp spec fn chacha_open_of(
    key: Seq<u8>,
    counter: u64,
    aad: Seq<u8>,
    ct: Seq<u8>,
    tag: Seq<u8>,
) -> Option<Seq<u8>>;

/// The X25519 function of RFC 7748 on a (clamped) 32-byte scalar and a
/// 32-byte point encoding.
pub uninterp spec fn x25519_of(scalar: Seq<u8>, point: Seq<u8>) -> Seq<u8>;

/// The X25519 base point, u = 9.
pub const X25519_BASEPOINT: [u8; 32] = [
    9, 0, 0, 0, 0, 0, 0, 0, 0, 0, 0, 0, 0, 0, 0, 0, 0, 0, 0, 0, 0, 0, 0, 0, 0, 0, 0, 0, 0, 0, 0,
    0,
];

/// HASH(one ∥ two): BLAKE2s-256 over the concatenation of the two inputs.
///
/// Relies on blake2's `Blake2s<U32>` implementing `digest::Digest`:
/// streamed updates hash the concatenation of their inputs, and the
/// digest is 32 bytes and a function of that input alone.
#[verifier::external_body]
pub fn hash(one: &[u8], two: &[u8]) -> (r: [u8; 32])
    ensures
        r@ == blake2s_of(one@ + two@),
{
    let mut digest: blake2::Blake2s<blake2::digest::consts::U32> = blake2::digest::Digest::new();
    blake2::digest::Digest::update(&mut digest, one);
    blake2::digest::Digest::update(&mut digest, two);
    blake2::digest::Digest::finalize(digest).into()
}

/// MAC(key, txt): BLAKE2s keyed MAC with a 16-byte digest.
///
/// Relies on blake2's `Blake2sMac<U16>` implementing `digest::Mac`:
/// `new_from_slice` accepts any key of at most 32 bytes, and the digest
/// is 16 bytes and a function of key and input alone.
#[verifier::external_body]
pub fn mac(key: &[u8], txt: &[u8]) -> (r: [u8; 16])
    requires
        key@.len() >= 1,
        key@.len() <= 32,
    ensures
        r@ == blake2s_mac_of(key@, txt@),
{
    let mut digest: blake2::Blake2sMac<blake2::digest::consts::U16> =
        blake2::digest::Mac::new_from_slice(key).unwrap();
    blake2::digest::Mac::update(&mut digest, txt);
    blake2::digest::Mac::finalize(digest).into_bytes().into()
}

/// HMAC(key, one ∥ two) with BLAKE2s-256 as the inner hash.
///
/// Relies on hmac's `SimpleHmac<Blake2s<U32>>`: `new_from_slice` accepts a
/// key of any length (long keys are first hashed, per RFC 2104), streamed
/// updates authenticate the concatenation of their inputs, and the output
/// is 32 bytes and a function of key and input alone.
#[verifier::external_body]
pub fn hmac(key: &[u8], one: &[u8], two: &[u8]) -> (r: [u8; 32])
    ensures
        r@ == hmac_blake2s_of(key@, one@ + two@),
{
    let mut digest: hmac::SimpleHmac<blake2::Blake2s<blake2::digest::consts::U32>> =
        blake2::digest::Mac::new_from_slice(key).unwrap();
    blake2::digest::Mac::update(&mut digest, one);
    blake2::digest::Mac::update(&mut digest, two);
    blake2::digest::Mac::finalize(digest).into_bytes().into()
}

/// AEAD_SEAL: encrypt `txt` in place under `key` and the nonce
/// `[0, 0, 0, 0] ++ LE64(cnt)`, returning the detached 16-byte tag.
///
/// Relies on chacha20poly1305's `ChaCha20Poly1305::encrypt_in_place_detached`:
/// it is deterministic in key, nonce, associated data and plaintext,
/// replaces the buffer by the equal-length ciphertext, returns a 16-byte
/// tag, succeeds on every message shorter than its block-count limit
/// (2^32 blocks of 64 bytes), and its paired decryption recovers the
/// plaintext from the ciphertext and tag it produced.
#[verifier::external_body]
pub fn seal(key: &[u8], cnt: u64, aad: &[u8], txt: &mut Vec<u8>) -> (tag: [u8; 16])
    requires
        key@.len() == 32,
        old(txt)@.len() <= 0xffff_ffff,
    ensures
        final(txt)@.len() == old(txt)@.len(),
        final(txt)@ + tag@ == chacha_seal_of(key@, cnt, aad@, old(txt)@),
        chacha_open_of(key@, cnt, aad@, final(txt)@, tag@) == Some(old(txt)@),
{
    let mut nonce = [0u8; 12];
    nonce[4..12].copy_from_slice(&cnt.to_le_bytes());
    let cipher = chacha20poly1305::ChaCha20Poly1305::new_from_slice(key).unwrap();
    let tag = cipher
        .encrypt_in_place_detached(&nonce.into(), aad, txt.as_mut_slice())
        .unwrap();
    tag.into()
}

/// AEAD_OPEN: authenticate and decrypt `txt` in place under `key` and the
/// nonce `[0, 0, 0, 0] ++ LE64(cnt)` against the detached `tag`.
///
/// Relies on chacha20poly1305's `ChaCha20Poly1305::decrypt_in_place_detached`:
/// the tag check is deterministic in key, nonce, associated data,
/// ciphertext and tag; on success the buffer is replaced by the
/// equal-length plaintext; on tag mismatch the buffer is left unchanged
/// and an error is returned.
#[verifier::external_body]
pub fn open(key: &[u8], cnt: u64, aad: &[u8], txt: &mut Vec<u8>, tag: &[u8]) -> (r: Result<(), Error>)
    requires
        key@.len() == 32,
        old(txt)@.len() <= 0xffff_ffff,
        tag@.len() == 16,
    ensures
        r is Ok ==> final(txt)@.len() == old(txt)@.len(),
        r is Ok ==> Some(final(txt)@) == chacha_open_of(key@, cnt, aad@, old(txt)@, tag@),
        r is Err ==> final(txt)@ == old(txt)@ && r->Err_0 == Error::AeadError,
        r is Ok <==> chacha_open_of(key@, cnt, aad@, old(txt)@, tag@) is Some,
{
    let mut nonce = [0u8; 12];
    nonce[4..12].copy_from_slice(&cnt.to_le_bytes());
    let cipher = chacha20poly1305::ChaCha20Poly1305::new_from_slice(key).unwrap();
    match cipher.decrypt_in_place_detached(
        &nonce.into(),
        aad,
        txt.as_mut_slice(),
        chacha20poly1305::Tag::from_slice(tag),
    ) {
        Ok(()) => Ok(()),
        Err(_) => Err(Error::AeadError),
    }
}

/// DH(scalar, point): X25519 scalar multiplication.
///
/// Relies on x25519-dalek's free function `x25519`: it clamps the scalar
/// and computes the RFC 7748 function, a 32-byte result depending on its
/// two arguments alone.
#[verifier::external_body]
pub fn dh(scalar: &[u8; 32], point: &[u8; 32]) -> (r: [u8; 32])
    ensures
        r@ == x25519_of(scalar@, point@),
{
    x25519_dalek::x25519(*scalar, *point)
}

/// Fills 32 bytes from the operating system's randomness source.
///
/// Relies on rand_core's `OsRng` (re-exported by chacha20poly1305's aead
/// facade) implementing `RngCore::fill_bytes`. Nothing is promised of the
/// bytes drawn.
#[verifier::external_body]
pub(crate) fn random_bytes() -> (r: [u8; 32]) {
    let mut b = [0u8; 32];
    chacha20poly1305::aead::rand_core::RngCore::fill_bytes(
        &mut chacha20poly1305::aead::OsRng,
        &mut b,
    );
    b
}

/// DH_BASE(scalar): the public point of a scalar, X25519 against the base
/// point u = 9.
pub fn dh_base(scalar: &[u8; 32]) -> (r: [u8; 32])
    ensures
        r@ == x25519_of(scalar@, X25519_BASEPOINT@),
{
    dh(scalar, &X25519_BASEPOINT)
}

/// T0 of the key-derivation chain: the extraction step.
pub open spec fn kdf_t0(key: Seq<u8>, txt: Seq<u8>) -> Seq<u8> {
    hmac_blake2s_of(key, txt)
}

/// T1 of the key-derivation chain.
pub open spec fn kdf_t1(key: Seq<u8>, txt: Seq<u8>) -> Seq<u8> {
    hmac_blake2s_of(kdf_t0(key, txt), seq![1u8])
}

/// T2 of the key-derivation chain.
pub open spec fn kdf_t2(key: Seq<u8>, txt: Seq<u8>) -> Seq<u8> {
    hmac_blake2s_of(kdf_t0(key, txt), kdf_t1(key, txt) + seq![2u8])
}

/// T3 of the key-derivation chain.
pub open spec fn kdf_t3(key: Seq<u8>, txt: Seq<u8>) -> Seq<u8> {
    hmac_blake2s_of(kdf_t0(key, txt), kdf_t2(key, txt) + seq![3u8])
}

/// KDF_1(key, txt) = (T1).
pub fn kdf1(key: &[u8], txt: &[u8]) -> (r: [u8; 32])
    ensures
        r@ == kdf_t1(key@, txt@),
{
    let empty: [u8; 0] = [];
    let t0 = hmac(key, txt, &empty);
    proof {
        assert(txt@ + empty@ =~= txt@);
    }
    let t1 = hmac(&t0, &[1u8], &empty);
    proof {
        assert([1u8]@ + empty@ =~= seq![1u8]);
    }
    t1
}

/// KDF_2(key, txt) = (T1, T2).
pub fn kdf2(key: &[u8], txt: &[u8]) -> (r: ([u8; 32], [u8; 32]))
    ensures
        r.0@ == kdf_t1(key@, txt@),
        r.1@ == kdf_t2(key@, txt@),
{
    let empty: [u8; 0] = [];
    let t0 = hmac(key, txt, &empty);
    proof {
        assert(txt@ + empty@ =~= txt@);
    }
    let t1 = hmac(&t0, &[1u8], &empty);
    proof {
        assert([1u8]@ + empty@ =~= seq![1u8]);
    }
    let t2 = hmac(&t0, &t1, &[2u8]);
    proof {
        assert(t1@ + [2u8]@ =~= t1@ + seq![2u8]);
    }
    (t1, t2)
}

/// KDF_3(key, txt) = (T1, T2, T3).
pub fn kdf3(key: &[u8], txt: &[u8]) -> (r: ([u8; 32], [u8; 32], [u8; 32]))
    ensures
        r.0@ == kdf_t1(key@, txt@),
        r.1@ == kdf_t2(key@, txt@),
        r.2@ == kdf_t3(key@, txt@),
{
    let empty: [u8; 0] = [];
    let t0 = hmac(key, txt, &empty);
    proof {
        assert(txt@ + empty@ =~= txt@);
    }
    let t1 = hmac(&t0, &[1u8], &empty);
    proof {
        assert([1u8]@ + empty@ =~= seq![1u8]);
    }
    let t2 = hmac(&t0, &t1, &[2u8]);
    proof {
        assert(t1@ + [2u8]@ =~= t1@ + seq![2u8]);
    }
    let t3 = hmac(&t0, &t2, &[3u8]);
    proof {
        assert(t2@ + [3u8]@ =~= t2@ + seq![3u8]);
    }
    (t1, t2, t3)
}

} // verus!
