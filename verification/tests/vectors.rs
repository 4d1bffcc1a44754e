//! Reference vectors for the cryptographic primitives: BLAKE2s (RFC 7693),
//! HMAC (RFC 2104 construction cross-checked over BLAKE2s), the
//! key-derivation chain, X25519 (RFC 7748), and the AEAD cross-checked
//! against a direct ChaCha20-Poly1305 computation.

use blake2::digest::Mac;
use chacha20poly1305::{AeadInPlace, KeyInit};
use wireguard_core::crypto::{dh, dh_base, hash, hmac, kdf1, kdf2, kdf3, mac, open, seal, X25519_BASEPOINT};
use wireguard_core::handshake::{INITIAL_C_K, INITIAL_H_H};

fn hex(bytes: &[u8]) -> String {
    let mut s = String::new();
    for b in bytes {
        s.push_str(&format!("{:02x}", b));
    }
    s
}

fn unhex(s: &str) -> Vec<u8> {
    let chars: Vec<u8> = s.as_bytes().to_vec();
    let mut out = Vec::new();
    let mut i = 0;
    while i + 1 < chars.len() {
        let hi = (chars[i] as char).to_digit(16).unwrap() as u8;
        let lo = (chars[i + 1] as char).to_digit(16).unwrap() as u8;
        out.push(hi * 16 + lo);
        i += 2;
    }
    out
}

#[test]
fn blake2s_rfc7693_abc() {
    // RFC 7693 appendix B: BLAKE2s-256("abc").
    let digest = hash(b"ab", b"c");
    assert_eq!(
        hex(&digest),
        "508c5e8c327c14e2e1a72ba34eeb452f37458b209ed63a294d999b4c86675982"
    );
}

#[test]
fn blake2s_streams_concatenation() {
    assert_eq!(hash(b"abc", b""), hash(b"", b"abc"));
    assert_eq!(hash(b"abc", b""), hash(b"a", b"bc"));
}

#[test]
fn initial_chain_constants_match_their_definitions() {
    // INITIAL_C_K = HASH(CONSTRUCTION), INITIAL_H_H = HASH(INITIAL_C_K ∥ IDENTIFIER).
    let c_k = hash(b"Noise_IKpsk2_25519_ChaChaPoly_BLAKE2s", b"");
    assert_eq!(c_k, INITIAL_C_K);
    let h_h = hash(&INITIAL_C_K, b"WireGuard v1 zx2c4 Jason@zx2c4.com");
    assert_eq!(h_h, INITIAL_H_H);
}

#[test]
fn hmac_matches_rfc2104_construction() {
    // HMAC(k, m) = H((k ^ opad) ∥ H((k ^ ipad) ∥ m)) with block size 64.
    let key = [0x0bu8; 20];
    let msg = b"Hi There";
    let mut ipad = [0x36u8; 64];
    let mut opad = [0x5cu8; 64];
    for i in 0..key.len() {
        ipad[i] ^= key[i];
        opad[i] ^= key[i];
    }
    let inner = hash(&ipad, msg);
    let outer = hash(&opad, &inner);
    assert_eq!(hmac(&key, msg, b""), outer);
}

#[test]
fn hmac_two_part_input_concatenates() {
    let key = [7u8; 32];
    assert_eq!(hmac(&key, b"ab", b"cd"), hmac(&key, b"abcd", b""));
}

#[test]
fn mac_is_blake2s_keyed_16() {
    // Cross-check against the blake2 crate directly.
    let key = [3u8; 32];
    let msg = b"routing label";
    let mut d: blake2::Blake2sMac<blake2::digest::consts::U16> =
        blake2::digest::Mac::new_from_slice(&key).unwrap();
    d.update(msg);
    let expected: [u8; 16] = d.finalize().into_bytes().into();
    assert_eq!(mac(&key, msg), expected);
}

#[test]
fn kdf_chain_matches_manual_hmac() {
    let key = [0x11u8; 32];
    let input = b"chaining input";
    let t0 = hmac(&key, input, b"");
    let t1 = hmac(&t0, &[1u8], b"");
    let t2 = hmac(&t0, &t1, &[2u8]);
    let t3 = hmac(&t0, &t2, &[3u8]);
    assert_eq!(kdf1(&key, input), t1);
    assert_eq!(kdf2(&key, input), (t1, t2));
    assert_eq!(kdf3(&key, input), (t1, t2, t3));
}

#[test]
fn x25519_rfc7748_scalar_mult_vector() {
    // RFC 7748 section 5.2, first test vector.
    let scalar: [u8; 32] = unhex("a546e36bf0527c9d3b16154b82465edd62144c0ac1fc5a18506a2244ba449ac4")
        .try_into()
        .unwrap();
    let point: [u8; 32] = unhex("e6db6867583030db3594c1a424b15f7c726624ec26b3353b10a903a6d0ab1c4c")
        .try_into()
        .unwrap();
    let out = dh(&scalar, &point);
    assert_eq!(
        hex(&out),
        "c3da55379de9c6908e94ea4df28d084f32eccf03491c71f754b4075577a28552"
    );
}

#[test]
fn x25519_rfc7748_diffie_hellman_vectors() {
    // RFC 7748 section 6.1.
    let alice_secret: [u8; 32] =
        unhex("77076d0a7318a57d3c16c17251b26645df4c2f87ebc0992ab177fba51db92c2a")
            .try_into()
            .unwrap();
    let bob_secret: [u8; 32] =
        unhex("5dab087e624a8a4b79e17f8b83800ee66f3bb1292618b6fd1c2f8b27ff88e0eb")
            .try_into()
            .unwrap();
    let alice_public = dh_base(&alice_secret);
    let bob_public = dh_base(&bob_secret);
    assert_eq!(
        hex(&alice_public),
        "8520f0098930a754748b7ddcb43ef75a0dbf3a0d26381af4eba4a98eaa9b4e6a"
    );
    assert_eq!(
        hex(&bob_public),
        "de9edb7d7b7dc1b4d35b61c2ece435373f8343c85b78674dadfc7e146f882b4f"
    );
    let alice_shared = dh(&alice_secret, &bob_public);
    let bob_shared = dh(&bob_secret, &alice_public);
    assert_eq!(alice_shared, bob_shared);
    assert_eq!(
        hex(&alice_shared),
        "4a5d9d5ba4ce2de1728e3bf480350f25e07e21c947d19e3376f09b3c1e161742"
    );
}

#[test]
fn x25519_basepoint_is_nine() {
    assert_eq!(X25519_BASEPOINT[0], 9);
    assert_eq!(&X25519_BASEPOINT[1..], &[0u8; 31]);
}

#[test]
fn aead_seal_matches_direct_chacha20poly1305() {
    let key = [0x42u8; 32];
    let cnt: u64 = 0x0102030405060708;
    let aad = b"header bytes";
    let mut ours: Vec<u8> = b"attack at dawn!!".to_vec();
    let tag = seal(&key, cnt, aad, &mut ours);

    let mut nonce = [0u8; 12];
    nonce[4..12].copy_from_slice(&cnt.to_le_bytes());
    let cipher = chacha20poly1305::ChaCha20Poly1305::new_from_slice(&key).unwrap();
    let mut theirs: Vec<u8> = b"attack at dawn!!".to_vec();
    let their_tag = cipher
        .encrypt_in_place_detached(&nonce.into(), aad, &mut theirs)
        .unwrap();
    assert_eq!(ours, theirs);
    assert_eq!(tag.as_slice(), their_tag.as_slice());
}

#[test]
fn aead_round_trip_and_tamper() {
    let key = [9u8; 32];
    let aad = b"";
    let mut buf: Vec<u8> = b"0123456789abcdef".to_vec();
    let tag = seal(&key, 7, aad, &mut buf);
    assert_ne!(buf.as_slice(), b"0123456789abcdef");

    let mut opened = buf.clone();
    open(&key, 7, aad, &mut opened, &tag).unwrap();
    assert_eq!(opened.as_slice(), b"0123456789abcdef");

    // Wrong counter: tag mismatch, buffer unchanged.
    let mut wrong = buf.clone();
    assert!(open(&key, 8, aad, &mut wrong, &tag).is_err());
    assert_eq!(wrong, buf);

    // Flipped tag bit.
    let mut tag2 = tag;
    tag2[0] ^= 1;
    let mut wrong2 = buf.clone();
    assert!(open(&key, 7, aad, &mut wrong2, &tag2).is_err());
    assert_eq!(wrong2, buf);
}
