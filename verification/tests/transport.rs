//! Transport cipher behaviour: padding round trips, strict counter
//! discipline, range reservation, and the exact decrypt errors.

use wireguard_core::cipher::{Decrypted, Decryptor, Encrypted, Encryptor};
use wireguard_core::error::Error;

const KEY: [u8; 32] = [0xab; 32];
const IDX: [u8; 4] = [0x01, 0x02, 0x03, 0x04];

#[test]
fn round_trip_under_padding() {
    // Plaintext of length 7 is padded to 16; decrypting recovers
    // plaintext followed by nine zero bytes.
    let mut enc = Encryptor::new(IDX, KEY, 0, u64::MAX);
    let staged = Decrypted::from_plaintext(b"1234567");
    let packet = enc.encrypt(staged).unwrap();
    let mut wire: Vec<u8> = packet.data().to_vec();
    assert_eq!(wire.len(), 16 + 16 + 16);

    let dec = Decryptor::new(IDX, KEY);
    dec.decrypt(&mut wire).unwrap();
    let recovered = &wire[16..wire.len() - 16];
    assert_eq!(recovered.len(), 16);
    assert_eq!(&recovered[..7], b"1234567");
    assert_eq!(&recovered[7..], &[0u8; 9]);
}

#[test]
fn header_fields_of_sealed_packet() {
    let mut enc = Encryptor::new(IDX, KEY, 41, 100);
    let packet = enc.encrypt(Decrypted::from_plaintext(b"payload")).unwrap();
    let wire = packet.data();
    assert_eq!(wire[0], 4);
    assert_eq!(&wire[1..4], &[0u8; 3]);
    assert_eq!(&wire[4..8], &IDX);
    assert_eq!(u64::from_le_bytes(wire[8..16].try_into().unwrap()), 41);
    assert_eq!(enc.s_c(), 42);
}

#[test]
fn nonce_monotonicity_over_thousand_packets() {
    let mut enc = Encryptor::new(IDX, KEY, 0, u64::MAX);
    let mut seen: Vec<u64> = Vec::new();
    for _ in 0..1000 {
        let packet = enc.encrypt(Decrypted::from_plaintext(b"x")).unwrap();
        let wire = packet.data();
        seen.push(u64::from_le_bytes(wire[8..16].try_into().unwrap()));
    }
    for (i, c) in seen.iter().enumerate() {
        assert_eq!(*c, i as u64);
    }
}

#[test]
fn counter_exhaustion_after_reserved_range() {
    // An Encryptor with s_b = s_c + 3: three encrypts succeed with
    // counters s_c, s_c+1, s_c+2; the fourth fails CounterExhausted.
    let start: u64 = 10;
    let mut enc = Encryptor::new(IDX, KEY, start, start + 3);
    for k in 0..3u64 {
        let packet = enc.encrypt(Decrypted::from_plaintext(b"hello")).unwrap();
        let wire = packet.data();
        assert_eq!(u64::from_le_bytes(wire[8..16].try_into().unwrap()), start + k);
    }
    let r = enc.encrypt(Decrypted::from_plaintext(b"hello"));
    assert!(matches!(r, Err(Error::CounterExhausted)));
    assert_eq!(enc.s_c(), enc.s_b());
}

#[test]
fn next_counter_never_repeats_and_exhausts() {
    let mut enc = Encryptor::new(IDX, KEY, 5, 7);
    let a = enc.next_counter().unwrap();
    let b = enc.next_counter().unwrap();
    assert_eq!(a, 5);
    assert_eq!(b, 6);
    assert_ne!(a, b);
    assert!(matches!(enc.next_counter(), Err(Error::CounterExhausted)));
}

#[test]
fn reserve_hands_out_disjoint_contiguous_ranges() {
    let mut parent = Encryptor::new(IDX, KEY, 0, 100);
    let mut child = parent.reserve(10);
    assert_eq!(child.s_c(), 0);
    assert_eq!(child.s_b(), 10);
    assert_eq!(parent.s_c(), 10);
    assert_eq!(parent.s_b(), 100);
    assert_eq!(child.key(), parent.key());
    assert_eq!(child.r_i(), parent.r_i());

    // The child owns exactly its range.
    for k in 0..10u64 {
        assert_eq!(child.next_counter().unwrap(), k);
    }
    assert!(child.next_counter().is_err());

    // Reserving past the bound saturates.
    let child2 = parent.reserve(1000);
    assert_eq!(child2.s_c(), 10);
    assert_eq!(child2.s_b(), 100);
    assert_eq!(parent.s_c(), 100);
}

#[test]
fn decrypt_rejects_short_and_unaligned_buffers() {
    let dec = Decryptor::new(IDX, KEY);
    let mut short: Vec<u8> = vec![0u8; 31];
    assert!(matches!(
        dec.decrypt(&mut short),
        Err(Error::BufferLengthTooShort { expected: 32, got: 31 })
    ));
    let mut unaligned: Vec<u8> = vec![0u8; 40];
    assert!(matches!(dec.decrypt(&mut unaligned), Err(Error::BufferLengthInvalid)));
}

#[test]
fn decrypt_rejects_tampered_ciphertext_and_leaves_buffer() {
    let mut enc = Encryptor::new(IDX, KEY, 0, u64::MAX);
    let packet = enc.encrypt(Decrypted::from_plaintext(b"sixteen bytes!!!")).unwrap();
    let mut wire: Vec<u8> = packet.data().to_vec();
    wire[20] ^= 0x80;
    let before = wire.clone();
    let dec = Decryptor::new(IDX, KEY);
    assert!(matches!(dec.decrypt(&mut wire), Err(Error::AeadError)));
    assert_eq!(wire, before);
}

#[test]
fn staged_buffers_expose_their_regions() {
    let staged = Decrypted::from_plaintext(b"abc");
    assert_eq!(staged.data(), b"abc");
    assert_eq!(staged.len(), 3);

    let mut staged2 = Decrypted::new(vec![7u8; 48]);
    assert_eq!(staged2.len(), 16);
    assert!(staged2.resize(10));
    assert_eq!(staged2.len(), 10);
    assert!(!staged2.resize(17));
    assert_eq!(staged2.len(), 10);

    let mut sealed = Encrypted::new(vec![1u8; 48]);
    assert_eq!(sealed.len(), 48);
    assert!(sealed.resize(32));
    assert_eq!(sealed.data().len(), 32);
    assert!(!sealed.resize(49));
}

#[test]
fn writing_through_the_view_lands_at_the_offset() {
    // Mutating a staged byte and re-reading yields the written value,
    // and a packet sealed afterwards carries the changed plaintext.
    let mut staged = Decrypted::new(vec![0u8; 48]);
    staged.write_at(0, 0x7a);
    staged.write_at(9, 0x5b);
    assert_eq!(staged.data()[0], 0x7a);
    assert_eq!(staged.data()[9], 0x5b);

    let mut enc = Encryptor::new(IDX, KEY, 0, u64::MAX);
    let packet = enc.encrypt(staged).unwrap();
    let mut wire: Vec<u8> = packet.data().to_vec();
    Decryptor::new(IDX, KEY).decrypt(&mut wire).unwrap();
    assert_eq!(wire[16], 0x7a);
    assert_eq!(wire[16 + 9], 0x5b);
}

#[test]
fn error_descriptions_name_the_kind() {
    assert_eq!(Error::CounterExhausted.describe(), "counter exhausted");
    assert_eq!(Error::NoSession.describe(), "no session");
    assert_eq!(Error::AeadError.describe(), "aead error");
}
