//! Framing views: parsing a serialized record returns the record, every
//! field sits at its declared offset, and short buffers fail with the
//! exact error.

use wireguard_core::error::Error;
use wireguard_core::packet::{
    HandshakeInit, HandshakeResp, TransportData, HANDSHAKE_INIT_SIZE, HANDSHAKE_RESP_SIZE,
    TRANSPORT_HEADER_SIZE,
};

fn sample_init() -> HandshakeInit {
    HandshakeInit {
        m_t: 1,
        r_0: [0; 3],
        s_i: [0xde, 0xad, 0xbe, 0xef],
        u_e: [0x11; 32],
        e_s: [0x22; 48],
        e_t: [0x33; 28],
        m_1: [0x44; 16],
        m_2: [0x55; 16],
    }
}

#[test]
fn init_wrap_of_raw_bytes_is_identity() {
    let m = sample_init();
    let bytes = m.raw_bytes();
    assert_eq!(bytes.len(), HANDSHAKE_INIT_SIZE);
    let parsed = HandshakeInit::wrap_ref(&bytes).unwrap();
    assert_eq!(parsed, m);
}

#[test]
fn init_mutating_a_field_writes_at_its_offset() {
    let mut m = sample_init();
    m.s_i = [9, 8, 7, 6];
    let bytes = m.raw_bytes();
    assert_eq!(&bytes[4..8], &[9, 8, 7, 6]);
    assert_eq!(bytes[0], 1);
    assert_eq!(&bytes[1..4], &[0u8; 3]);
    assert_eq!(&bytes[8..40], &[0x11u8; 32]);
    assert_eq!(&bytes[40..88], &[0x22u8; 48]);
    assert_eq!(&bytes[88..116], &[0x33u8; 28]);
    assert_eq!(&bytes[116..132], &[0x44u8; 16]);
    assert_eq!(&bytes[132..148], &[0x55u8; 16]);
    let parsed = HandshakeInit::wrap_ref(&bytes).unwrap();
    assert_eq!(parsed.s_i, [9, 8, 7, 6]);
}

#[test]
fn init_too_short_reports_expected_and_got() {
    let r = HandshakeInit::wrap_ref(&[0u8; 147]);
    assert!(matches!(
        r,
        Err(Error::BufferLengthTooShort { expected: 148, got: 147 })
    ));
}

#[test]
fn resp_wrap_of_raw_bytes_is_identity() {
    let m = HandshakeResp {
        m_t: 2,
        r_0: [0; 3],
        s_i: [1, 2, 3, 4],
        r_i: [5, 6, 7, 8],
        u_e: [0xaa; 32],
        e_n: [0xbb; 16],
        m_1: [0xcc; 16],
        m_2: [0xdd; 16],
    };
    let bytes = m.raw_bytes();
    assert_eq!(bytes.len(), HANDSHAKE_RESP_SIZE);
    assert_eq!(&bytes[4..8], &[1, 2, 3, 4]);
    assert_eq!(&bytes[8..12], &[5, 6, 7, 8]);
    assert_eq!(&bytes[12..44], &[0xaau8; 32]);
    assert_eq!(&bytes[44..60], &[0xbbu8; 16]);
    let parsed = HandshakeResp::wrap_ref(&bytes).unwrap();
    assert_eq!(parsed, m);

    let r = HandshakeResp::wrap_ref(&bytes[..91]);
    assert!(matches!(
        r,
        Err(Error::BufferLengthTooShort { expected: 92, got: 91 })
    ));
}

#[test]
fn transport_header_round_trip_and_store() {
    let h = TransportData { m_t: 4, r_0: [0; 3], r_i: [9, 9, 9, 9], cnt: 77u64.to_le_bytes() };
    let bytes = h.raw_bytes();
    assert_eq!(bytes.len(), TRANSPORT_HEADER_SIZE);
    assert_eq!(&bytes[8..16], &77u64.to_le_bytes());
    let parsed = TransportData::wrap_ref(&bytes).unwrap();
    assert_eq!(parsed, h);

    // Storing over a longer buffer leaves the tail alone.
    let mut buf: Vec<u8> = vec![0xee; 24];
    h.store(&mut buf);
    assert_eq!(&buf[..16], bytes.as_slice());
    assert_eq!(&buf[16..], &[0xeeu8; 8]);

    let r = TransportData::wrap_ref(&bytes[..15]);
    assert!(matches!(
        r,
        Err(Error::BufferLengthTooShort { expected: 16, got: 15 })
    ));
}
