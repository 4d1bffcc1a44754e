//! End-to-end tunnel sessions: handshakes over the wire, transport
//! routing by receiver index, and the session errors.

use wireguard_core::cipher::{Decrypted, Decryptor, Encryptor};
use wireguard_core::error::Error;
use wireguard_core::tunnel::{DatagramOutcome, Tunnel};

const A_SECRET: [u8; 32] = [0x17; 32];
const B_SECRET: [u8; 32] = [0x71; 32];

fn pair(psk: Option<[u8; 32]>) -> (Tunnel, Tunnel) {
    let a_pub = wireguard_core::crypto::dh_base(&A_SECRET);
    let b_pub = wireguard_core::crypto::dh_base(&B_SECRET);
    let a = Tunnel::new(A_SECRET, b_pub, psk);
    let b = Tunnel::new(B_SECRET, a_pub, psk);
    (a, b)
}

fn complete_handshake(a: &mut Tunnel, b: &mut Tunnel) {
    let init = a.begin_handshake(1234, 5).unwrap();
    assert_eq!(init.len(), 148);
    assert_eq!(init[0], 1);
    let resp = match b.on_datagram(&init).unwrap() {
        DatagramOutcome::Response(v) => v,
        _ => panic!("responder must answer an initiation"),
    };
    assert_eq!(resp.len(), 92);
    assert_eq!(resp[0], 2);
    match a.on_datagram(&resp).unwrap() {
        DatagramOutcome::Handled => {},
        _ => panic!("initiator consumes the response silently"),
    }
}

#[test]
fn end_to_end_session_carries_traffic_both_ways() {
    let (mut a, mut b) = pair(None);
    complete_handshake(&mut a, &mut b);

    let wire = a.encrypt(b"hello over the tunnel").unwrap();
    assert_eq!(wire[0], 4);
    match b.on_datagram(&wire).unwrap() {
        DatagramOutcome::Plaintext(pt) => {
            assert_eq!(&pt[..21], b"hello over the tunnel");
            assert_eq!(pt.len(), 32);
            assert_eq!(&pt[21..], &[0u8; 11]);
        },
        _ => panic!("transport data must decrypt to plaintext"),
    }

    let wire_back = b.encrypt(b"and back").unwrap();
    match a.on_datagram(&wire_back).unwrap() {
        DatagramOutcome::Plaintext(pt) => {
            assert_eq!(&pt[..8], b"and back");
        },
        _ => panic!("transport data must decrypt to plaintext"),
    }
}

#[test]
fn unknown_receiver_index_is_rejected() {
    let (mut a, mut b) = pair(None);
    complete_handshake(&mut a, &mut b);
    let mut wire = a.encrypt(b"payload").unwrap();
    // Retag the packet with an index nobody installed.
    wire[4] ^= 0xff;
    wire[5] ^= 0xff;
    assert!(matches!(b.on_datagram(&wire), Err(Error::UnknownIndex)));
}

#[test]
fn tampered_transport_packet_fails_aead() {
    let (mut a, mut b) = pair(None);
    complete_handshake(&mut a, &mut b);
    let mut wire = a.encrypt(b"payload").unwrap();
    let last = wire.len() - 1;
    wire[last] ^= 0x01;
    assert!(matches!(b.on_datagram(&wire), Err(Error::AeadError)));
}

#[test]
fn encrypt_without_session_fails() {
    let (mut a, _) = pair(None);
    assert!(matches!(a.encrypt(b"no session yet"), Err(Error::NoSession)));
}

#[test]
fn corrupted_initiation_leaves_no_session() {
    let (mut a, mut b) = pair(None);
    let mut init = a.begin_handshake(0, 0).unwrap();
    init[50] ^= 0x04;
    // The first MAC covers the corrupted byte.
    assert!(matches!(b.on_datagram(&init), Err(Error::MacMismatch)));
    assert!(matches!(b.encrypt(b"x"), Err(Error::NoSession)));
}

#[test]
fn unknown_response_index_fails_lookup() {
    let (mut a, mut b) = pair(None);
    let init = a.begin_handshake(0, 0).unwrap();
    let mut resp = match b.on_datagram(&init).unwrap() {
        DatagramOutcome::Response(v) => v,
        _ => panic!("responder must answer"),
    };
    // Break the echoed receiver index: the initiator knows no such
    // half-state.
    resp[8] ^= 0xff;
    assert!(matches!(a.on_datagram(&resp), Err(Error::UnknownIndex)));
}

#[test]
fn response_consumes_the_half_state_once() {
    let (mut a, mut b) = pair(None);
    let init = a.begin_handshake(0, 0).unwrap();
    let resp = match b.on_datagram(&init).unwrap() {
        DatagramOutcome::Response(v) => v,
        _ => panic!("responder must answer"),
    };
    assert!(matches!(a.on_datagram(&resp).unwrap(), DatagramOutcome::Handled));
    // The same response again races against a consumed half-state.
    assert!(matches!(a.on_datagram(&resp), Err(Error::UnknownIndex)));
}

#[test]
fn other_message_types_are_discarded() {
    let (mut a, _) = pair(None);
    assert!(matches!(a.on_datagram(&[]).unwrap(), DatagramOutcome::Handled));
    assert!(matches!(a.on_datagram(&[3u8; 64]).unwrap(), DatagramOutcome::Handled));
    assert!(matches!(a.on_datagram(&[0xffu8; 200]).unwrap(), DatagramOutcome::Handled));
}

#[test]
fn short_records_report_their_expected_sizes() {
    let (mut a, _) = pair(None);
    assert!(matches!(
        a.on_datagram(&[1u8; 100]),
        Err(Error::BufferLengthTooShort { expected: 148, got: 100 })
    ));
    assert!(matches!(
        a.on_datagram(&[2u8; 10]),
        Err(Error::BufferLengthTooShort { expected: 92, got: 10 })
    ));
    assert!(matches!(
        a.on_datagram(&[4u8; 8]),
        Err(Error::BufferLengthTooShort { expected: 16, got: 8 })
    ));
}

#[test]
fn sessions_with_preshared_key_interoperate() {
    let (mut a, mut b) = pair(Some([0x33; 32]));
    complete_handshake(&mut a, &mut b);
    let wire = a.encrypt(b"psk traffic").unwrap();
    match b.on_datagram(&wire).unwrap() {
        DatagramOutcome::Plaintext(pt) => assert_eq!(&pt[..11], b"psk traffic"),
        _ => panic!("transport data must decrypt"),
    }
}

#[test]
fn routing_by_chosen_index_reaches_the_right_decryptor() {
    // Two decryptors under distinct indices; a packet tagged with one
    // index opens only under that decryptor's key.
    let key_a = [0xaa; 32];
    let key_b = [0xbb; 32];
    let idx_a = [0x01, 0x02, 0x03, 0x04];
    let idx_b = [0xde, 0xad, 0xbe, 0xef];
    let dec_a = Decryptor::new(idx_a, key_a);
    let dec_b = Decryptor::new(idx_b, key_b);

    let mut enc_to_b = Encryptor::new(idx_b, key_b, 0, u64::MAX);
    let packet = enc_to_b.encrypt(Decrypted::from_plaintext(b"for b only")).unwrap();

    let mut wire: Vec<u8> = packet.data().to_vec();
    assert_eq!(&wire[4..8], &idx_b);
    assert!(dec_a.decrypt(&mut wire).is_err());
    dec_b.decrypt(&mut wire).unwrap();
    assert_eq!(&wire[16..26], b"for b only");
}
