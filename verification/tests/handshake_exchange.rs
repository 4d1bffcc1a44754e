//! The two-message handshake: a happy exchange with the RFC 7748 static
//! keys derives the same key pair on both sides crosswise; a flipped bit
//! anywhere authenticated is rejected with the exact error.

use wireguard_core::crypto::dh_base;
use wireguard_core::error::Error;
use wireguard_core::handshake::{Initiator, Responder};
use wireguard_core::packet::{HandshakeInit, HandshakeResp};

// RFC 7748 section 6.1 Diffie-Hellman test keys as the two statics.
const INITIATOR_SECRET: [u8; 32] = [
    0x77, 0x07, 0x6d, 0x0a, 0x73, 0x18, 0xa5, 0x7d, 0x3c, 0x16, 0xc1, 0x72, 0x51, 0xb2, 0x66,
    0x45, 0xdf, 0x4c, 0x2f, 0x87, 0xeb, 0xc0, 0x99, 0x2a, 0xb1, 0x77, 0xfb, 0xa5, 0x1d, 0xb9,
    0x2c, 0x2a,
];
const RESPONDER_SECRET: [u8; 32] = [
    0x5d, 0xab, 0x08, 0x7e, 0x62, 0x4a, 0x8a, 0x4b, 0x79, 0xe1, 0x7f, 0x8b, 0x83, 0x80, 0x0e,
    0xe6, 0x6f, 0x3b, 0xb1, 0x29, 0x26, 0x18, 0xb6, 0xfd, 0x1c, 0x2f, 0x8b, 0x27, 0xff, 0x88,
    0xe0, 0xeb,
];
// Fixed test ephemerals.
const INITIATOR_EPHEMERAL: [u8; 32] = [0x21; 32];
const RESPONDER_EPHEMERAL: [u8; 32] = [0x42; 32];

fn empty_init() -> HandshakeInit {
    HandshakeInit {
        m_t: 0,
        r_0: [0; 3],
        s_i: [0; 4],
        u_e: [0; 32],
        e_s: [0; 48],
        e_t: [0; 28],
        m_1: [0; 16],
        m_2: [0; 16],
    }
}

fn empty_resp() -> HandshakeResp {
    HandshakeResp {
        m_t: 0,
        r_0: [0; 3],
        s_i: [0; 4],
        r_i: [0; 4],
        u_e: [0; 32],
        e_n: [0; 16],
        m_1: [0; 16],
        m_2: [0; 16],
    }
}

struct Exchange {
    init_msg: HandshakeInit,
    initiator_half: Initiator,
    initiator_secret_pub: [u8; 32],
    responder_pub: [u8; 32],
}

fn run_initiation() -> Exchange {
    let i_p = dh_base(&INITIATOR_SECRET);
    let r_p = dh_base(&RESPONDER_SECRET);
    let mut msg = empty_init();
    let half = Initiator::send_handshake_init(
        [0x01, 0x00, 0x00, 0x00],
        &INITIATOR_SECRET,
        &i_p,
        &r_p,
        INITIATOR_EPHEMERAL,
        0,
        1,
        None,
        &mut msg,
    )
    .unwrap();
    Exchange { init_msg: msg, initiator_half: half, initiator_secret_pub: i_p, responder_pub: r_p }
}

#[test]
fn happy_handshake_derives_matching_keys() {
    let ex = run_initiation();
    assert_eq!(ex.init_msg.m_t, 1);
    assert_eq!(ex.init_msg.u_e, dh_base(&INITIATOR_EPHEMERAL));

    // Responder consumes the initiation.
    let r_half = Responder::recv_handshake_init(
        &RESPONDER_SECRET,
        &ex.responder_pub,
        &ex.initiator_secret_pub,
        &ex.init_msg,
    )
    .unwrap();

    // Responder sends the response; psk absent (all zeros).
    let mut resp = empty_resp();
    let (r_send, r_recv) = r_half
        .send_handshake_resp(
            ex.init_msg.s_i,
            &ex.initiator_secret_pub,
            [0x02, 0x00, 0x00, 0x00],
            RESPONDER_EPHEMERAL,
            None,
            None,
            &mut resp,
        )
        .unwrap();
    assert_eq!(resp.m_t, 2);
    assert_eq!(resp.r_i, ex.init_msg.s_i);
    assert_eq!(resp.u_e, dh_base(&RESPONDER_EPHEMERAL));

    // Initiator consumes the response.
    let (i_send, i_recv) = ex
        .initiator_half
        .recv_handshake_resp(&INITIATOR_SECRET, None, &resp)
        .unwrap();

    // Crosswise agreement of the transport keys.
    assert_eq!(i_send, r_recv);
    assert_eq!(i_recv, r_send);
    assert_ne!(i_send, i_recv);

    // The run is deterministic: a second identical initiation produces
    // the same record bit for bit.
    let again = run_initiation();
    assert_eq!(again.init_msg, ex.init_msg);
}

#[test]
fn flipped_bit_in_encrypted_static_fails_authentication() {
    let ex = run_initiation();
    for byte in [0usize, 17, 47] {
        let mut corrupted = ex.init_msg;
        corrupted.e_s[byte] ^= 0x01;
        // The first MAC covers the whole prefix, so recompute it to reach
        // the AEAD check itself.
        let mac1_key =
            wireguard_core::crypto::hash(&wireguard_core::handshake::LABEL_MAC1, &ex.responder_pub);
        let bytes = corrupted.raw_bytes();
        corrupted.m_1 = wireguard_core::crypto::mac(&mac1_key, &bytes[..116]);
        let r = Responder::recv_handshake_init(
            &RESPONDER_SECRET,
            &ex.responder_pub,
            &ex.initiator_secret_pub,
            &corrupted,
        );
        assert!(matches!(r, Err(Error::AeadError)));
    }
}

#[test]
fn tampered_mac1_is_rejected() {
    let ex = run_initiation();
    let mut corrupted = ex.init_msg;
    corrupted.m_1[3] ^= 0x10;
    let r = Responder::recv_handshake_init(
        &RESPONDER_SECRET,
        &ex.responder_pub,
        &ex.initiator_secret_pub,
        &corrupted,
    );
    assert!(matches!(r, Err(Error::MacMismatch)));
}

#[test]
fn wrong_message_types_are_rejected() {
    let ex = run_initiation();
    let mut wrong = ex.init_msg;
    wrong.m_t = 3;
    let r = Responder::recv_handshake_init(
        &RESPONDER_SECRET,
        &ex.responder_pub,
        &ex.initiator_secret_pub,
        &wrong,
    );
    assert!(matches!(r, Err(Error::InvalidMessageType)));

    let resp = empty_resp();
    let r2 = ex.initiator_half.recv_handshake_resp(&INITIATOR_SECRET, None, &resp);
    assert!(matches!(r2, Err(Error::InvalidMessageType)));
}

#[test]
fn tampered_response_tag_fails_for_initiator() {
    let ex = run_initiation();
    let r_half = Responder::recv_handshake_init(
        &RESPONDER_SECRET,
        &ex.responder_pub,
        &ex.initiator_secret_pub,
        &ex.init_msg,
    )
    .unwrap();
    let mut resp = empty_resp();
    r_half
        .send_handshake_resp(
            ex.init_msg.s_i,
            &ex.initiator_secret_pub,
            [0x02, 0x00, 0x00, 0x00],
            RESPONDER_EPHEMERAL,
            None,
            None,
            &mut resp,
        )
        .unwrap();
    resp.e_n[0] ^= 0x01;
    let r = ex.initiator_half.recv_handshake_resp(&INITIATOR_SECRET, None, &resp);
    assert!(matches!(r, Err(Error::AeadError)));
}

#[test]
fn preshared_key_changes_the_derived_keys() {
    let run = |psk: Option<[u8; 32]>| {
        let ex = run_initiation();
        let r_half = Responder::recv_handshake_init(
            &RESPONDER_SECRET,
            &ex.responder_pub,
            &ex.initiator_secret_pub,
            &ex.init_msg,
        )
        .unwrap();
        let mut resp = empty_resp();
        let keys = r_half
            .send_handshake_resp(
                ex.init_msg.s_i,
                &ex.initiator_secret_pub,
                [0x02, 0x00, 0x00, 0x00],
                RESPONDER_EPHEMERAL,
                psk,
                None,
                &mut resp,
            )
            .unwrap();
        let ikeys = ex.initiator_half.recv_handshake_resp(&INITIATOR_SECRET, psk, &resp).unwrap();
        (keys, ikeys)
    };
    let ((r_send_zero, _), (i_send_zero, _)) = run(None);
    // An explicit all-zero preshared key is the same as none.
    let ((r_send_explicit, _), _) = run(Some([0u8; 32]));
    assert_eq!(r_send_zero, r_send_explicit);
    // A real preshared key changes the schedule.
    let ((r_send_psk, r_recv_psk), (i_send_psk, i_recv_psk)) = run(Some([0x7fu8; 32]));
    assert_ne!(r_send_psk, r_send_zero);
    assert_eq!(i_send_psk, r_recv_psk);
    assert_eq!(i_recv_psk, r_send_psk);
    assert_ne!(i_send_zero, i_send_psk);
}

#[test]
fn golden_handshake_records_match_fixed_hexdumps() {
    // The whole exchange is a deterministic function of the fixed keys,
    // ephemerals and timestamp, so both records have fixed byte images.
    let ex = run_initiation();
    let r_half = Responder::recv_handshake_init(
        &RESPONDER_SECRET,
        &ex.responder_pub,
        &ex.initiator_secret_pub,
        &ex.init_msg,
    )
    .unwrap();
    let mut resp = empty_resp();
    r_half
        .send_handshake_resp(
            ex.init_msg.s_i,
            &ex.initiator_secret_pub,
            [0x02, 0x00, 0x00, 0x00],
            RESPONDER_EPHEMERAL,
            None,
            None,
            &mut resp,
        )
        .unwrap();
    let mut init_hex = String::new();
    for b in ex.init_msg.raw_bytes() {
        init_hex.push_str(&format!("{:02x}", b));
    }
    let mut resp_hex = String::new();
    for b in resp.raw_bytes() {
        resp_hex.push_str(&format!("{:02x}", b));
    }
    assert_eq!(
        init_hex,
        "01000000010000007d34a4815fa6b982535e60af3bd9b49556816080f1641ff81d2b7c8ae8268a44125f11f9af568468fda522cf7d1402399ad0166ca6a13752d6ee3057dd38f129552e0d6fc5bacc32369394252560ee9048f198c4bcb914faf97df090975e8a8b5299623bc8e6193b5e3338ffb9d68b7e7cc60ab4ea8078a52b8eebd200000000000000000000000000000000"
    );
    assert_eq!(
        resp_hex,
        "020000000200000001000000132c442be010fbd57e72603328aa76e71fccc1503aae219327d14d9c9993f4721ed1b0d6d97a4e03e08c56a4d97818fbc54d9b0305995ffde983d1c3f5e694e300000000000000000000000000000000"
    );
}
