//! The Noise_IKpsk2_25519_ChaChaPoly_BLAKE2s handshake: two state
//! machines sharing a two-message exchange. The initiator sends a
//! handshake initiation and consumes the response; the responder consumes
//! an initiation and sends the response. Each side ratchets a chaining
//! key and a transcript hash through a fixed order of hashes, key
//! derivations and Diffie-Hellman results, and on completion derives the
//! pair of transport keys.
//!
//! Every contract states the exact chain value of each output, so the
//! transcript order is pinned down bit for bit; the crosswise agreement
//! of the derived keys is proved in `lemma_key_agreement`.

use vstd::prelude::*;

use crate::crypto::{
    blake2s_mac_of, blake2s_of, chacha_open_of, chacha_seal_of, dh, dh_base, hash, kdf1, kdf2,
    kdf3, kdf_t1, kdf_t2, kdf_t3, mac, open, seal, x25519_of, X25519_BASEPOINT,
};
use crate::error::Error;
use crate::packet::{bytes_eq, read_arr, sub_vec, HandshakeInit, HandshakeResp};

verus! {

/// HASH(CONSTRUCTION): the initial chaining key of the Noise pattern
/// `Noise_IKpsk2_25519_ChaChaPoly_BLAKE2s`.
pub const INITIAL_C_K: [u8; 32] = [
    0x60, 0xe2, 0x6d, 0xae, 0xf3, 0x27, 0xef, 0xc0, 0x2e, 0xc3, 0x35, 0xe2, 0xa0, 0x25, 0xd2,
    0xd0, 0x16, 0xeb, 0x42, 0x06, 0xf8, 0x72, 0x77, 0xf5, 0x2d, 0x38, 0xd1, 0x98, 0x8b, 0x78,
    0xcd, 0x36,
];

/// HASH(INITIAL_C_K ∥ IDENTIFIER): the initial transcript hash.
pub const INITIAL_H_H: [u8; 32] = [
    0x22, 0x11, 0xb3, 0x61, 0x08, 0x1a, 0xc5, 0x66, 0x69, 0x12, 0x43, 0xdb, 0x45, 0x8a, 0xd5,
    0x32, 0x2d, 0x9c, 0x6c, 0x66, 0x22, 0x93, 0xe8, 0xb7, 0x0e, 0xe1, 0x9c, 0x65, 0xba, 0x07,
    0x9e, 0xf3,
];

/// The bytes of the label "mac1----".
pub const LABEL_MAC1: [u8; 8] = [0x6d, 0x61, 0x63, 0x31, 0x2d, 0x2d, 0x2d, 0x2d];

/// Big-endian bytes of a 64-bit integer.
pub open spec fn be64(x: u64) -> Seq<u8> {
    seq![
        ((x >> 56) & 0xff) as u8,
        ((x >> 48) & 0xff) as u8,
        ((x >> 40) & 0xff) as u8,
        ((x >> 32) & 0xff) as u8,
        ((x >> 24) & 0xff) as u8,
        ((x >> 16) & 0xff) as u8,
        ((x >> 8) & 0xff) as u8,
        (x & 0xff) as u8,
    ]
}

/// Big-endian bytes of a 32-bit integer.
pub open spec fn be32(x: u32) -> Seq<u8> {
    seq![
        ((x >> 24) & 0xff) as u8,
        ((x >> 16) & 0xff) as u8,
        ((x >> 8) & 0xff) as u8,
        (x & 0xff) as u8,
    ]
}

/// The 12-byte TAI64N timestamp: big-endian seconds, then big-endian
/// nanoseconds.
pub open spec fn tai64n(secs: u64, nanos: u32) -> Seq<u8> {
    be64(secs) + be32(nanos)
}

/// The 12 TAI64N bytes of a timestamp.
pub fn tai64n_bytes(secs: u64, nanos: u32) -> (r: Vec<u8>)
    ensures
        r@ == tai64n(secs, nanos),
{
    let mut r: Vec<u8> = Vec::new();
    r.push(((secs >> 56) & 0xff) as u8);
    r.push(((secs >> 48) & 0xff) as u8);
    r.push(((secs >> 40) & 0xff) as u8);
    r.push(((secs >> 32) & 0xff) as u8);
    r.push(((secs >> 24) & 0xff) as u8);
    r.push(((secs >> 16) & 0xff) as u8);
    r.push(((secs >> 8) & 0xff) as u8);
    r.push((secs & 0xff) as u8);
    r.push(((nanos >> 24) & 0xff) as u8);
    r.push(((nanos >> 16) & 0xff) as u8);
    r.push(((nanos >> 8) & 0xff) as u8);
    r.push((nanos & 0xff) as u8);
    proof {
        assert(r@ =~= tai64n(secs, nanos));
    }
    r
}

/// The transcript hash after mixing in the responder's static public key.
pub open spec fn ik_h0(r_p: Seq<u8>) -> Seq<u8> {
    blake2s_of(INITIAL_H_H@ + r_p)
}

/// The transcript hash after mixing in the initiator's ephemeral public.
pub open spec fn ik_h1(r_p: Seq<u8>, ue: Seq<u8>) -> Seq<u8> {
    blake2s_of(ik_h0(r_p) + ue)
}

/// The chaining key after mixing in the ephemeral public.
pub open spec fn ik_ck1(ue: Seq<u8>) -> Seq<u8> {
    kdf_t1(INITIAL_C_K@, ue)
}

/// The chaining key after the first Diffie-Hellman result `dh1`
/// (ephemeral with responder static).
pub open spec fn ik_ck2(ue: Seq<u8>, dh1: Seq<u8>) -> Seq<u8> {
    kdf_t1(ik_ck1(ue), dh1)
}

/// The encryption key derived beside `ik_ck2`.
pub open spec fn ik_k2(ue: Seq<u8>, dh1: Seq<u8>) -> Seq<u8> {
    kdf_t2(ik_ck1(ue), dh1)
}

/// The sealed static key field: the initiator's static public under
/// `ik_k2` with the running transcript hash as associated data.
pub open spec fn ik_es(i_p: Seq<u8>, r_p: Seq<u8>, ue: Seq<u8>, dh1: Seq<u8>) -> Seq<u8> {
    chacha_seal_of(ik_k2(ue, dh1), 0, ik_h1(r_p, ue), i_p)
}

/// The transcript hash after mixing in the encrypted static field `es`.
pub open spec fn ik_h2(r_p: Seq<u8>, ue: Seq<u8>, es: Seq<u8>) -> Seq<u8> {
    blake2s_of(ik_h1(r_p, ue) + es)
}

/// The chaining key after the second Diffie-Hellman result `dh2`
/// (static with static).
pub open spec fn ik_ck3(ue: Seq<u8>, dh1: Seq<u8>, dh2: Seq<u8>) -> Seq<u8> {
    kdf_t1(ik_ck2(ue, dh1), dh2)
}

/// The encryption key derived beside `ik_ck3`.
pub open spec fn ik_k3(ue: Seq<u8>, dh1: Seq<u8>, dh2: Seq<u8>) -> Seq<u8> {
    kdf_t2(ik_ck2(ue, dh1), dh2)
}

/// The sealed timestamp field.
pub open spec fn ik_et(
    r_p: Seq<u8>,
    ue: Seq<u8>,
    es: Seq<u8>,
    dh1: Seq<u8>,
    dh2: Seq<u8>,
    ts: Seq<u8>,
) -> Seq<u8> {
    chacha_seal_of(ik_k3(ue, dh1, dh2), 0, ik_h2(r_p, ue, es), ts)
}

/// The transcript hash after mixing in the encrypted timestamp `et`.
pub open spec fn ik_h3(r_p: Seq<u8>, ue: Seq<u8>, es: Seq<u8>, et: Seq<u8>) -> Seq<u8> {
    blake2s_of(ik_h2(r_p, ue, es) + et)
}

/// The chaining key at the end of the response: the initiation chaining
/// key ratcheted through the responder ephemeral `rep`, the two response
/// Diffie-Hellman results, and the preshared key.
pub open spec fn resp_ck6(ck: Seq<u8>, rep: Seq<u8>, dh3: Seq<u8>, dh4: Seq<u8>) -> Seq<u8> {
    kdf_t1(kdf_t1(kdf_t1(ck, rep), dh3), dh4)
}

/// The final chaining key, with the preshared key mixed in.
pub open spec fn resp_ck7(
    ck: Seq<u8>,
    rep: Seq<u8>,
    dh3: Seq<u8>,
    dh4: Seq<u8>,
    psk: Seq<u8>,
) -> Seq<u8> {
    kdf_t1(resp_ck6(ck, rep, dh3, dh4), psk)
}

/// The hash input derived beside the final chaining key.
pub open spec fn resp_tau(
    ck: Seq<u8>,
    rep: Seq<u8>,
    dh3: Seq<u8>,
    dh4: Seq<u8>,
    psk: Seq<u8>,
) -> Seq<u8> {
    kdf_t2(resp_ck6(ck, rep, dh3, dh4), psk)
}

/// The encryption key for the response's empty payload.
pub open spec fn resp_k(
    ck: Seq<u8>,
    rep: Seq<u8>,
    dh3: Seq<u8>,
    dh4: Seq<u8>,
    psk: Seq<u8>,
) -> Seq<u8> {
    kdf_t3(resp_ck6(ck, rep, dh3, dh4), psk)
}

/// The transcript hash after mixing in `rep` and then `tau`.
pub open spec fn resp_h5(h: Seq<u8>, rep: Seq<u8>, tau: Seq<u8>) -> Seq<u8> {
    blake2s_of(blake2s_of(h + rep) + tau)
}

/// The first transport key of a finished chaining key: the initiator's
/// sending key and the responder's receiving key.
pub open spec fn key_t2(ck: Seq<u8>) -> Seq<u8> {
    kdf_t2(ck, Seq::empty())
}

/// The second transport key: the initiator's receiving key and the
/// responder's sending key.
pub open spec fn key_t3(ck: Seq<u8>) -> Seq<u8> {
    kdf_t3(ck, Seq::empty())
}

/// The preshared key, or 32 zero bytes when absent.
pub open spec fn psk_or_zero(p_k: Option<[u8; 32]>) -> Seq<u8> {
    match p_k {
        Some(k) => k@,
        None => crate::cipher::zero_bytes(32),
    }
}

/// The preshared key bytes, zeros when absent.
fn psk_bytes(p_k: &Option<[u8; 32]>) -> (r: [u8; 32])
    ensures
        r@ == psk_or_zero(*p_k),
{
    let r = match p_k {
        Some(k) => *k,
        None => [0u8; 32],
    };
    proof {
        if p_k is None {
            assert(r@ =~= crate::cipher::zero_bytes(32));
        }
    }
    r
}

/// The full 148-byte initiation record that `send_handshake_init` emits
/// when no cookie is at hand, as a function of index, keys, ephemeral
/// secret and timestamp.
pub open spec fn init_wire(
    i_i: Seq<u8>,
    i_s: Seq<u8>,
    i_p: Seq<u8>,
    r_p: Seq<u8>,
    e_s: Seq<u8>,
    ts: Seq<u8>,
) -> Seq<u8> {
    let ue = x25519_of(e_s, X25519_BASEPOINT@);
    let dh1 = x25519_of(e_s, r_p);
    let dh2 = x25519_of(i_s, r_p);
    let es = ik_es(i_p, r_p, ue, dh1);
    let et = ik_et(r_p, ue, es, dh1, dh2, ts);
    let prefix = seq![1u8, 0u8, 0u8, 0u8] + i_i + ue + es + et;
    prefix + blake2s_mac_of(blake2s_of(LABEL_MAC1@ + r_p), prefix) + crate::cipher::zero_bytes(16)
}

/// The full 92-byte response record that `send_handshake_resp` emits when
/// no cookie is at hand, as a function of the half-state `(ck, h, e_p)`,
/// the two indices, the initiator static public, the responder ephemeral
/// secret, and the preshared key.
pub open spec fn resp_wire(
    i_i: Seq<u8>,
    r_i: Seq<u8>,
    i_p: Seq<u8>,
    ck: Seq<u8>,
    h: Seq<u8>,
    e_p: Seq<u8>,
    e_s: Seq<u8>,
    psk: Seq<u8>,
) -> Seq<u8> {
    let rep = x25519_of(e_s, X25519_BASEPOINT@);
    let dh3 = x25519_of(e_s, e_p);
    let dh4 = x25519_of(e_s, i_p);
    let tau = resp_tau(ck, rep, dh3, dh4, psk);
    let k7 = resp_k(ck, rep, dh3, dh4, psk);
    let en = chacha_seal_of(k7, 0, resp_h5(h, rep, tau), Seq::empty());
    let prefix = seq![2u8, 0u8, 0u8, 0u8] + r_i + i_i + rep + en;
    prefix + blake2s_mac_of(blake2s_of(LABEL_MAC1@ + i_p), prefix) + crate::cipher::zero_bytes(16)
}

/// Law: the two sides of a completed handshake derive the same pair of
/// transport keys, crosswise: the initiator's sending key is the
/// responder's receiving key and the other way round. The hypothesis is
/// the agreement of the four Diffie-Hellman results the two sides compute
/// from opposite ends (the commutativity of X25519, which this library
/// states nothing about and takes as a premise here); everything past the
/// Diffie-Hellman layer is proved.
pub proof fn lemma_key_agreement(
    ue: Seq<u8>,
    rep: Seq<u8>,
    psk: Seq<u8>,
    dh1_i: Seq<u8>,
    dh2_i: Seq<u8>,
    dh3_i: Seq<u8>,
    dh4_i: Seq<u8>,
    dh1_r: Seq<u8>,
    dh2_r: Seq<u8>,
    dh3_r: Seq<u8>,
    dh4_r: Seq<u8>,
)
    requires
        dh1_i == dh1_r,
        dh2_i == dh2_r,
        dh3_i == dh3_r,
        dh4_i == dh4_r,
    ensures
        key_t2(resp_ck7(ik_ck3(ue, dh1_i, dh2_i), rep, dh3_i, dh4_i, psk)) == key_t2(
            resp_ck7(ik_ck3(ue, dh1_r, dh2_r), rep, dh3_r, dh4_r, psk),
        ),
        key_t3(resp_ck7(ik_ck3(ue, dh1_i, dh2_i), rep, dh3_i, dh4_i, psk)) == key_t3(
            resp_ck7(ik_ck3(ue, dh1_r, dh2_r), rep, dh3_r, dh4_r, psk),
        ),
{
}

/// The initiator's half-state between sending the initiation and
/// consuming the response.
pub struct Initiator {
    h_h: [u8; 32],
    c_k: [u8; 32],
    e_s: [u8; 32],
}

/// The responder's half-state between consuming an initiation and
/// sending the response.
pub struct Responder {
    h_h: [u8; 32],
    c_k: [u8; 32],
    e_p: [u8; 32],
}

/// What consuming a handshake initiation yields for a responder with
/// static secret `r_s`, static public `r_p` and pinned initiator public
/// `i_p`: the half-state content `(chaining key, transcript hash,
/// initiator ephemeral public)`, or the exact error. A wrong message
/// type, a wrong first MAC or a nonzero second MAC (no cookie context
/// exists here), a failed opening of the static field, a static other
/// than the pinned peer, and a failed opening of the timestamp each
/// reject the message in that order.
#[verifier::opaque]
pub open spec fn recv_init_outcome(
    r_s: Seq<u8>,
    r_p: Seq<u8>,
    i_p: Seq<u8>,
    msg: HandshakeInit,
) -> Result<(Seq<u8>, Seq<u8>, Seq<u8>), Error> {
    let ue = msg.u_e@;
    let dh1 = x25519_of(r_s, ue);
    if msg.m_t != 1 {
        Err(Error::InvalidMessageType)
    } else if msg.m_1@ != blake2s_mac_of(
        blake2s_of(LABEL_MAC1@ + r_p),
        msg.wire().take(116),
    ) {
        Err(Error::MacMismatch)
    } else if msg.m_2@ != crate::cipher::zero_bytes(16) {
        Err(Error::MacMismatch)
    } else {
        match chacha_open_of(
            ik_k2(ue, dh1),
            0,
            ik_h1(r_p, ue),
            msg.e_s@.take(32),
            msg.e_s@.skip(32),
        ) {
            None => Err(Error::AeadError),
            Some(ipx) => if ipx != i_p {
                Err(Error::AeadError)
            } else {
                let dh2 = x25519_of(r_s, i_p);
                match chacha_open_of(
                    ik_k3(ue, dh1, dh2),
                    0,
                    ik_h2(r_p, ue, msg.e_s@),
                    msg.e_t@.take(12),
                    msg.e_t@.skip(12),
                ) {
                    None => Err(Error::AeadError),
                    Some(_) => Ok(
                        (ik_ck3(ue, dh1, dh2), ik_h3(r_p, ue, msg.e_s@, msg.e_t@), ue),
                    ),
                }
            },
        }
    }
}

/// What consuming a handshake response yields for an initiator half-state
/// `(c_k, h_h)` still holding the ephemeral secret `ie`, with static
/// secret `i_s` and preshared key `psk`: the key pair
/// `(sending key, receiving key)`, or the exact error. A wrong message
/// type rejects the message; then the empty payload must open under the
/// final chain key.
#[verifier::opaque]
pub open spec fn recv_resp_outcome(
    c_k: Seq<u8>,
    h_h: Seq<u8>,
    ie: Seq<u8>,
    i_s: Seq<u8>,
    psk: Seq<u8>,
    msg: HandshakeResp,
) -> Result<(Seq<u8>, Seq<u8>), Error> {
    let rep = msg.u_e@;
    let dh3 = x25519_of(ie, rep);
    let dh4 = x25519_of(i_s, rep);
    if msg.m_t != 2 {
        Err(Error::InvalidMessageType)
    } else {
        let ck7 = resp_ck7(c_k, rep, dh3, dh4, psk);
        let tau = resp_tau(c_k, rep, dh3, dh4, psk);
        let k7 = resp_k(c_k, rep, dh3, dh4, psk);
        match chacha_open_of(k7, 0, resp_h5(h_h, rep, tau), Seq::empty(), msg.e_n@) {
            None => Err(Error::AeadError),
            Some(_) => Ok((key_t2(ck7), key_t3(ck7))),
        }
    }
}

impl Initiator {
    /// The chaining key.
    pub closed spec fn c_k_spec(self) -> Seq<u8> {
        self.c_k@
    }

    /// The transcript hash.
    pub closed spec fn h_h_spec(self) -> Seq<u8> {
        self.h_h@
    }

    /// The ephemeral secret scalar.
    pub closed spec fn e_s_spec(self) -> Seq<u8> {
        self.e_s@
    }

    /// Builds the handshake initiation into `msg` and returns the
    /// initiator half-state. Every output field is the exact chain value
    /// of the inputs; the second MAC is computed under the latest cookie
    /// when one is given and is zero otherwise.
    pub fn send_handshake_init(
        i_i: [u8; 4],
        i_s: &[u8; 32],
        i_p: &[u8; 32],
        r_p: &[u8; 32],
        e_s: [u8; 32],
        now_secs: u64,
        now_nanos: u32,
        l_c: Option<[u8; 32]>,
        msg: &mut HandshakeInit,
    ) -> (r: Result<Self, Error>)
        ensures
            r is Ok,
            ({
                let ue = x25519_of(e_s@, X25519_BASEPOINT@);
                let dh1 = x25519_of(e_s@, r_p@);
                let dh2 = x25519_of(i_s@, r_p@);
                let ts = tai64n(now_secs, now_nanos);
                let m = *final(msg);
                &&& m.m_t == 1
                &&& m.r_0@ == crate::cipher::zero_bytes(3)
                &&& m.s_i == i_i
                &&& m.u_e@ == ue
                &&& m.e_s@ == ik_es(i_p@, r_p@, ue, dh1)
                &&& m.e_t@ == ik_et(r_p@, ue, m.e_s@, dh1, dh2, ts)
                &&& m.m_1@ == blake2s_mac_of(blake2s_of(LABEL_MAC1@ + r_p@), m.wire().take(116))
                &&& (l_c is Some ==> m.m_2@ == blake2s_mac_of(l_c->0@, m.wire().take(132)))
                &&& (l_c is None ==> m.m_2@ == crate::cipher::zero_bytes(16))
                &&& r->Ok_0.c_k_spec() == ik_ck3(ue, dh1, dh2)
                &&& r->Ok_0.h_h_spec() == ik_h3(r_p@, ue, m.e_s@, m.e_t@)
                &&& r->Ok_0.e_s_spec() == e_s@
                &&& (l_c is None ==> m.wire() == init_wire(
                    i_i@,
                    i_s@,
                    i_p@,
                    r_p@,
                    e_s@,
                    ts,
                ))
            }),
    {
        let h0 = hash(&INITIAL_H_H, r_p.as_slice());
        msg.m_t = 0x01;
        msg.r_0 = [0u8; 3];
        msg.s_i = i_i;

        let ue = dh_base(&e_s);
        msg.u_e = ue;
        let h1 = hash(&h0, &ue);

        let ck1 = kdf1(&INITIAL_C_K, &ue);
        let dh1 = dh(&e_s, r_p);
        let (ck2, k2) = kdf2(&ck1, &dh1);

        let mut static_pt = vstd::slice::slice_to_vec(i_p.as_slice());
        let tag1 = seal(&k2, 0, &h1, &mut static_pt);
        let mut es_vec = static_pt;
        es_vec.extend_from_slice(&tag1);
        msg.e_s = read_arr::<48>(es_vec.as_slice(), 0);
        let h2 = hash(&h1, &msg.e_s);

        let dh2 = dh(i_s, r_p);
        let (ck3, k3) = kdf2(&ck2, &dh2);

        let mut ts_pt = tai64n_bytes(now_secs, now_nanos);
        let tag2 = seal(&k3, 0, &h2, &mut ts_pt);
        let mut et_vec = ts_pt;
        et_vec.extend_from_slice(&tag2);
        msg.e_t = read_arr::<28>(et_vec.as_slice(), 0);
        let h3 = hash(&h2, &msg.e_t);

        msg.m_1 = [0u8; 16];
        msg.m_2 = [0u8; 16];
        let mac1_key = hash(&LABEL_MAC1, r_p.as_slice());
        let pre1 = msg.raw_bytes();
        msg.m_1 = mac(&mac1_key, vstd::slice::slice_subrange(pre1.as_slice(), 0, 116));

        let pre2 = msg.raw_bytes();
        match &l_c {
            Some(cookie) => {
                msg.m_2 = mac(
                    cookie.as_slice(),
                    vstd::slice::slice_subrange(pre2.as_slice(), 0, 132),
                );
            },
            None => {
                msg.m_2 = [0u8; 16];
            },
        }

        proof {
            let m = *msg;
            m.lemma_wire_offsets();
            assert(m.r_0@ =~= crate::cipher::zero_bytes(3));
            assert(es_vec@ =~= m.e_s@);
            assert(et_vec@ =~= m.e_t@);
            assert(m.e_s@ == ik_es(i_p@, r_p@, m.u_e@, dh1@));
            assert(m.wire().take(116) =~= pre1@.subrange(0, 116));
            assert(m.wire().take(132) =~= pre2@.subrange(0, 132));
            if l_c is None {
                assert(m.m_2@ =~= crate::cipher::zero_bytes(16));
                let ts = tai64n(now_secs, now_nanos);
                let prefix = seq![1u8, 0u8, 0u8, 0u8] + i_i@ + m.u_e@ + m.e_s@ + m.e_t@;
                assert(m.wire().take(116) =~= prefix);
                assert(m.wire() =~= prefix + m.m_1@ + m.m_2@);
                assert(m.u_e@ == x25519_of(e_s@, X25519_BASEPOINT@));
                assert(m.e_s@ == ik_es(i_p@, r_p@, m.u_e@, x25519_of(e_s@, r_p@)));
                assert(m.e_t@ == ik_et(
                    r_p@,
                    m.u_e@,
                    m.e_s@,
                    x25519_of(e_s@, r_p@),
                    x25519_of(i_s@, r_p@),
                    ts,
                ));
                assert(m.m_1@ == blake2s_mac_of(blake2s_of(LABEL_MAC1@ + r_p@), prefix));
                assert(m.m_2@ == crate::cipher::zero_bytes(16));
                assert(m.wire() =~= init_wire(i_i@, i_s@, i_p@, r_p@, e_s@, ts));
            }
        }
        Ok(Initiator { h_h: h3, c_k: ck3, e_s })
    }

    /// Consumes a handshake response, deriving the transport key pair
    /// `(sending key, receiving key)` exactly as `recv_resp_outcome`
    /// says, or failing with its exact error.
    pub fn recv_handshake_resp(
        self,
        i_s: &[u8; 32],
        p_k: Option<[u8; 32]>,
        src: &HandshakeResp,
    ) -> (r: Result<([u8; 32], [u8; 32]), Error>)
        ensures
            ({
                let outcome = recv_resp_outcome(
                    self.c_k_spec(),
                    self.h_h_spec(),
                    self.e_s_spec(),
                    i_s@,
                    psk_or_zero(p_k),
                    *src,
                );
                &&& r is Ok <==> outcome is Ok
                &&& r is Ok ==> (r->Ok_0.0@, r->Ok_0.1@) == outcome->Ok_0
                &&& r is Err ==> r->Err_0 == outcome->Err_0
            }),
    {
        proof {
            reveal(recv_resp_outcome);
        }
        if src.m_t != 0x02 {
            return Err(Error::InvalidMessageType);
        }
        let rep = src.u_e;
        let h4 = hash(&self.h_h, &rep);
        let ck4 = kdf1(&self.c_k, &rep);
        let dh3 = dh(&self.e_s, &rep);
        let ck5 = kdf1(&ck4, &dh3);
        let dh4 = dh(i_s, &rep);
        let ck6 = kdf1(&ck5, &dh4);
        let psk = psk_bytes(&p_k);
        let (ck7, tau, k7) = kdf3(&ck6, &psk);
        let h5 = hash(&h4, &tau);

        let mut nothing: Vec<u8> = Vec::new();
        proof {
            assert(nothing@ =~= Seq::<u8>::empty());
        }
        match open(&k7, 0, &h5, &mut nothing, src.e_n.as_slice()) {
            Ok(()) => {
                let empty: [u8; 0] = [];
                let (_t1, t2, t3) = kdf3(&ck7, &empty);
                proof {
                    assert(empty@ =~= Seq::<u8>::empty());
                }
                Ok((t2, t3))
            },
            Err(e) => Err(e),
        }
    }
}

impl Responder {
    /// The chaining key.
    pub closed spec fn c_k_spec(self) -> Seq<u8> {
        self.c_k@
    }

    /// The transcript hash.
    pub closed spec fn h_h_spec(self) -> Seq<u8> {
        self.h_h@
    }

    /// The initiator's ephemeral public point.
    pub closed spec fn e_p_spec(self) -> Seq<u8> {
        self.e_p@
    }

    /// Consumes a handshake initiation, yielding the responder
    /// half-state exactly as `recv_init_outcome` says, or failing with
    /// its exact error.
    pub fn recv_handshake_init(
        r_s: &[u8; 32],
        r_p: &[u8; 32],
        i_p: &[u8; 32],
        msg: &HandshakeInit,
    ) -> (r: Result<Self, Error>)
        ensures
            ({
                let outcome = recv_init_outcome(r_s@, r_p@, i_p@, *msg);
                &&& r is Ok <==> outcome is Ok
                &&& r is Ok ==> (
                    r->Ok_0.c_k_spec(),
                    r->Ok_0.h_h_spec(),
                    r->Ok_0.e_p_spec(),
                ) == outcome->Ok_0
                &&& r is Err ==> r->Err_0 == outcome->Err_0
            }),
    {
        proof {
            reveal(recv_init_outcome);
        }
        if msg.m_t != 0x01 {
            return Err(Error::InvalidMessageType);
        }

        let mac1_key = hash(&LABEL_MAC1, r_p.as_slice());
        let wire = msg.raw_bytes();
        let expected_m1 = mac(&mac1_key, vstd::slice::slice_subrange(wire.as_slice(), 0, 116));
        proof {
            assert(wire@.subrange(0, 116) =~= msg.wire().take(116));
        }
        if !bytes_eq(msg.m_1.as_slice(), expected_m1.as_slice()) {
            return Err(Error::MacMismatch);
        }
        let zero16 = [0u8; 16];
        proof {
            assert(zero16@ =~= crate::cipher::zero_bytes(16));
        }
        if !bytes_eq(msg.m_2.as_slice(), zero16.as_slice()) {
            return Err(Error::MacMismatch);
        }

        let h0 = hash(&INITIAL_H_H, r_p.as_slice());
        let ue = msg.u_e;
        let h1 = hash(&h0, &ue);
        let ck1 = kdf1(&INITIAL_C_K, &ue);
        let dh1 = dh(r_s, &ue);
        let (ck2, k2) = kdf2(&ck1, &dh1);

        let mut es_ct = sub_vec(msg.e_s.as_slice(), 0, 32);
        let es_tag = sub_vec(msg.e_s.as_slice(), 32, 16);
        proof {
            assert(es_ct@ =~= msg.e_s@.take(32));
            assert(es_tag@ =~= msg.e_s@.skip(32));
        }
        match open(&k2, 0, &h1, &mut es_ct, es_tag.as_slice()) {
            Ok(()) => {},
            Err(e) => {
                return Err(e);
            },
        }
        if !bytes_eq(es_ct.as_slice(), i_p.as_slice()) {
            return Err(Error::AeadError);
        }

        let h2 = hash(&h1, &msg.e_s);
        let dh2 = dh(r_s, i_p);
        let (ck3, k3) = kdf2(&ck2, &dh2);

        let mut et_ct = sub_vec(msg.e_t.as_slice(), 0, 12);
        let et_tag = sub_vec(msg.e_t.as_slice(), 12, 16);
        proof {
            assert(et_ct@ =~= msg.e_t@.take(12));
            assert(et_tag@ =~= msg.e_t@.skip(12));
        }
        match open(&k3, 0, &h2, &mut et_ct, et_tag.as_slice()) {
            Ok(()) => {},
            Err(e) => {
                return Err(e);
            },
        }

        let h3 = hash(&h2, &msg.e_t);
        Ok(Responder { h_h: h3, c_k: ck3, e_p: ue })
    }

    /// Builds the handshake response into `msg` and derives the transport
    /// key pair `(sending key, receiving key)` from the responder's
    /// vantage. Every output field is the exact chain value of the
    /// half-state and the inputs.
    pub fn send_handshake_resp(
        self,
        i_i: [u8; 4],
        i_p: &[u8; 32],
        r_i: [u8; 4],
        e_s: [u8; 32],
        p_k: Option<[u8; 32]>,
        l_c: Option<[u8; 32]>,
        msg: &mut HandshakeResp,
    ) -> (r: Result<([u8; 32], [u8; 32]), Error>)
        ensures
            r is Ok,
            ({
                let rep = x25519_of(e_s@, X25519_BASEPOINT@);
                let dh3 = x25519_of(e_s@, self.e_p_spec());
                let dh4 = x25519_of(e_s@, i_p@);
                let psk = psk_or_zero(p_k);
                let ck7 = resp_ck7(self.c_k_spec(), rep, dh3, dh4, psk);
                let tau = resp_tau(self.c_k_spec(), rep, dh3, dh4, psk);
                let k7 = resp_k(self.c_k_spec(), rep, dh3, dh4, psk);
                let m = *final(msg);
                &&& m.m_t == 2
                &&& m.r_0@ == crate::cipher::zero_bytes(3)
                &&& m.s_i == r_i
                &&& m.r_i == i_i
                &&& m.u_e@ == rep
                &&& m.e_n@ == chacha_seal_of(k7, 0, resp_h5(self.h_h_spec(), rep, tau), Seq::empty())
                &&& m.m_1@ == blake2s_mac_of(blake2s_of(LABEL_MAC1@ + i_p@), m.wire().take(60))
                &&& (l_c is Some ==> m.m_2@ == blake2s_mac_of(l_c->0@, m.wire().take(76)))
                &&& (l_c is None ==> m.m_2@ == crate::cipher::zero_bytes(16))
                &&& r->Ok_0.0@ == key_t3(ck7)
                &&& r->Ok_0.1@ == key_t2(ck7)
                &&& (l_c is None ==> m.wire() == resp_wire(
                    i_i@,
                    r_i@,
                    i_p@,
                    self.c_k_spec(),
                    self.h_h_spec(),
                    self.e_p_spec(),
                    e_s@,
                    psk,
                ))
            }),
    {
        msg.m_t = 0x02;
        msg.r_0 = [0u8; 3];
        msg.s_i = r_i;
        msg.r_i = i_i;

        let rep = dh_base(&e_s);
        msg.u_e = rep;
        let h4 = hash(&self.h_h, &rep);
        let ck4 = kdf1(&self.c_k, &rep);
        let dh3 = dh(&e_s, &self.e_p);
        let ck5 = kdf1(&ck4, &dh3);
        let dh4 = dh(&e_s, i_p);
        let ck6 = kdf1(&ck5, &dh4);
        let psk = psk_bytes(&p_k);
        let (ck7, tau, k7) = kdf3(&ck6, &psk);
        let h5 = hash(&h4, &tau);

        let mut nothing: Vec<u8> = Vec::new();
        proof {
            assert(nothing@ =~= Seq::<u8>::empty());
        }
        let tag = seal(&k7, 0, &h5, &mut nothing);
        msg.e_n = tag;

        msg.m_1 = [0u8; 16];
        msg.m_2 = [0u8; 16];
        let mac1_key = hash(&LABEL_MAC1, i_p.as_slice());
        let pre1 = msg.raw_bytes();
        msg.m_1 = mac(&mac1_key, vstd::slice::slice_subrange(pre1.as_slice(), 0, 60));

        let pre2 = msg.raw_bytes();
        match &l_c {
            Some(cookie) => {
                msg.m_2 = mac(
                    cookie.as_slice(),
                    vstd::slice::slice_subrange(pre2.as_slice(), 0, 76),
                );
            },
            None => {
                msg.m_2 = [0u8; 16];
            },
        }

        let empty: [u8; 0] = [];
        let (_t1, t2, t3) = kdf3(&ck7, &empty);

        proof {
            let m = *msg;
            m.lemma_wire_offsets();
            assert(m.r_0@ =~= crate::cipher::zero_bytes(3));
            assert(empty@ =~= Seq::<u8>::empty());
            assert(m.wire().take(60) =~= pre1@.subrange(0, 60));
            assert(m.wire().take(76) =~= pre2@.subrange(0, 76));
            if l_c is None {
                assert(m.m_2@ =~= crate::cipher::zero_bytes(16));
                let prefix = seq![2u8, 0u8, 0u8, 0u8] + r_i@ + i_i@ + m.u_e@ + m.e_n@;
                assert(m.wire().take(60) =~= prefix);
                assert(m.wire() =~= prefix + m.m_1@ + m.m_2@);
                assert(m.wire() =~= resp_wire(
                    i_i@,
                    r_i@,
                    i_p@,
                    self.c_k_spec(),
                    self.h_h_spec(),
                    self.e_p_spec(),
                    e_s@,
                    psk_or_zero(p_k),
                ));
            }
        }
        Ok((t3, t2))
    }
}

} // verus!
