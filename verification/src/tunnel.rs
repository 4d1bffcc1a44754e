//! The tunnel session manager: owns the static identity and the preshared
//! key, the table of pending initiator half-states, the table of
//! installed decryptors, and the single current encryptor. Inbound
//! datagrams are dispatched on their message type; outbound plaintext is
//! sealed under the current encryptor.
//!
//! A local index is present in at most one of the two tables at any time,
//! and each table's keys are unique; every operation preserves this.

use vstd::prelude::*;

use crate::cipher::{
    decrypt_outcome, padded_pt, transport_header, Decrypted, Decryptor, Encryptor,
};
use crate::crypto::{chacha_seal_of, dh_base, random_bytes, x25519_of, X25519_BASEPOINT};
use crate::error::Error;
use crate::handshake::{
    init_wire, key_t2, key_t3, psk_or_zero, recv_init_outcome, recv_resp_outcome, resp_ck7,
    resp_wire, tai64n, Initiator, Responder,
};
use crate::packet::{
    bytes_eq, parse_init_of, parse_resp_of, read_arr, sub_vec, HandshakeInit, HandshakeResp,
    HANDSHAKE_INIT_SIZE, HANDSHAKE_RESP_SIZE, TRANSPORT_HEADER_SIZE,
};

verus! {

/// The exclusive upper bound on transport counters a fresh session may
/// issue: 2^60 messages.
pub const REJECT_AFTER_MESSAGES: u64 = 0x1000000000000000;

/// How many random draws a fresh-index search makes before giving up.
const INDEX_ATTEMPTS: usize = 32;

/// What handling one inbound datagram produced.
pub enum DatagramOutcome {
    /// The datagram was consumed with nothing to send or deliver.
    Handled,
    /// A handshake response to transmit back.
    Response(Vec<u8>),
    /// Decrypted transport payload (plaintext with its padding).
    Plaintext(Vec<u8>),
}

/// Whether an association list holds a key.
pub open spec fn map_has<T>(m: Seq<([u8; 4], T)>, k: Seq<u8>) -> bool {
    exists|i: int| 0 <= i < m.len() && m[i].0@ == k
}

/// The position of a key in an association list.
pub open spec fn map_index_of<T>(m: Seq<([u8; 4], T)>, k: Seq<u8>) -> int {
    choose|i: int| 0 <= i < m.len() && m[i].0@ == k
}

/// The value under a key of an association list.
pub open spec fn map_at<T>(m: Seq<([u8; 4], T)>, k: Seq<u8>) -> T {
    m[map_index_of(m, k)].1
}

/// Whether an association list's keys are pairwise distinct.
pub open spec fn keys_unique<T>(m: Seq<([u8; 4], T)>) -> bool {
    forall|i: int, j: int| 0 <= i < j < m.len() ==> m[i].0@ != m[j].0@
}

/// With unique keys, the position and value under a key are the ones of
/// any matching entry.
proof fn lemma_map_at_unique<T>(m: Seq<([u8; 4], T)>, k: Seq<u8>, i: int)
    requires
        keys_unique(m),
        0 <= i < m.len(),
        m[i].0@ == k,
    ensures
        map_has(m, k),
        map_index_of(m, k) == i,
        map_at(m, k) == m[i].1,
{
    assert(map_has(m, k));
    let j = map_index_of(m, k);
    assert(0 <= j < m.len() && m[j].0@ == k);
    if i < j {
        assert(m[i].0@ != m[j].0@);
    } else if j < i {
        assert(m[j].0@ != m[i].0@);
    }
}

/// Membership in a list with one entry appended.
proof fn lemma_map_has_push<T>(m: Seq<([u8; 4], T)>, e: ([u8; 4], T), k: Seq<u8>)
    ensures
        map_has(m.push(e), k) <==> (map_has(m, k) || e.0@ == k),
{
    if map_has(m.push(e), k) {
        let i = choose|i: int| 0 <= i < m.push(e).len() && m.push(e)[i].0@ == k;
        if i < m.len() {
            assert(m[i].0@ == k);
            assert(map_has(m, k));
        } else {
            assert(m.push(e)[i] == e);
        }
    }
    if map_has(m, k) {
        let i = choose|i: int| 0 <= i < m.len() && m[i].0@ == k;
        assert(m.push(e)[i].0@ == k);
        assert(map_has(m.push(e), k));
    }
    if e.0@ == k {
        assert(m.push(e)[m.len() as int].0@ == k);
        assert(map_has(m.push(e), k));
    }
}

/// Removing an entry keeps the keys unique, and every remaining key was
/// already present.
proof fn lemma_map_remove_keeps<T>(m: Seq<([u8; 4], T)>, p: int)
    requires
        0 <= p < m.len(),
        keys_unique(m),
    ensures
        keys_unique(m.remove(p)),
        forall|i: int| 0 <= i < m.remove(p).len() ==> map_has(m, #[trigger] m.remove(p)[i].0@),
{
    let rm = m.remove(p);
    assert forall|i: int, j: int| 0 <= i < j < rm.len() implies rm[i].0@ != rm[j].0@ by {
        let i2: int = if i < p {
            i
        } else {
            i + 1
        };
        let j2: int = if j < p {
            j
        } else {
            j + 1
        };
        assert(rm[i] == m[i2]);
        assert(rm[j] == m[j2]);
    }
    assert forall|i: int| 0 <= i < rm.len() implies map_has(m, rm[i].0@) by {
        let i2: int = if i < p {
            i
        } else {
            i + 1
        };
        assert(rm[i] == m[i2]);
        assert(map_has(m, m[i2].0@));
    }
}

/// No key of the remainder is the removed entry's key.
proof fn lemma_remove_no_dup<T>(m: Seq<([u8; 4], T)>, p: int, i: int)
    requires
        keys_unique(m),
        0 <= p < m.len(),
        0 <= i < m.remove(p).len(),
    ensures
        m.remove(p)[i].0@ != m[p].0@,
{
    let i2: int = if i < p {
        i
    } else {
        i + 1
    };
    assert(m.remove(p)[i] == m[i2]);
}

/// A point-to-point secure tunnel: identity, handshake state, and the
/// transport cipher state of the current session.
pub struct Tunnel {
    self_secret: [u8; 32],
    self_public: [u8; 32],
    peer_public: [u8; 32],
    preshared_key: Option<[u8; 32]>,
    initiator_map: Vec<([u8; 4], Initiator)>,
    decryptor_map: Vec<([u8; 4], Decryptor)>,
    current_encryptor: Option<Encryptor>,
}

/// What a successful responder path installs, for a given responder
/// ephemeral secret `eph`: the response record `v` sent back, the
/// decryptor appended last under a fresh index, and the current encryptor
/// keyed to the initiator's index `i_i` with counters starting at zero.
/// `ck`, `h` and `ep` are the half-state the inbound initiation produced.
pub open spec fn response_installed(
    pre: Tunnel,
    post: Tunnel,
    i_i: Seq<u8>,
    ck: Seq<u8>,
    h: Seq<u8>,
    ep: Seq<u8>,
    v: Seq<u8>,
    eph: Seq<u8>,
) -> bool {
    let ck7 = resp_ck7(
        ck,
        x25519_of(eph, X25519_BASEPOINT@),
        x25519_of(eph, ep),
        x25519_of(eph, pre.peer_public_spec()),
        pre.psk_spec(),
    );
    let entry = post.dmap().last();
    &&& post.imap() == pre.imap()
    &&& post.dmap() == pre.dmap().push(entry)
    &&& !map_has(pre.dmap(), entry.0@)
    &&& !map_has(pre.imap(), entry.0@)
    &&& v == resp_wire(i_i, entry.0@, pre.peer_public_spec(), ck, h, ep, eph, pre.psk_spec())
    &&& entry.1.key_spec() == key_t2(ck7)
    &&& entry.1.r_i_spec() == entry.0@
    &&& (post.enc() matches Some(e) && e.key_spec() == key_t3(ck7) && e.r_i_spec() == i_i
        && e.s_c_spec() == 0 && e.s_b_spec() == REJECT_AFTER_MESSAGES)
}

/// A tunnel that lost one pending half-state and nothing else stays
/// well-formed.
proof fn lemma_wf_after_remove(a: Tunnel, b: Tunnel, p: int)
    requires
        a.wf(),
        0 <= p < a.imap().len(),
        b.imap() == a.imap().remove(p),
        b.dmap() == a.dmap(),
    ensures
        b.wf(),
{
    lemma_map_remove_keeps(a.imap(), p);
    assert forall|i: int| 0 <= i < b.imap().len() implies !map_has(b.dmap(), b.imap()[i].0@) by {
        assert(map_has(a.imap(), b.imap()[i].0@));
        let j = choose|j: int| 0 <= j < a.imap().len() && a.imap()[j].0@ == b.imap()[i].0@;
        assert(!map_has(a.dmap(), a.imap()[j].0@));
    }
}

impl Tunnel {
    /// The static secret scalar.
    pub closed spec fn self_secret_spec(self) -> Seq<u8> {
        self.self_secret@
    }

    /// The static public point.
    pub closed spec fn self_public_spec(self) -> Seq<u8> {
        self.self_public@
    }

    /// The peer's static public point.
    pub closed spec fn peer_public_spec(self) -> Seq<u8> {
        self.peer_public@
    }

    /// The preshared key, zeros when absent.
    pub closed spec fn psk_spec(self) -> Seq<u8> {
        psk_or_zero(self.preshared_key)
    }

    /// The pending initiator half-states, keyed by local index.
    pub closed spec fn imap(self) -> Seq<([u8; 4], Initiator)> {
        self.initiator_map@
    }

    /// The installed decryptors, keyed by local index.
    pub closed spec fn dmap(self) -> Seq<([u8; 4], Decryptor)> {
        self.decryptor_map@
    }

    /// The current encryptor, if a session is established.
    pub closed spec fn enc(self) -> Option<Encryptor> {
        self.current_encryptor
    }

    /// Each table's keys are unique, and no index is in both tables.
    pub closed spec fn wf(self) -> bool {
        &&& keys_unique(self.initiator_map@)
        &&& keys_unique(self.decryptor_map@)
        &&& forall|i: int|
            0 <= i < self.initiator_map@.len() ==> !map_has(
                self.decryptor_map@,
                self.initiator_map@[i].0@,
            )
    }

    /// The identity (keys) of two tunnel states agree.
    pub open spec fn same_identity(a: Tunnel, b: Tunnel) -> bool {
        &&& a.self_secret_spec() == b.self_secret_spec()
        &&& a.self_public_spec() == b.self_public_spec()
        &&& a.peer_public_spec() == b.peer_public_spec()
        &&& a.psk_spec() == b.psk_spec()
    }

    /// Builds a tunnel around a static identity: the public point is
    /// derived from the secret, the tables start empty, and no session
    /// exists yet.
    pub fn new(self_secret: [u8; 32], peer_public: [u8; 32], preshared_key: Option<[u8; 32]>) -> (r:
        Tunnel)
        ensures
            r.wf(),
            r.self_secret_spec() == self_secret@,
            r.self_public_spec() == x25519_of(self_secret@, X25519_BASEPOINT@),
            r.peer_public_spec() == peer_public@,
            r.psk_spec() == psk_or_zero(preshared_key),
            r.imap().len() == 0,
            r.dmap().len() == 0,
            r.enc() is None,
    {
        let self_public = dh_base(&self_secret);
        Tunnel {
            self_secret,
            self_public,
            peer_public,
            preshared_key,
            initiator_map: Vec::new(),
            decryptor_map: Vec::new(),
            current_encryptor: None,
        }
    }

    /// Finds the position of a local index in the initiator table.
    fn imap_find(&self, idx: &[u8; 4]) -> (r: Option<usize>)
        ensures
            match r {
                Some(i) => i < self.imap().len() && self.imap()[i as int].0@ == idx@,
                None => !map_has(self.imap(), idx@),
            },
    {
        let n = self.initiator_map.len();
        let mut k: usize = 0;
        while k < n
            invariant
                k <= n,
                n == self.imap().len(),
                forall|j: int| 0 <= j < k ==> self.imap()[j].0@ != idx@,
            decreases n - k,
        {
            if bytes_eq(self.initiator_map[k].0.as_slice(), idx.as_slice()) {
                return Some(k);
            }
            k = k + 1;
        }
        None
    }

    /// Finds the position of a local index in the decryptor table.
    fn dmap_find(&self, idx: &[u8; 4]) -> (r: Option<usize>)
        ensures
            match r {
                Some(i) => i < self.dmap().len() && self.dmap()[i as int].0@ == idx@,
                None => !map_has(self.dmap(), idx@),
            },
    {
        let n = self.decryptor_map.len();
        let mut k: usize = 0;
        while k < n
            invariant
                k <= n,
                n == self.dmap().len(),
                forall|j: int| 0 <= j < k ==> self.dmap()[j].0@ != idx@,
            decreases n - k,
        {
            if bytes_eq(self.decryptor_map[k].0.as_slice(), idx.as_slice()) {
                return Some(k);
            }
            k = k + 1;
        }
        None
    }

    /// Draws random indices until one is free of both tables; gives up
    /// (astronomically unlikely) after a fixed number of draws.
    fn pick_fresh_index(&self) -> (r: Option<[u8; 4]>)
        ensures
            r matches Some(idx) ==> !map_has(self.imap(), idx@) && !map_has(self.dmap(), idx@),
            self.imap().len() == 0 && self.dmap().len() == 0 ==> r is Some,
    {
        let mut attempts: usize = 0;
        while attempts < INDEX_ATTEMPTS
            invariant
                self.imap().len() == 0 && self.dmap().len() == 0 ==> attempts == 0,
            decreases INDEX_ATTEMPTS - attempts,
        {
            let b = random_bytes();
            let idx = read_arr::<4>(b.as_slice(), 0);
            let in_imap = self.imap_find(&idx);
            let in_dmap = self.dmap_find(&idx);
            if in_imap.is_none() && in_dmap.is_none() {
                return Some(idx);
            }
            attempts = attempts + 1;
        }
        None
    }

    /// Starts a handshake: picks a fresh random local index, draws a fresh
    /// ephemeral secret, builds the initiation record, stores the
    /// half-state under the index, and returns the record's bytes. Fails
    /// with `Exhausted` exactly when no fresh index was found; the tables
    /// otherwise gain exactly the one entry whose index and ephemeral the
    /// returned record carries.
    pub fn begin_handshake(&mut self, now_secs: u64, now_nanos: u32) -> (r: Result<Vec<u8>, Error>)
        requires
            old(self).wf(),
        ensures
            final(self).wf(),
            Tunnel::same_identity(*final(self), *old(self)),
            final(self).dmap() == old(self).dmap(),
            final(self).enc() == old(self).enc(),
            r is Err ==> r->Err_0 == Error::Exhausted && final(self).imap() == old(self).imap(),
            old(self).imap().len() == 0 && old(self).dmap().len() == 0 ==> r is Ok,
            r is Ok ==> ({
                let entry = final(self).imap().last();
                &&& final(self).imap() == old(self).imap().push(entry)
                &&& !map_has(old(self).imap(), entry.0@)
                &&& !map_has(old(self).dmap(), entry.0@)
                &&& r->Ok_0@ == init_wire(
                    entry.0@,
                    old(self).self_secret_spec(),
                    old(self).self_public_spec(),
                    old(self).peer_public_spec(),
                    entry.1.e_s_spec(),
                    tai64n(now_secs, now_nanos),
                )
                &&& ({
                    let ue = x25519_of(entry.1.e_s_spec(), X25519_BASEPOINT@);
                    let dh1 = x25519_of(entry.1.e_s_spec(), old(self).peer_public_spec());
                    let dh2 = x25519_of(old(self).self_secret_spec(), old(self).peer_public_spec());
                    let es = crate::handshake::ik_es(
                        old(self).self_public_spec(),
                        old(self).peer_public_spec(),
                        ue,
                        dh1,
                    );
                    let et = crate::handshake::ik_et(
                        old(self).peer_public_spec(),
                        ue,
                        es,
                        dh1,
                        dh2,
                        tai64n(now_secs, now_nanos),
                    );
                    &&& entry.1.c_k_spec() == crate::handshake::ik_ck3(ue, dh1, dh2)
                    &&& entry.1.h_h_spec() == crate::handshake::ik_h3(
                        old(self).peer_public_spec(),
                        ue,
                        es,
                        et,
                    )
                })
            }),
    {
        let idx = match self.pick_fresh_index() {
            Some(idx) => idx,
            None => {
                return Err(Error::Exhausted);
            },
        };
        let eph = random_bytes();
        let mut msg = HandshakeInit {
            m_t: 0,
            r_0: [0u8; 3],
            s_i: [0u8; 4],
            u_e: [0u8; 32],
            e_s: [0u8; 48],
            e_t: [0u8; 28],
            m_1: [0u8; 16],
            m_2: [0u8; 16],
        };
        let half = match Initiator::send_handshake_init(
            idx,
            &self.self_secret,
            &self.self_public,
            &self.peer_public,
            eph,
            now_secs,
            now_nanos,
            None,
            &mut msg,
        ) {
            Ok(h) => h,
            Err(_) => {
                proof {
                    assert(false);
                }
                return Err(Error::Exhausted);
            },
        };
        let out = msg.raw_bytes();
        self.initiator_map.push((idx, half));
        proof {
            let m = self.initiator_map@;
            assert forall|i: int, j: int| 0 <= i < j < m.len() implies m[i].0@ != m[j].0@ by {
                if j == m.len() - 1 {
                    assert(!map_has(old(self).imap(), idx@));
                }
            }
            assert forall|i: int| 0 <= i < m.len() implies !map_has(self.decryptor_map@, m[i].0@) by {
                if i < m.len() - 1 {
                    assert(!map_has(old(self).dmap(), old(self).imap()[i].0@));
                }
            }
        }
        Ok(out)
    }

    /// Dispatches one inbound datagram on its leading message-type byte.
    ///
    /// Type 1 (handshake initiation): the responder path. The record is
    /// consumed per `recv_init_outcome`; on success a fresh local index is
    /// picked, the response record is built and returned, a decryptor for
    /// the session is installed under the fresh index, and the encryptor
    /// (keyed to the initiator's index, counters starting at zero) becomes
    /// current.
    ///
    /// Type 2 (handshake response): the initiator path. The half-state
    /// under the echoed receiver index is removed (whether or not the rest
    /// succeeds) and consumed per `recv_resp_outcome`; on success a
    /// decryptor is installed under that index and the encryptor becomes
    /// current.
    ///
    /// Type 4 (transport data): the record is routed by its receiver
    /// index to the installed decryptor and opened per `decrypt_outcome`;
    /// the recovered padded plaintext is returned.
    ///
    /// Anything else is discarded as `Handled`.
    pub fn on_datagram(&mut self, data: &[u8]) -> (r: Result<DatagramOutcome, Error>)
        requires
            old(self).wf(),
            data@.len() <= 0xffff_ffff,
        ensures
            final(self).wf(),
            Tunnel::same_identity(*final(self), *old(self)),
            (data@.len() == 0 || (data@[0] != 1 && data@[0] != 2 && data@[0] != 4)) ==> (
            r matches Ok(o) && o is Handled && *final(self) == *old(self)),
            (data@.len() >= 1 && data@[0] == 4) ==> ({
                &&& *final(self) == *old(self)
                &&& if data@.len() < TRANSPORT_HEADER_SIZE {
                    r == Err::<DatagramOutcome, Error>(
                        Error::BufferLengthTooShort {
                            expected: TRANSPORT_HEADER_SIZE,
                            got: data@.len() as usize,
                        },
                    )
                } else if !map_has(old(self).dmap(), data@.subrange(4, 8)) {
                    r == Err::<DatagramOutcome, Error>(Error::UnknownIndex)
                } else {
                    match decrypt_outcome(
                        map_at(old(self).dmap(), data@.subrange(4, 8)).key_spec(),
                        data@,
                    ) {
                        Ok(nb) => r matches Ok(o) && o matches DatagramOutcome::Plaintext(v)
                            && v@ == nb.subrange(16, nb.len() - 16),
                        Err(e) => r == Err::<DatagramOutcome, Error>(e),
                    }
                }
            }),
            (data@.len() >= 1 && data@[0] == 1 && data@.len() >= HANDSHAKE_INIT_SIZE
                && recv_init_outcome(
                old(self).self_secret_spec(),
                old(self).self_public_spec(),
                old(self).peer_public_spec(),
                parse_init_of(data@),
            ) is Ok && old(self).imap().len() == 0 && old(self).dmap().len() == 0) ==> r is Ok,
            (data@.len() >= 1 && data@[0] == 1) ==> ({
                if data@.len() < HANDSHAKE_INIT_SIZE {
                    r == Err::<DatagramOutcome, Error>(
                        Error::BufferLengthTooShort {
                            expected: HANDSHAKE_INIT_SIZE,
                            got: data@.len() as usize,
                        },
                    ) && *final(self) == *old(self)
                } else {
                    match recv_init_outcome(
                        old(self).self_secret_spec(),
                        old(self).self_public_spec(),
                        old(self).peer_public_spec(),
                        parse_init_of(data@),
                    ) {
                        Err(e) => r == Err::<DatagramOutcome, Error>(e) && *final(self) == *old(self),
                        Ok(st) => {
                            let ck = st.0;
                            let h = st.1;
                            let ep = st.2;
                            ||| (r == Err::<DatagramOutcome, Error>(Error::Exhausted) && *final(self) == *old(self))
                            ||| (r matches Ok(o) && o matches DatagramOutcome::Response(v) && ({
                                let entry = final(self).dmap().last();
                                &&& final(self).imap() == old(self).imap()
                                &&& final(self).dmap() == old(self).dmap().push(entry)
                                &&& !map_has(old(self).dmap(), entry.0@)
                                &&& !map_has(old(self).imap(), entry.0@)
                                &&& exists|eph: Seq<u8>|
                                    #![trigger resp_wire(
                                        parse_init_of(data@).s_i@,
                                        entry.0@,
                                        old(self).peer_public_spec(),
                                        ck,
                                        h,
                                        ep,
                                        eph,
                                        old(self).psk_spec(),
                                    )]
                                    {
                                        let ck7 = resp_ck7(
                                            ck,
                                            x25519_of(eph, X25519_BASEPOINT@),
                                            x25519_of(eph, ep),
                                            x25519_of(eph, old(self).peer_public_spec()),
                                            old(self).psk_spec(),
                                        );
                                        &&& v@ == resp_wire(
                                            parse_init_of(data@).s_i@,
                                            entry.0@,
                                            old(self).peer_public_spec(),
                                            ck,
                                            h,
                                            ep,
                                            eph,
                                            old(self).psk_spec(),
                                        )
                                        &&& entry.1.key_spec() == key_t2(ck7)
                                        &&& entry.1.r_i_spec() == entry.0@
                                        &&& (final(self).enc() matches Some(e)
                                            && e.key_spec() == key_t3(ck7)
                                            && e.r_i_spec() == parse_init_of(data@).s_i@
                                            && e.s_c_spec() == 0
                                            && e.s_b_spec() == REJECT_AFTER_MESSAGES)
                                    }
                            }))
                        },
                    }
                }
            }),
            (data@.len() >= 1 && data@[0] == 2) ==> ({
                if data@.len() < HANDSHAKE_RESP_SIZE {
                    r == Err::<DatagramOutcome, Error>(
                        Error::BufferLengthTooShort {
                            expected: HANDSHAKE_RESP_SIZE,
                            got: data@.len() as usize,
                        },
                    ) && *final(self) == *old(self)
                } else if !map_has(old(self).imap(), parse_resp_of(data@).r_i@) {
                    r == Err::<DatagramOutcome, Error>(Error::UnknownIndex) && *final(self)
                        == *old(self)
                } else {
                    let k = parse_resp_of(data@).r_i@;
                    let half = map_at(old(self).imap(), k);
                    let removed = old(self).imap().remove(map_index_of(old(self).imap(), k));
                    &&& final(self).imap() == removed
                    &&& match recv_resp_outcome(
                        half.c_k_spec(),
                        half.h_h_spec(),
                        half.e_s_spec(),
                        old(self).self_secret_spec(),
                        old(self).psk_spec(),
                        parse_resp_of(data@),
                    ) {
                        Err(e) => r == Err::<DatagramOutcome, Error>(e) && final(self).dmap()
                            == old(self).dmap() && final(self).enc() == old(self).enc(),
                        Ok(keys) => r matches Ok(o) && o is Handled && ({
                            let entry = final(self).dmap().last();
                            &&& final(self).dmap() == old(self).dmap().push(entry)
                            &&& entry.0@ == k
                            &&& entry.1.key_spec() == keys.1
                            &&& entry.1.r_i_spec() == k
                            &&& (final(self).enc() matches Some(e) && e.key_spec() == keys.0
                                && e.r_i_spec() == parse_resp_of(data@).s_i@ && e.s_c_spec() == 0
                                && e.s_b_spec() == REJECT_AFTER_MESSAGES)
                        }),
                    }
                }
            }),
    {
        if data.len() == 0 {
            return Ok(DatagramOutcome::Handled);
        }
        let m_t = data[0];
        if m_t == 0x04 {
            self.on_transport(data)
        } else if m_t == 0x01 {
            self.on_init(data)
        } else if m_t == 0x02 {
            self.on_resp(data)
        } else {
            Ok(DatagramOutcome::Handled)
        }
    }

    /// The transport branch of `on_datagram`.
    fn on_transport(&mut self, data: &[u8]) -> (r: Result<DatagramOutcome, Error>)
        requires
            old(self).wf(),
            data@.len() <= 0xffff_ffff,
            data@.len() >= 1,
            data@[0] == 4,
        ensures
            *final(self) == *old(self),
            if data@.len() < TRANSPORT_HEADER_SIZE {
                r == Err::<DatagramOutcome, Error>(
                    Error::BufferLengthTooShort {
                        expected: TRANSPORT_HEADER_SIZE,
                        got: data@.len() as usize,
                    },
                )
            } else if !map_has(old(self).dmap(), data@.subrange(4, 8)) {
                r == Err::<DatagramOutcome, Error>(Error::UnknownIndex)
            } else {
                match decrypt_outcome(
                    map_at(old(self).dmap(), data@.subrange(4, 8)).key_spec(),
                    data@,
                ) {
                    Ok(nb) => r matches Ok(o) && o matches DatagramOutcome::Plaintext(v) && v@
                        == nb.subrange(16, nb.len() - 16),
                    Err(e) => r == Err::<DatagramOutcome, Error>(e),
                }
            },
    {
        if data.len() < TRANSPORT_HEADER_SIZE {
            return Err(
                Error::BufferLengthTooShort { expected: TRANSPORT_HEADER_SIZE, got: data.len() },
            );
        }
        let idx = read_arr::<4>(data, 4);
        proof {
            assert(idx@ =~= data@.subrange(4, 8));
        }
        let di = match self.dmap_find(&idx) {
            Some(i) => i,
            None => {
                return Err(Error::UnknownIndex);
            },
        };
        proof {
            lemma_map_at_unique(self.dmap(), idx@, di as int);
        }
        let mut buf = vstd::slice::slice_to_vec(data);
        match self.decryptor_map[di].1.decrypt(&mut buf) {
            Ok(()) => {
                let n = buf.len();
                let pt = sub_vec(buf.as_slice(), 16, n - 32);
                proof {
                    assert(pt@ =~= buf@.subrange(16, buf@.len() - 16));
                }
                Ok(DatagramOutcome::Plaintext(pt))
            },
            Err(e) => Err(e),
        }
    }

    /// The handshake-initiation (responder) branch of `on_datagram`.
    #[verifier::rlimit(100)]
    #[verifier::spinoff_prover]
    fn on_init(&mut self, data: &[u8]) -> (r: Result<DatagramOutcome, Error>)
        requires
            old(self).wf(),
            data@.len() >= 1,
            data@[0] == 1,
        ensures
            final(self).wf(),
            Tunnel::same_identity(*final(self), *old(self)),
            data@.len() >= HANDSHAKE_INIT_SIZE && recv_init_outcome(
                old(self).self_secret_spec(),
                old(self).self_public_spec(),
                old(self).peer_public_spec(),
                parse_init_of(data@),
            ) is Ok && old(self).imap().len() == 0 && old(self).dmap().len() == 0 ==> r is Ok,
            if data@.len() < HANDSHAKE_INIT_SIZE {
                r == Err::<DatagramOutcome, Error>(
                    Error::BufferLengthTooShort {
                        expected: HANDSHAKE_INIT_SIZE,
                        got: data@.len() as usize,
                    },
                ) && *final(self) == *old(self)
            } else {
                match recv_init_outcome(
                    old(self).self_secret_spec(),
                    old(self).self_public_spec(),
                    old(self).peer_public_spec(),
                    parse_init_of(data@),
                ) {
                    Err(e) => r == Err::<DatagramOutcome, Error>(e) && *final(self) == *old(self),
                    Ok(st) => (r == Err::<DatagramOutcome, Error>(Error::Exhausted) && *final(self) == *old(self)) || (r is Ok && r->Ok_0 is Response && exists|eph: Seq<u8>|
                        #[trigger] response_installed(
                            *old(self),
                            *final(self),
                            parse_init_of(data@).s_i@,
                            st.0,
                            st.1,
                            st.2,
                            r->Ok_0->Response_0@,
                            eph,
                        )),
                }
            },
    {
        if data.len() < HANDSHAKE_INIT_SIZE {
            return Err(
                Error::BufferLengthTooShort { expected: HANDSHAKE_INIT_SIZE, got: data.len() },
            );
        }
        let msg = match HandshakeInit::wrap_ref(data) {
            Ok(m) => m,
            Err(_) => {
                proof {
                    assert(false);
                }
                return Err(Error::InvalidMessageType);
            },
        };
        proof {
            crate::packet::lemma_parse_init_of(msg, data@);
        }
        let half = match Responder::recv_handshake_init(
            &self.self_secret,
            &self.self_public,
            &self.peer_public,
            &msg,
        ) {
            Ok(h) => h,
            Err(e) => {
                return Err(e);
            },
        };
        let ghost i_i_ghost = msg.s_i@;
        let ghost hck = half.c_k_spec();
        let ghost hh = half.h_h_spec();
        let ghost hep = half.e_p_spec();
        match self.install_responder_session(msg.s_i, half) {
            Ok(v) => {
                let ghost vbytes = v@;
                let result: Result<DatagramOutcome, Error> = Ok(DatagramOutcome::Response(v));
                proof {
                    let w = choose|w: Seq<u8>|
                        #[trigger] response_installed(
                            *old(self),
                            *self,
                            i_i_ghost,
                            hck,
                            hh,
                            hep,
                            vbytes,
                            w,
                        );
                    let st = recv_init_outcome(
                        old(self).self_secret_spec(),
                        old(self).self_public_spec(),
                        old(self).peer_public_spec(),
                        parse_init_of(data@),
                    )->Ok_0;
                    assert(st.0 == hck && st.1 == hh && st.2 == hep);
                    assert(response_installed(
                        *old(self),
                        *self,
                        parse_init_of(data@).s_i@,
                        st.0,
                        st.1,
                        st.2,
                        result->Ok_0->Response_0@,
                        w,
                    ));
                }
                result
            },
            Err(e) => Err(e),
        }
    }

    /// Installs the session a consumed initiation produced: picks a fresh
    /// index, builds and returns the response record, installs the
    /// decryptor under the fresh index, and makes the encryptor current.
    #[verifier::rlimit(100)]
    fn install_responder_session(&mut self, i_i: [u8; 4], half: Responder) -> (r: Result<
        Vec<u8>,
        Error,
    >)
        requires
            old(self).wf(),
        ensures
            final(self).wf(),
            Tunnel::same_identity(*final(self), *old(self)),
            r is Err ==> r->Err_0 == Error::Exhausted && *final(self) == *old(self),
            old(self).imap().len() == 0 && old(self).dmap().len() == 0 ==> r is Ok,
            r is Ok ==> exists|eph: Seq<u8>|
                #[trigger] response_installed(
                    *old(self),
                    *final(self),
                    i_i@,
                    half.c_k_spec(),
                    half.h_h_spec(),
                    half.e_p_spec(),
                    r->Ok_0@,
                    eph,
                ),
    {
        let r_i = match self.pick_fresh_index() {
            Some(i) => i,
            None => {
                return Err(Error::Exhausted);
            },
        };
        let eph = random_bytes();
        let mut resp = HandshakeResp {
            m_t: 0,
            r_0: [0u8; 3],
            s_i: [0u8; 4],
            r_i: [0u8; 4],
            u_e: [0u8; 32],
            e_n: [0u8; 16],
            m_1: [0u8; 16],
            m_2: [0u8; 16],
        };
        let keys = match half.send_handshake_resp(
            i_i,
            &self.peer_public,
            r_i,
            eph,
            self.preshared_key,
            None,
            &mut resp,
        ) {
            Ok(p) => p,
            Err(_) => {
                proof {
                    assert(false);
                }
                return Err(Error::Exhausted);
            },
        };
        let out = resp.raw_bytes();
        self.decryptor_map.push((r_i, Decryptor::new(r_i, keys.1)));
        self.current_encryptor = Some(
            Encryptor::new(i_i, keys.0, 0, REJECT_AFTER_MESSAGES),
        );
        proof {
            let m = self.decryptor_map@;
            assert forall|i: int, j: int| 0 <= i < j < m.len() implies m[i].0@ != m[j].0@ by {
                if j == m.len() - 1 {
                    assert(!map_has(old(self).dmap(), r_i@));
                }
            }
            assert forall|i: int|
                0 <= i < self.initiator_map@.len() implies !map_has(
                m,
                self.initiator_map@[i].0@,
            ) by {
                assert(!map_has(old(self).dmap(), old(self).imap()[i].0@));
                lemma_map_has_push(old(self).dmap(), m.last(), old(self).imap()[i].0@);
                assert(!map_has(old(self).imap(), r_i@));
                if old(self).imap()[i].0@ == r_i@ {
                    assert(map_has(old(self).imap(), r_i@));
                }
            }
        }
        let result: Result<Vec<u8>, Error> = Ok(out);
        proof {
            assert(response_installed(
                *old(self),
                *self,
                i_i@,
                half.c_k_spec(),
                half.h_h_spec(),
                half.e_p_spec(),
                result->Ok_0@,
                eph@,
            ));
        }
        result
    }

    /// The handshake-response (initiator) branch of `on_datagram`.
    fn on_resp(&mut self, data: &[u8]) -> (r: Result<DatagramOutcome, Error>)
        requires
            old(self).wf(),
            data@.len() >= 1,
            data@[0] == 2,
        ensures
            final(self).wf(),
            Tunnel::same_identity(*final(self), *old(self)),
            if data@.len() < HANDSHAKE_RESP_SIZE {
                r == Err::<DatagramOutcome, Error>(
                    Error::BufferLengthTooShort {
                        expected: HANDSHAKE_RESP_SIZE,
                        got: data@.len() as usize,
                    },
                ) && *final(self) == *old(self)
            } else if !map_has(old(self).imap(), parse_resp_of(data@).r_i@) {
                r == Err::<DatagramOutcome, Error>(Error::UnknownIndex) && *final(self) == *old(self)
            } else {
                let k = parse_resp_of(data@).r_i@;
                let half = map_at(old(self).imap(), k);
                let removed = old(self).imap().remove(map_index_of(old(self).imap(), k));
                &&& final(self).imap() == removed
                &&& match recv_resp_outcome(
                    half.c_k_spec(),
                    half.h_h_spec(),
                    half.e_s_spec(),
                    old(self).self_secret_spec(),
                    old(self).psk_spec(),
                    parse_resp_of(data@),
                ) {
                    Err(e) => r == Err::<DatagramOutcome, Error>(e) && final(self).dmap() == old(self).dmap() && final(self).enc() == old(self).enc(),
                    Ok(keys) => r matches Ok(o) && o is Handled && ({
                        let entry = final(self).dmap().last();
                        &&& final(self).dmap() == old(self).dmap().push(entry)
                        &&& entry.0@ == k
                        &&& entry.1.key_spec() == keys.1
                        &&& entry.1.r_i_spec() == k
                        &&& (final(self).enc() matches Some(e) && e.key_spec() == keys.0
                            && e.r_i_spec() == parse_resp_of(data@).s_i@ && e.s_c_spec() == 0
                            && e.s_b_spec() == REJECT_AFTER_MESSAGES)
                    }),
                }
            },
    {
        if data.len() < HANDSHAKE_RESP_SIZE {
            return Err(
                Error::BufferLengthTooShort { expected: HANDSHAKE_RESP_SIZE, got: data.len() },
            );
        }
        let msg = match HandshakeResp::wrap_ref(data) {
            Ok(m) => m,
            Err(_) => {
                proof {
                    assert(false);
                }
                return Err(Error::InvalidMessageType);
            },
        };
        proof {
            crate::packet::lemma_parse_resp_of(msg, data@);
        }
        let idx = msg.r_i;
        let pos = match self.imap_find(&idx) {
            Some(i) => i,
            None => {
                return Err(Error::UnknownIndex);
            },
        };
        proof {
            lemma_map_at_unique(self.imap(), idx@, pos as int);
        }
        let entry = self.initiator_map.remove(pos);
        proof {
            lemma_map_remove_keeps(old(self).imap(), pos as int);
        }
        let half = entry.1;
        match half.recv_handshake_resp(&self.self_secret, self.preshared_key, &msg) {
            Err(e) => {
                proof {
                    lemma_wf_after_remove(*old(self), *self, pos as int);
                }
                Err(e)
            },
            Ok(keys) => {
                self.decryptor_map.push((idx, Decryptor::new(idx, keys.1)));
                self.current_encryptor = Some(
                    Encryptor::new(msg.s_i, keys.0, 0, REJECT_AFTER_MESSAGES),
                );
                proof {
                    let im = self.initiator_map@;
                    let dm = self.decryptor_map@;
                    lemma_map_remove_keeps(old(self).imap(), pos as int);
                    assert(!map_has(old(self).dmap(), idx@));
                    assert forall|i: int, j: int| 0 <= i < j < dm.len() implies dm[i].0@
                        != dm[j].0@ by {
                        if j == dm.len() - 1 {
                            assert(!map_has(old(self).dmap(), idx@));
                        }
                    }
                    assert forall|i: int| 0 <= i < im.len() implies !map_has(dm, im[i].0@) by {
                        assert(map_has(old(self).imap(), im[i].0@));
                        assert(!map_has(old(self).dmap(), im[i].0@));
                        lemma_map_has_push(old(self).dmap(), dm.last(), im[i].0@);
                        if im[i].0@ == idx@ {
                            lemma_remove_no_dup(old(self).imap(), pos as int, i);
                        }
                    }
                }
                Ok(DatagramOutcome::Handled)
            },
        }
    }

    /// Seals outbound plaintext into a transport record under the current
    /// encryptor. Fails with `NoSession` when no session is established
    /// and with `CounterExhausted` when the session's counter range is
    /// used up; otherwise the returned bytes are the exact record of the
    /// session key, the next counter and the zero-padded plaintext, and
    /// the counter advances by one.
    pub fn encrypt(&mut self, plaintext: &[u8]) -> (r: Result<Vec<u8>, Error>)
        requires
            old(self).wf(),
            plaintext@.len() + 48 <= 0xffff_ffff,
        ensures
            final(self).wf(),
            Tunnel::same_identity(*final(self), *old(self)),
            final(self).imap() == old(self).imap(),
            final(self).dmap() == old(self).dmap(),
            old(self).enc() is None ==> r == Err::<Vec<u8>, Error>(Error::NoSession) && final(self).enc() is None,
            old(self).enc() matches Some(e) ==> ({
                &&& (r is Ok <==> e.s_c_spec() < e.s_b_spec())
                &&& (r is Err ==> r->Err_0 == Error::CounterExhausted && final(self).enc() == old(self).enc())
                &&& (r is Ok ==> ({
                    let sealed = chacha_seal_of(
                        e.key_spec(),
                        e.s_c_spec(),
                        Seq::empty(),
                        padded_pt(plaintext@),
                    );
                    &&& r->Ok_0@ == transport_header(e.r_i_spec(), e.s_c_spec()) + sealed
                    &&& decrypt_outcome(e.key_spec(), r->Ok_0@) == Ok::<Seq<u8>, Error>(
                        transport_header(e.r_i_spec(), e.s_c_spec()) + padded_pt(plaintext@)
                            + sealed.skip(padded_pt(plaintext@).len() as int),
                    )
                    &&& (final(self).enc() matches Some(e2) && e2.s_c_spec() == e.s_c_spec() + 1
                        && e2.s_b_spec() == e.s_b_spec() && e2.key_spec() == e.key_spec()
                        && e2.r_i_spec() == e.r_i_spec())
                }))
            }),
    {
        match &mut self.current_encryptor {
            None => Err(Error::NoSession),
            Some(enc) => {
                let staged = Decrypted::from_plaintext(plaintext);
                match enc.encrypt(staged) {
                    Ok(out) => Ok(vstd::slice::slice_to_vec(out.data())),
                    Err(e) => Err(e),
                }
            },
        }
    }
}

} // verus!


