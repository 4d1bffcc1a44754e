//! Fixed-layout wire records: handshake initiation, handshake response,
//! and transport data. All multi-byte integers on the wire are
//! little-endian; records are packed with no padding.
//!
//! A record type holds each field as plain bytes; `wire` is its exact byte
//! image, `wrap_ref` reads a record off a buffer's prefix, and `raw_bytes`
//! serializes it back. Parsing and serialization are proved inverse to one
//! another, and every field sits at its declared offset of the byte image.

use vstd::prelude::*;

use crate::error::Error;

verus! {

/// Byte length of a handshake initiation record.
pub const HANDSHAKE_INIT_SIZE: usize = 148;

/// Byte length of a handshake response record.
pub const HANDSHAKE_RESP_SIZE: usize = 92;

/// Byte length of the transport-data header (type, reserved, receiver
/// index, counter).
pub const TRANSPORT_HEADER_SIZE: usize = 16;

/// Smallest valid transport-data record: header plus tag.
pub const TRANSPORT_MIN_SIZE: usize = 32;

/// Reads `N` bytes starting at `at` into a fresh array.
pub fn read_arr<const N: usize>(buffer: &[u8], at: usize) -> (r: [u8; N])
    requires
        at + N <= buffer@.len(),
    ensures
        r@ == buffer@.subrange(at as int, at + N),
{
    let blen = buffer.len();
    let mut a = [0u8; N];
    let mut k: usize = 0;
    while k < N
        invariant
            k <= N,
            at + N <= blen,
            blen == buffer@.len(),
            a@.len() == N,
            forall|j: int| 0 <= j < k ==> a@[j] == buffer@[at + j],
        decreases N - k,
    {
        a[k] = buffer[at + k];
        k = k + 1;
    }
    proof {
        assert(a@ =~= buffer@.subrange(at as int, at + N));
    }
    a
}

/// Writes `src` over `dst[at .. at + src.len()]`, leaving the rest of
/// `dst` unchanged.
pub fn write_bytes(dst: &mut Vec<u8>, at: usize, src: &[u8])
    requires
        at + src@.len() <= old(dst)@.len(),
    ensures
        final(dst)@.len() == old(dst)@.len(),
        final(dst)@ == old(dst)@.subrange(0, at as int) + src@ + old(dst)@.subrange(
            at + src@.len(),
            old(dst)@.len() as int,
        ),
{
    let n = src.len();
    let dlen = dst.len();
    let mut k: usize = 0;
    while k < n
        invariant
            k <= n,
            n == src@.len(),
            at + n <= dlen,
            dlen == dst@.len(),
            dst@.len() == old(dst)@.len(),
            forall|j: int| 0 <= j < k ==> dst@[at + j] == src@[j],
            forall|j: int| 0 <= j < at ==> dst@[j] == old(dst)@[j],
            forall|j: int| at + n <= j < dst@.len() ==> dst@[j] == old(dst)@[j],
            forall|j: int| at + k <= j < at + n ==> dst@[j] == old(dst)@[j],
        decreases n - k,
    {
        dst[at + k] = src[k];
        k = k + 1;
    }
    proof {
        assert(dst@ =~= old(dst)@.subrange(0, at as int) + src@ + old(dst)@.subrange(
            at + src@.len(),
            old(dst)@.len() as int,
        ));
    }
}

/// Copies `src[at .. at + n]` into a fresh vector.
pub fn sub_vec(src: &[u8], at: usize, n: usize) -> (r: Vec<u8>)
    requires
        at + n <= src@.len(),
    ensures
        r@ == src@.subrange(at as int, at + n),
{
    // Reading the length as a machine word shows `at + n` cannot overflow.
    let l = src.len();
    vstd::slice::slice_to_vec(vstd::slice::slice_subrange(src, at, at + n))
}

/// Whether two byte strings hold the same bytes.
pub fn bytes_eq(a: &[u8], b: &[u8]) -> (r: bool)
    ensures
        r <==> a@ == b@,
{
    let n = a.len();
    if n != b.len() {
        return false;
    }
    let mut k: usize = 0;
    while k < n
        invariant
            k <= n,
            n == a@.len(),
            n == b@.len(),
            forall|j: int| 0 <= j < k ==> a@[j] == b@[j],
        decreases n - k,
    {
        if a[k] != b[k] {
            return false;
        }
        k = k + 1;
    }
    proof {
        assert(a@ =~= b@);
    }
    true
}

/// A handshake initiation record: message type 1.
#[derive(Clone, Copy, PartialEq, Eq, Debug)]
pub struct HandshakeInit {
    /// Message type; 1 on a well-formed record.
    pub m_t: u8,
    /// Reserved zero bytes.
    pub r_0: [u8; 3],
    /// Sender (initiator-chosen) index.
    pub s_i: [u8; 4],
    /// Unencrypted ephemeral public point.
    pub u_e: [u8; 32],
    /// Encrypted static public key: 32 ciphertext bytes and a 16-byte tag.
    pub e_s: [u8; 48],
    /// Encrypted timestamp: 12 ciphertext bytes and a 16-byte tag.
    pub e_t: [u8; 28],
    /// First message authentication code.
    pub m_1: [u8; 16],
    /// Second message authentication code (cookie).
    pub m_2: [u8; 16],
}

impl HandshakeInit {
    /// The exact byte image of the record.
    pub open spec fn wire(self) -> Seq<u8> {
        seq![self.m_t] + self.r_0@ + self.s_i@ + self.u_e@ + self.e_s@ + self.e_t@ + self.m_1@
            + self.m_2@
    }

    /// The byte image is 148 bytes long.
    pub proof fn lemma_wire_len(self)
        ensures
            self.wire().len() == HANDSHAKE_INIT_SIZE,
    {
    }

    /// Each field stands at its declared offset of the byte image.
    pub proof fn lemma_wire_offsets(self)
        ensures
            self.wire()[0] == self.m_t,
            self.wire().subrange(1, 4) == self.r_0@,
            self.wire().subrange(4, 8) == self.s_i@,
            self.wire().subrange(8, 40) == self.u_e@,
            self.wire().subrange(40, 88) == self.e_s@,
            self.wire().subrange(88, 116) == self.e_t@,
            self.wire().subrange(116, 132) == self.m_1@,
            self.wire().subrange(132, 148) == self.m_2@,
    {
        assert(self.wire().subrange(1, 4) =~= self.r_0@);
        assert(self.wire().subrange(4, 8) =~= self.s_i@);
        assert(self.wire().subrange(8, 40) =~= self.u_e@);
        assert(self.wire().subrange(40, 88) =~= self.e_s@);
        assert(self.wire().subrange(88, 116) =~= self.e_t@);
        assert(self.wire().subrange(116, 132) =~= self.m_1@);
        assert(self.wire().subrange(132, 148) =~= self.m_2@);
    }

    /// Two records with the same byte image are the same record.
    pub proof fn lemma_wire_injective(a: Self, b: Self)
        requires
            a.wire() == b.wire(),
        ensures
            a == b,
    {
        a.lemma_wire_offsets();
        b.lemma_wire_offsets();
        assert(a.r_0 =~= b.r_0);
        assert(a.s_i =~= b.s_i);
        assert(a.u_e =~= b.u_e);
        assert(a.e_s =~= b.e_s);
        assert(a.e_t =~= b.e_t);
        assert(a.m_1 =~= b.m_1);
        assert(a.m_2 =~= b.m_2);
    }

    /// Reads a record off the first 148 bytes of `buffer`; fails exactly
    /// when the buffer is shorter than that.
    pub fn wrap_ref(buffer: &[u8]) -> (r: Result<Self, Error>)
        ensures
            r is Ok <==> buffer@.len() >= HANDSHAKE_INIT_SIZE,
            r is Ok ==> r->Ok_0.wire() == buffer@.subrange(0, HANDSHAKE_INIT_SIZE as int),
            r is Err ==> r->Err_0 == (Error::BufferLengthTooShort {
                expected: HANDSHAKE_INIT_SIZE,
                got: buffer@.len() as usize,
            }),
    {
        if buffer.len() < HANDSHAKE_INIT_SIZE {
            return Err(Error::BufferLengthTooShort { expected: HANDSHAKE_INIT_SIZE, got: buffer.len() });
        }
        let m = HandshakeInit {
            m_t: buffer[0],
            r_0: read_arr::<3>(buffer, 1),
            s_i: read_arr::<4>(buffer, 4),
            u_e: read_arr::<32>(buffer, 8),
            e_s: read_arr::<48>(buffer, 40),
            e_t: read_arr::<28>(buffer, 88),
            m_1: read_arr::<16>(buffer, 116),
            m_2: read_arr::<16>(buffer, 132),
        };
        proof {
            assert(m.wire() =~= buffer@.subrange(0, HANDSHAKE_INIT_SIZE as int));
        }
        Ok(m)
    }

    /// Serializes the record to its 148-byte image.
    pub fn raw_bytes(&self) -> (r: Vec<u8>)
        ensures
            r@ == self.wire(),
    {
        let mut r: Vec<u8> = Vec::new();
        r.push(self.m_t);
        r.extend_from_slice(&self.r_0);
        r.extend_from_slice(&self.s_i);
        r.extend_from_slice(&self.u_e);
        r.extend_from_slice(&self.e_s);
        r.extend_from_slice(&self.e_t);
        r.extend_from_slice(&self.m_1);
        r.extend_from_slice(&self.m_2);
        proof {
            assert(r@ =~= self.wire());
        }
        r
    }
}

/// The record whose byte image is the 148-byte prefix of `b`: the
/// spec-level counterpart of `HandshakeInit::wrap_ref`.
pub open spec fn parse_init_of(b: Seq<u8>) -> HandshakeInit {
    choose|m: HandshakeInit| m.wire() == b.subrange(0, HANDSHAKE_INIT_SIZE as int)
}

/// `parse_init_of` names exactly the record a successful `wrap_ref` read.
pub proof fn lemma_parse_init_of(m: HandshakeInit, b: Seq<u8>)
    requires
        m.wire() == b.subrange(0, HANDSHAKE_INIT_SIZE as int),
    ensures
        parse_init_of(b) == m,
{
    assert(exists|x: HandshakeInit| x.wire() == b.subrange(0, HANDSHAKE_INIT_SIZE as int));
    HandshakeInit::lemma_wire_injective(parse_init_of(b), m);
}

/// A handshake response record: message type 2.
#[derive(Clone, Copy, PartialEq, Eq, Debug)]
pub struct HandshakeResp {
    /// Message type; 2 on a well-formed record.
    pub m_t: u8,
    /// Reserved zero bytes.
    pub r_0: [u8; 3],
    /// Sender (responder-chosen) index.
    pub s_i: [u8; 4],
    /// Receiver index: the initiator's index, echoed back.
    pub r_i: [u8; 4],
    /// Unencrypted ephemeral public point.
    pub u_e: [u8; 32],
    /// Encrypted empty payload: a bare 16-byte tag.
    pub e_n: [u8; 16],
    /// First message authentication code.
    pub m_1: [u8; 16],
    /// Second message authentication code (cookie).
    pub m_2: [u8; 16],
}

impl HandshakeResp {
    /// The exact byte image of the record.
    pub open spec fn wire(self) -> Seq<u8> {
        seq![self.m_t] + self.r_0@ + self.s_i@ + self.r_i@ + self.u_e@ + self.e_n@ + self.m_1@
            + self.m_2@
    }

    /// The byte image is 92 bytes long.
    pub proof fn lemma_wire_len(self)
        ensures
            self.wire().len() == HANDSHAKE_RESP_SIZE,
    {
    }

    /// Each field stands at its declared offset of the byte image.
    pub proof fn lemma_wire_offsets(self)
        ensures
            self.wire()[0] == self.m_t,
            self.wire().subrange(1, 4) == self.r_0@,
            self.wire().subrange(4, 8) == self.s_i@,
            self.wire().subrange(8, 12) == self.r_i@,
            self.wire().subrange(12, 44) == self.u_e@,
            self.wire().subrange(44, 60) == self.e_n@,
            self.wire().subrange(60, 76) == self.m_1@,
            self.wire().subrange(76, 92) == self.m_2@,
    {
        assert(self.wire().subrange(1, 4) =~= self.r_0@);
        assert(self.wire().subrange(4, 8) =~= self.s_i@);
        assert(self.wire().subrange(8, 12) =~= self.r_i@);
        assert(self.wire().subrange(12, 44) =~= self.u_e@);
        assert(self.wire().subrange(44, 60) =~= self.e_n@);
        assert(self.wire().subrange(60, 76) =~= self.m_1@);
        assert(self.wire().subrange(76, 92) =~= self.m_2@);
    }

    /// Two records with the same byte image are the same record.
    pub proof fn lemma_wire_injective(a: Self, b: Self)
        requires
            a.wire() == b.wire(),
        ensures
            a == b,
    {
        a.lemma_wire_offsets();
        b.lemma_wire_offsets();
        assert(a.r_0 =~= b.r_0);
        assert(a.s_i =~= b.s_i);
        assert(a.r_i =~= b.r_i);
        assert(a.u_e =~= b.u_e);
        assert(a.e_n =~= b.e_n);
        assert(a.m_1 =~= b.m_1);
        assert(a.m_2 =~= b.m_2);
    }

    /// Reads a record off the first 92 bytes of `buffer`; fails exactly
    /// when the buffer is shorter than that.
    pub fn wrap_ref(buffer: &[u8]) -> (r: Result<Self, Error>)
        ensures
            r is Ok <==> buffer@.len() >= HANDSHAKE_RESP_SIZE,
            r is Ok ==> r->Ok_0.wire() == buffer@.subrange(0, HANDSHAKE_RESP_SIZE as int),
            r is Err ==> r->Err_0 == (Error::BufferLengthTooShort {
                expected: HANDSHAKE_RESP_SIZE,
                got: buffer@.len() as usize,
            }),
    {
        if buffer.len() < HANDSHAKE_RESP_SIZE {
            return Err(Error::BufferLengthTooShort { expected: HANDSHAKE_RESP_SIZE, got: buffer.len() });
        }
        let m = HandshakeResp {
            m_t: buffer[0],
            r_0: read_arr::<3>(buffer, 1),
            s_i: read_arr::<4>(buffer, 4),
            r_i: read_arr::<4>(buffer, 8),
            u_e: read_arr::<32>(buffer, 12),
            e_n: read_arr::<16>(buffer, 44),
            m_1: read_arr::<16>(buffer, 60),
            m_2: read_arr::<16>(buffer, 76),
        };
        proof {
            assert(m.wire() =~= buffer@.subrange(0, HANDSHAKE_RESP_SIZE as int));
        }
        Ok(m)
    }

    /// Serializes the record to its 92-byte image.
    pub fn raw_bytes(&self) -> (r: Vec<u8>)
        ensures
            r@ == self.wire(),
    {
        let mut r: Vec<u8> = Vec::new();
        r.push(self.m_t);
        r.extend_from_slice(&self.r_0);
        r.extend_from_slice(&self.s_i);
        r.extend_from_slice(&self.r_i);
        r.extend_from_slice(&self.u_e);
        r.extend_from_slice(&self.e_n);
        r.extend_from_slice(&self.m_1);
        r.extend_from_slice(&self.m_2);
        proof {
            assert(r@ =~= self.wire());
        }
        r
    }
}

/// The record whose byte image is the 92-byte prefix of `b`: the
/// spec-level counterpart of `HandshakeResp::wrap_ref`.
pub open spec fn parse_resp_of(b: Seq<u8>) -> HandshakeResp {
    choose|m: HandshakeResp| m.wire() == b.subrange(0, HANDSHAKE_RESP_SIZE as int)
}

/// `parse_resp_of` names exactly the record a successful `wrap_ref` read.
pub proof fn lemma_parse_resp_of(m: HandshakeResp, b: Seq<u8>)
    requires
        m.wire() == b.subrange(0, HANDSHAKE_RESP_SIZE as int),
    ensures
        parse_resp_of(b) == m,
{
    assert(exists|x: HandshakeResp| x.wire() == b.subrange(0, HANDSHAKE_RESP_SIZE as int));
    HandshakeResp::lemma_wire_injective(parse_resp_of(b), m);
}

/// The fixed-size header of a transport-data record: message type 4. The
/// ciphertext and tag follow the header on the wire and stay in the
/// caller's buffer.
#[derive(Clone, Copy, PartialEq, Eq, Debug)]
pub struct TransportData {
    /// Message type; 4 on a well-formed record.
    pub m_t: u8,
    /// Reserved zero bytes.
    pub r_0: [u8; 3],
    /// Receiver index: routes the record to a decryptor.
    pub r_i: [u8; 4],
    /// Little-endian nonce counter.
    pub cnt: [u8; 8],
}

impl TransportData {
    /// The exact byte image of the header.
    pub open spec fn wire(self) -> Seq<u8> {
        seq![self.m_t] + self.r_0@ + self.r_i@ + self.cnt@
    }

    /// The byte image is 16 bytes long.
    pub proof fn lemma_wire_len(self)
        ensures
            self.wire().len() == TRANSPORT_HEADER_SIZE,
    {
    }

    /// Each field stands at its declared offset of the byte image.
    pub proof fn lemma_wire_offsets(self)
        ensures
            self.wire()[0] == self.m_t,
            self.wire().subrange(1, 4) == self.r_0@,
            self.wire().subrange(4, 8) == self.r_i@,
            self.wire().subrange(8, 16) == self.cnt@,
    {
        assert(self.wire().subrange(1, 4) =~= self.r_0@);
        assert(self.wire().subrange(4, 8) =~= self.r_i@);
        assert(self.wire().subrange(8, 16) =~= self.cnt@);
    }

    /// Two headers with the same byte image are the same header.
    pub proof fn lemma_wire_injective(a: Self, b: Self)
        requires
            a.wire() == b.wire(),
        ensures
            a == b,
    {
        a.lemma_wire_offsets();
        b.lemma_wire_offsets();
        assert(a.r_0 =~= b.r_0);
        assert(a.r_i =~= b.r_i);
        assert(a.cnt =~= b.cnt);
    }

    /// Reads a header off the first 16 bytes of `buffer`; fails exactly
    /// when the buffer is shorter than that.
    pub fn wrap_ref(buffer: &[u8]) -> (r: Result<Self, Error>)
        ensures
            r is Ok <==> buffer@.len() >= TRANSPORT_HEADER_SIZE,
            r is Ok ==> r->Ok_0.wire() == buffer@.subrange(0, TRANSPORT_HEADER_SIZE as int),
            r is Err ==> r->Err_0 == (Error::BufferLengthTooShort {
                expected: TRANSPORT_HEADER_SIZE,
                got: buffer@.len() as usize,
            }),
    {
        if buffer.len() < TRANSPORT_HEADER_SIZE {
            return Err(Error::BufferLengthTooShort { expected: TRANSPORT_HEADER_SIZE, got: buffer.len() });
        }
        let m = TransportData {
            m_t: buffer[0],
            r_0: read_arr::<3>(buffer, 1),
            r_i: read_arr::<4>(buffer, 4),
            cnt: read_arr::<8>(buffer, 8),
        };
        proof {
            assert(m.wire() =~= buffer@.subrange(0, TRANSPORT_HEADER_SIZE as int));
        }
        Ok(m)
    }

    /// Serializes the header to its 16-byte image.
    pub fn raw_bytes(&self) -> (r: Vec<u8>)
        ensures
            r@ == self.wire(),
    {
        let mut r: Vec<u8> = Vec::new();
        r.push(self.m_t);
        r.extend_from_slice(&self.r_0);
        r.extend_from_slice(&self.r_i);
        r.extend_from_slice(&self.cnt);
        proof {
            assert(r@ =~= self.wire());
        }
        r
    }

    /// Writes the header over the first 16 bytes of `buffer`.
    pub fn store(&self, buffer: &mut Vec<u8>)
        requires
            old(buffer)@.len() >= TRANSPORT_HEADER_SIZE,
        ensures
            final(buffer)@.len() == old(buffer)@.len(),
            final(buffer)@ == self.wire() + old(buffer)@.subrange(
                TRANSPORT_HEADER_SIZE as int,
                old(buffer)@.len() as int,
            ),
    {
        let bytes = self.raw_bytes();
        write_bytes(buffer, 0, bytes.as_slice());
        proof {
            assert(buffer@ =~= self.wire() + old(buffer)@.subrange(
                TRANSPORT_HEADER_SIZE as int,
                old(buffer)@.len() as int,
            ));
        }
    }
}

} // verus!
