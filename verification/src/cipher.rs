//! Transport cipher state: the `Encryptor` that seals outbound packets
//! under a strictly advancing counter, and the `Decryptor` that opens
//! inbound packets addressed to it.
//!
//! An `Encryptor` owns the half-open counter range `[s_c, s_b)`; every
//! successful encryption consumes exactly one counter, so no two packets
//! it produces ever share a nonce. `reserve` splits off a contiguous
//! sub-range for a batch worker. The wire form of a sealed packet is the
//! 16-byte transport header followed by the ciphertext of the
//! zero-padded plaintext and the 16-byte tag.

use vstd::prelude::*;

use crate::crypto::{chacha_open_of, chacha_seal_of, open, seal};
use crate::error::Error;
use crate::packet::{read_arr, sub_vec, write_bytes, TransportData, TRANSPORT_HEADER_SIZE, TRANSPORT_MIN_SIZE};

verus! {

/// `n` rounded up to the next multiple of 16.
pub open spec fn pad16(n: nat) -> nat {
    if n % 16 == 0 {
        n
    } else {
        (n + (16 - n % 16)) as nat
    }
}

/// A sequence of `n` zero bytes.
pub open spec fn zero_bytes(n: nat) -> Seq<u8> {
    Seq::new(n, |i: int| 0u8)
}

/// The plaintext zero-padded to a multiple of 16 bytes.
pub open spec fn padded_pt(pt: Seq<u8>) -> Seq<u8> {
    pt + zero_bytes((pad16(pt.len()) - pt.len()) as nat)
}

/// The 16-byte transport header: type 4, reserved zeros, receiver index,
/// little-endian counter.
pub open spec fn transport_header(r_i: Seq<u8>, n: u64) -> Seq<u8> {
    seq![4u8, 0u8, 0u8, 0u8] + r_i + vstd::bytes::spec_u64_to_le_bytes(n)
}

/// What decrypting a transport record under `key` yields: the record with
/// its ciphertext replaced by plaintext, or the exact error. A record
/// shorter than 32 bytes is too short; one whose length is not a multiple
/// of 16 is invalid; otherwise the AEAD opens the ciphertext against the
/// trailing tag under the counter read from the header.
pub open spec fn decrypt_outcome(key: Seq<u8>, b: Seq<u8>) -> Result<Seq<u8>, Error> {
    if b.len() < 32 {
        Err(Error::BufferLengthTooShort { expected: 32, got: b.len() as usize })
    } else if b.len() % 16 != 0 {
        Err(Error::BufferLengthInvalid)
    } else {
        match chacha_open_of(
            key,
            vstd::bytes::spec_u64_from_le_bytes(b.subrange(8, 16)),
            Seq::empty(),
            b.subrange(16, b.len() - 16),
            b.subrange(b.len() - 16, b.len() as int),
        ) {
            Some(pt) => Ok(b.subrange(0, 16) + pt + b.subrange(b.len() - 16, b.len() as int)),
            None => Err(Error::AeadError),
        }
    }
}

/// A sealed transport packet: a buffer whose prefix of `length` bytes is
/// the wire record.
pub struct Encrypted {
    buffer: Vec<u8>,
    length: usize,
}

impl Encrypted {
    /// The underlying buffer.
    pub closed spec fn raw(self) -> Seq<u8> {
        self.buffer@
    }

    /// The wire record: the visible prefix of the buffer.
    pub closed spec fn bytes(self) -> Seq<u8> {
        self.buffer@.subrange(0, self.length as int)
    }

    /// The visible prefix never exceeds the buffer.
    pub closed spec fn wf(self) -> bool {
        self.length <= self.buffer@.len()
    }

    /// Wraps a whole buffer as a sealed packet.
    pub fn new(buffer: Vec<u8>) -> (r: Self)
        ensures
            r.wf(),
            r.raw() == buffer@,
            r.bytes() == buffer@,
    {
        let length = buffer.len();
        let r = Encrypted { buffer, length };
        proof {
            assert(r.bytes() =~= r.raw());
        }
        r
    }

    /// Shortens or widens the visible prefix; fails (returning false,
    /// changing nothing) when `length` exceeds the buffer.
    pub fn resize(&mut self, length: usize) -> (r: bool)
        requires
            old(self).wf(),
        ensures
            final(self).wf(),
            final(self).raw() == old(self).raw(),
            r <==> length <= old(self).raw().len(),
            r ==> final(self).bytes() == old(self).raw().subrange(0, length as int),
            !r ==> final(self).bytes() == old(self).bytes(),
    {
        if length > self.buffer.len() {
            false
        } else {
            self.length = length;
            true
        }
    }

    /// The wire record as a byte slice.
    pub fn data(&self) -> (r: &[u8])
        requires
            self.wf(),
        ensures
            r@ == self.bytes(),
    {
        vstd::slice::slice_subrange(self.buffer.as_slice(), 0, self.length)
    }

    /// The wire record's length.
    pub fn len(&self) -> (r: usize)
        requires
            self.wf(),
        ensures
            r == self.bytes().len(),
    {
        self.length
    }
}

/// A plaintext staged for sealing: a buffer with a 16-byte header room in
/// front of the plaintext and a 16-byte tag room behind its capacity.
pub struct Decrypted {
    buffer: Vec<u8>,
    length: usize,
}

impl Decrypted {
    /// The underlying buffer.
    pub closed spec fn raw(self) -> Seq<u8> {
        self.buffer@
    }

    /// The plaintext: `length` bytes starting at offset 16.
    pub closed spec fn bytes(self) -> Seq<u8> {
        self.buffer@.subrange(16, 16 + self.length as int)
    }

    /// Header and tag room always remain around the plaintext.
    pub closed spec fn wf(self) -> bool {
        self.length + 32 <= self.buffer@.len()
    }

    /// Wraps a buffer; the plaintext region is everything between the
    /// header room and the tag room.
    pub fn new(buffer: Vec<u8>) -> (r: Self)
        requires
            buffer@.len() >= 32,
        ensures
            r.wf(),
            r.raw() == buffer@,
            r.bytes() == buffer@.subrange(16, buffer@.len() - 16),
    {
        let length = buffer.len() - 32;
        Decrypted { buffer, length }
    }

    /// Stages a copy of `pt` with fresh header room in front, and tag and
    /// zero-padding room behind, so the result can be sealed directly.
    pub fn from_plaintext(pt: &[u8]) -> (r: Self)
        requires
            pt@.len() + 48 <= usize::MAX,
        ensures
            r.wf(),
            r.bytes() == pt@,
            r.raw().len() == pad16(pt@.len()) + 32,
    {
        let len = pt.len();
        let rem = len % 16;
        let pad = if rem == 0 {
            0
        } else {
            16 - rem
        };
        let mut buffer: Vec<u8> = vec![0u8; 16];
        buffer.extend_from_slice(pt);
        let mut tail: Vec<u8> = vec![0u8; pad + 16];
        buffer.append(&mut tail);
        let r = Decrypted { buffer, length: len };
        proof {
            assert(r.bytes() =~= pt@);
        }
        r
    }

    /// Writes one plaintext byte in place: the mutable half of the view,
    /// hitting exactly offset 16 + i of the underlying buffer.
    pub fn write_at(&mut self, i: usize, v: u8)
        requires
            old(self).wf(),
            i < old(self).bytes().len(),
        ensures
            final(self).wf(),
            final(self).bytes() == old(self).bytes().update(i as int, v),
            final(self).raw() == old(self).raw().update(16 + i, v),
    {
        // Reading the length as a machine word shows `16 + i` fits.
        let cap = self.buffer.len();
        self.buffer[16 + i] = v;
        proof {
            assert(self.bytes() =~= old(self).bytes().update(i as int, v));
        }
    }

    /// Changes the plaintext length; fails (returning false, changing
    /// nothing) when the buffer has no room for `length` plaintext bytes
    /// beside the header and tag room.
    pub fn resize(&mut self, length: usize) -> (r: bool)
        requires
            old(self).wf(),
        ensures
            final(self).wf(),
            final(self).raw() == old(self).raw(),
            r <==> length + 32 <= old(self).raw().len(),
            r ==> final(self).bytes() == old(self).raw().subrange(16, 16 + length as int),
            !r ==> final(self).bytes() == old(self).bytes(),
    {
        if length > self.buffer.len() - 32 {
            false
        } else {
            self.length = length;
            true
        }
    }

    /// The plaintext as a byte slice.
    pub fn data(&self) -> (r: &[u8])
        requires
            self.wf(),
        ensures
            r@ == self.bytes(),
    {
        // Reading the length as a machine word shows the end offset fits.
        let l = self.buffer.len();
        vstd::slice::slice_subrange(self.buffer.as_slice(), 16, 16 + self.length)
    }

    /// The plaintext length.
    pub fn len(&self) -> (r: usize)
        requires
            self.wf(),
        ensures
            r == self.bytes().len(),
    {
        self.length
    }
}

/// Outbound cipher state: key, receiver index, and the owned counter
/// range `[s_c, s_b)`.
pub struct Encryptor {
    r_i: [u8; 4],
    key: [u8; 32],
    s_c: u64,
    s_b: u64,
}

impl Encryptor {
    /// The send counter never passes its upper bound.
    #[verifier::type_invariant]
    pub closed spec fn inv(self) -> bool {
        self.s_c <= self.s_b
    }

    /// The receiver index copied into every outbound header.
    pub closed spec fn r_i_spec(self) -> Seq<u8> {
        self.r_i@
    }

    /// The sending key.
    pub closed spec fn key_spec(self) -> Seq<u8> {
        self.key@
    }

    /// The next counter to issue.
    pub closed spec fn s_c_spec(self) -> u64 {
        self.s_c
    }

    /// The exclusive upper bound on counters this Encryptor may issue.
    pub closed spec fn s_b_spec(self) -> u64 {
        self.s_b
    }

    /// Builds an Encryptor owning the counter range `[s_c, s_b)`.
    pub fn new(r_i: [u8; 4], key: [u8; 32], s_c: u64, s_b: u64) -> (r: Self)
        requires
            s_c <= s_b,
        ensures
            r.r_i_spec() == r_i@,
            r.key_spec() == key@,
            r.s_c_spec() == s_c,
            r.s_b_spec() == s_b,
    {
        Encryptor { r_i, key, s_c, s_b }
    }

    /// The receiver index.
    pub fn r_i(&self) -> (r: [u8; 4])
        ensures
            r@ == self.r_i_spec(),
    {
        self.r_i
    }

    /// The sending key.
    pub fn key(&self) -> (r: [u8; 32])
        ensures
            r@ == self.key_spec(),
    {
        self.key
    }

    /// The next counter to issue; at all times it stays within the
    /// upper bound.
    pub fn s_c(&self) -> (r: u64)
        ensures
            r == self.s_c_spec(),
            r <= self.s_b_spec(),
    {
        proof {
            use_type_invariant(&*self);
        }
        self.s_c
    }

    /// The exclusive counter upper bound.
    pub fn s_b(&self) -> (r: u64)
        ensures
            r == self.s_b_spec(),
    {
        self.s_b
    }

    /// Issues the next counter: returns `s_c` and advances it, or fails
    /// with `CounterExhausted` exactly when the range is used up. A
    /// successful call never returns a value any later successful call
    /// on the same Encryptor returns again.
    pub fn next_counter(&mut self) -> (r: Result<u64, Error>)
        ensures
            r is Ok <==> old(self).s_c_spec() < old(self).s_b_spec(),
            r is Ok ==> r->Ok_0 == old(self).s_c_spec() && final(self).s_c_spec() == old(
                self,
            ).s_c_spec() + 1,
            r is Err ==> *final(self) == *old(self) && r->Err_0 == Error::CounterExhausted,
            final(self).s_b_spec() == old(self).s_b_spec(),
            final(self).key_spec() == old(self).key_spec(),
            final(self).r_i_spec() == old(self).r_i_spec(),
            final(self).s_c_spec() >= old(self).s_c_spec(),
    {
        proof {
            use_type_invariant(&*self);
        }
        if self.s_c >= self.s_b {
            Err(Error::CounterExhausted)
        } else {
            let n = self.s_c;
            self.s_c = n + 1;
            Ok(n)
        }
    }

    /// Splits off a child Encryptor owning the contiguous counter range
    /// `[s_c, min(s_c + amount, s_b))` and advances this Encryptor past
    /// it, so the two ranges are disjoint.
    pub fn reserve(&mut self, amount: u64) -> (r: Self)
        ensures
            r.r_i_spec() == old(self).r_i_spec(),
            r.key_spec() == old(self).key_spec(),
            r.s_c_spec() == old(self).s_c_spec(),
            r.s_b_spec() == if old(self).s_c_spec() + amount <= old(self).s_b_spec() {
                (old(self).s_c_spec() + amount) as u64
            } else {
                old(self).s_b_spec()
            },
            final(self).r_i_spec() == old(self).r_i_spec(),
            final(self).key_spec() == old(self).key_spec(),
            final(self).s_c_spec() == r.s_b_spec(),
            final(self).s_b_spec() == old(self).s_b_spec(),
    {
        proof {
            use_type_invariant(&*self);
        }
        let room = self.s_b - self.s_c;
        let take = if amount > room {
            room
        } else {
            amount
        };
        let child_b = self.s_c + take;
        let child = Encryptor { r_i: self.r_i, key: self.key, s_c: self.s_c, s_b: child_b };
        self.s_c = child_b;
        child
    }

    /// Seals a staged plaintext into a transport packet: issues the next
    /// counter, zero-pads the plaintext to a multiple of 16, writes the
    /// header, and encrypts in place. Fails with `CounterExhausted`
    /// exactly when the counter range is used up; the produced record
    /// decrypts under the same key back to the padded plaintext.
    #[verifier::rlimit(100)]
    pub fn encrypt(&mut self, buffer: Decrypted) -> (r: Result<Encrypted, Error>)
        requires
            buffer.wf(),
            pad16(buffer.bytes().len()) + 32 <= buffer.raw().len(),
            buffer.raw().len() <= 0xffff_ffff,
        ensures
            r is Ok <==> old(self).s_c_spec() < old(self).s_b_spec(),
            r is Err ==> *final(self) == *old(self) && r->Err_0 == Error::CounterExhausted,
            final(self).s_b_spec() == old(self).s_b_spec(),
            final(self).key_spec() == old(self).key_spec(),
            final(self).r_i_spec() == old(self).r_i_spec(),
            r is Ok ==> ({
                let n = old(self).s_c_spec();
                let padded = padded_pt(buffer.bytes());
                let sealed = chacha_seal_of(old(self).key_spec(), n, Seq::empty(), padded);
                &&& final(self).s_c_spec() == n + 1
                &&& r->Ok_0.wf()
                &&& r->Ok_0.bytes() == transport_header(old(self).r_i_spec(), n) + sealed
                &&& r->Ok_0.bytes().len() == 32 + padded.len()
                &&& decrypt_outcome(old(self).key_spec(), r->Ok_0.bytes()) == Ok::<Seq<u8>, Error>(
                    transport_header(old(self).r_i_spec(), n) + padded + sealed.skip(
                        padded.len() as int,
                    ),
                )
            }),
    {
        proof {
            use_type_invariant(&*self);
        }
        if self.s_c >= self.s_b {
            return Err(Error::CounterExhausted);
        }
        let n = self.s_c;
        self.s_c = n + 1;

        let ghost orig = buffer;
        let Decrypted { buffer: mut raw, length: len } = buffer;
        let rem = len % 16;
        let pad = if rem == 0 {
            0
        } else {
            16 - rem
        };
        let padded = len + pad;
        proof {
            assert(padded == pad16(orig.bytes().len()));
        }

        // Zero the padding region after the plaintext.
        let zeros_vec: Vec<u8> = vec![0u8; pad];
        write_bytes(&mut raw, 16 + len, zeros_vec.as_slice());

        // Seal plaintext plus padding in place.
        let mut region = sub_vec(raw.as_slice(), 16, padded);
        proof {
            assert(region@ =~= padded_pt(orig.bytes()));
        }
        let empty_aad: [u8; 0] = [];
        let tag = seal(self.key.as_slice(), n, empty_aad.as_slice(), &mut region);
        write_bytes(&mut raw, 16, region.as_slice());
        proof {
            assert(raw@.subrange(16, 16 + padded) =~= region@);
        }
        write_bytes(&mut raw, 16 + padded, tag.as_slice());
        proof {
            assert(raw@.subrange(16, 16 + padded) =~= region@);
            assert(raw@.subrange(16 + padded, 32 + padded) =~= tag@);
        }

        // Write the header over the first 16 bytes.
        let cnt_vec = vstd::bytes::u64_to_le_bytes(n);
        let header = TransportData {
            m_t: 4,
            r_0: [0u8; 3],
            r_i: self.r_i,
            cnt: read_arr::<8>(cnt_vec.as_slice(), 0),
        };
        let ghost before_header = raw@;
        header.store(&mut raw);
        proof {
            assert(raw@.subrange(16, 16 + padded) =~= before_header.subrange(16, 16 + padded));
            assert(raw@.subrange(16 + padded, 32 + padded) =~= before_header.subrange(
                16 + padded,
                32 + padded,
            ));
        }

        let out = Encrypted { buffer: raw, length: padded + 32 };
        proof {
            let padded_seq = padded_pt(orig.bytes());
            let sealed = chacha_seal_of(old(self).key_spec(), n, Seq::empty(), padded_seq);
            assert(empty_aad@ =~= Seq::<u8>::empty());
            assert(region@ + tag@ == sealed);
            header.lemma_wire_offsets();
            assert(header.cnt@ =~= vstd::bytes::spec_u64_to_le_bytes(n));
            assert(header.wire() =~= transport_header(old(self).r_i_spec(), n));
            assert(out.bytes().subrange(0, 16) =~= header.wire());
            assert(out.bytes().subrange(16, 16 + padded) =~= region@);
            assert(out.bytes().subrange(16 + padded, 32 + padded) =~= tag@);
            assert(out.bytes() =~= out.bytes().subrange(0, 16) + out.bytes().subrange(
                16,
                16 + padded,
            ) + out.bytes().subrange(16 + padded, 32 + padded));
            assert(out.bytes() =~= transport_header(old(self).r_i_spec(), n) + sealed);
            let b = out.bytes();
            vstd::bytes::lemma_auto_spec_u64_to_from_le_bytes();
            assert(b.subrange(8, 16) =~= vstd::bytes::spec_u64_to_le_bytes(n));
            assert(b.subrange(16, b.len() - 16) =~= sealed.take(padded_seq.len() as int));
            assert(b.subrange(b.len() - 16, b.len() as int) =~= sealed.skip(
                padded_seq.len() as int,
            ));
            assert(sealed.take(padded_seq.len() as int) =~= region@);
            assert(sealed.skip(padded_seq.len() as int) =~= tag@);
            assert(b.subrange(0, 16) =~= transport_header(old(self).r_i_spec(), n));
            assert(decrypt_outcome(old(self).key_spec(), b) == Ok::<Seq<u8>, Error>(
                transport_header(old(self).r_i_spec(), n) + padded_seq + sealed.skip(
                    padded_seq.len() as int,
                ),
            ));
        }
        Ok(out)
    }
}

/// Law: two successful counter allocations on the same Encryptor never
/// return the same value. `next_counter`'s contract says a success
/// returns the counter standing before the call and leaves it strictly
/// larger, and every operation only moves the counter forward; so a later
/// success returns a strictly larger value. `after_first` is the state
/// right after the first successful call, `at_second` the state at the
/// second.
pub proof fn lemma_next_counter_distinct(
    first: u64,
    after_first: Encryptor,
    at_second: Encryptor,
    second: u64,
)
    requires
        first < after_first.s_c_spec(),
        after_first.s_c_spec() <= at_second.s_c_spec(),
        second == at_second.s_c_spec(),
    ensures
        first != second,
{
}

/// Inbound cipher state: the receiving key and the local index that
/// routes packets to it.
pub struct Decryptor {
    r_i: [u8; 4],
    key: [u8; 32],
}

impl Decryptor {
    /// The local index this Decryptor is installed under.
    pub closed spec fn r_i_spec(self) -> Seq<u8> {
        self.r_i@
    }

    /// The receiving key.
    pub closed spec fn key_spec(self) -> Seq<u8> {
        self.key@
    }

    /// Builds a Decryptor for a local index and receiving key.
    pub fn new(r_i: [u8; 4], key: [u8; 32]) -> (r: Self)
        ensures
            r.r_i_spec() == r_i@,
            r.key_spec() == key@,
    {
        Decryptor { r_i, key }
    }

    /// The local index.
    pub fn r_i(&self) -> (r: [u8; 4])
        ensures
            r@ == self.r_i_spec(),
    {
        self.r_i
    }

    /// The receiving key.
    pub fn key(&self) -> (r: [u8; 32])
        ensures
            r@ == self.key_spec(),
    {
        self.key
    }

    /// Opens a transport record in place: on success the ciphertext bytes
    /// `buffer[16 .. len - 16]` hold the recovered (padded) plaintext.
    /// The result and the buffer's new contents follow `decrypt_outcome`
    /// exactly; on any failure the buffer is unchanged.
    pub fn decrypt(&self, buffer: &mut Vec<u8>) -> (r: Result<(), Error>)
        requires
            old(buffer)@.len() <= 0xffff_ffff,
        ensures
            r is Ok <==> decrypt_outcome(self.key_spec(), old(buffer)@) is Ok,
            r is Ok ==> Ok::<Seq<u8>, Error>(final(buffer)@) == decrypt_outcome(
                self.key_spec(),
                old(buffer)@,
            ),
            r is Ok ==> final(buffer)@.len() == old(buffer)@.len(),
            r is Err ==> final(buffer)@ == old(buffer)@ && Err::<Seq<u8>, Error>(r->Err_0)
                == decrypt_outcome(self.key_spec(), old(buffer)@),
    {
        let len = buffer.len();
        if len < TRANSPORT_MIN_SIZE {
            return Err(Error::BufferLengthTooShort { expected: TRANSPORT_MIN_SIZE, got: len });
        }
        if len % 16 != 0 {
            return Err(Error::BufferLengthInvalid);
        }
        let header = match TransportData::wrap_ref(buffer.as_slice()) {
            Ok(h) => h,
            Err(e) => {
                proof {
                    assert(false);
                }
                return Err(e);
            },
        };
        let cnt = vstd::bytes::u64_from_le_bytes(header.cnt.as_slice());
        proof {
            header.lemma_wire_offsets();
            assert(header.cnt@ =~= old(buffer)@.subrange(8, 16));
        }
        let mut region = sub_vec(buffer.as_slice(), 16, len - 32);
        let tag = sub_vec(buffer.as_slice(), len - 16, 16);
        proof {
            assert(region@ =~= old(buffer)@.subrange(16, old(buffer)@.len() - 16));
            assert(tag@ =~= old(buffer)@.subrange(
                old(buffer)@.len() - 16,
                old(buffer)@.len() as int,
            ));
        }
        let empty_aad: [u8; 0] = [];
        proof {
            assert(empty_aad@ =~= Seq::<u8>::empty());
        }
        match open(self.key.as_slice(), cnt, empty_aad.as_slice(), &mut region, tag.as_slice()) {
            Ok(()) => {
                write_bytes(buffer, 16, region.as_slice());
                proof {
                    assert(buffer@ =~= old(buffer)@.subrange(0, 16) + region@ + old(
                        buffer,
                    )@.subrange(old(buffer)@.len() - 16, old(buffer)@.len() as int));
                }
                Ok(())
            },
            Err(e) => Err(e),
        }
    }
}

} // verus!
