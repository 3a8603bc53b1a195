//! The encrypting write stream.
//!
//! A [`CryptoWriter`] buffers caller writes into fixed-capacity plaintext
//! chunks, seals each full chunk eagerly under the session key and the
//! current counter nonce, and hands the sealed bytes to its sink.  The
//! header — the RSA-wrapped session key followed by the initial nonce — is
//! written once, at construction, before any chunk traffic.  `finalize`
//! flushes the trailing partial chunk, if any, and closes the stream;
//! writing after finalize, or finalizing twice, is a protocol error.

use vstd::prelude::*;

use crate::chunks::{chunk_payloads, is_chunking, lemma_chunk_payloads_spec, lemma_chunking_unique, opens_to, sealed_sizes, sealed_with};
use crate::error::StreamError;
use crate::nonce::{nonce_after, NonceSequence, NONCE_LEN};
use crate::primitives::{aead_encrypt_chunk, aead_seal, fresh_rng, generate_nonce_bytes, generate_session_key, rsa_encrypt_block, RSA_BLOCK_LEN, SESSION_KEY_LEN, TAG_LEN};
use crate::transport::{flush_sink, write_all_bytes};

use rand::{CryptoRng, RngCore};

verus! {

/// A writer that seals its input into authenticated chunks of
/// `BUFFER_SIZE` plaintext bytes before passing them to `W`.
///
/// Calling [`CryptoWriter::finalize`] is the one supported way to close a
/// stream: a writer dropped without it silently loses whatever trailing
/// partial chunk was still buffered.
pub struct CryptoWriter<W, const BUFFER_SIZE: usize> {
    sink: W,
    key: Vec<u8>,
    nonce: NonceSequence,
    buffer: Vec<u8>,
    finalized: bool,
    header: Ghost<Seq<u8>>,
    start_nonce: Ghost<Seq<u8>>,
    taken: Ghost<Seq<u8>>,
    sent: Ghost<Seq<Seq<u8>>>,
    payloads: Ghost<Seq<Seq<u8>>>,
}

impl<W: std::io::Write, const BUFFER_SIZE: usize> CryptoWriter<W, BUFFER_SIZE> {
    /// The session key this stream seals with.
    pub closed spec fn session_key(&self) -> Seq<u8> {
        self.key@
    }

    /// The initial nonce written in the header.
    pub closed spec fn initial_nonce(&self) -> Seq<u8> {
        self.start_nonce@
    }

    /// Every plaintext byte accepted so far, in order.
    pub closed spec fn consumed(&self) -> Seq<u8> {
        self.taken@
    }

    /// The header handed to the sink at construction, before any chunk:
    /// the RSA-wrapped session key followed by the raw initial nonce.
    pub closed spec fn header(&self) -> Seq<u8> {
        self.header@
    }

    /// Plaintext accepted but not yet sealed into a chunk.
    pub closed spec fn buffered(&self) -> Seq<u8> {
        self.buffer@
    }

    /// The plaintext payloads of the sealed chunks, position by position.
    pub closed spec fn sent_payloads(&self) -> Seq<Seq<u8>> {
        self.payloads@
    }

    /// Every sealed chunk handed to the sink so far, in order, not
    /// counting the header.
    pub closed spec fn sent(&self) -> Seq<Seq<u8>> {
        self.sent@
    }

    /// Whether `finalize` has closed this stream (or an error has made it
    /// unusable).
    pub closed spec fn is_finalized(&self) -> bool {
        self.finalized
    }

    /// Everything handed to the sink so far: the header, then the sealed
    /// chunks in order.
    pub open spec fn wire(&self) -> Seq<u8> {
        self.header() + self.sent().flatten()
    }

    /// The sealed chunks match their payloads position by position, under
    /// the counter nonce of each position.
    spec fn chain_ok(&self) -> bool {
        &&& self.key@.len() == SESSION_KEY_LEN
        &&& self.nonce.wf()
        &&& self.start_nonce@.len() == NONCE_LEN
        &&& self.header@.len() == RSA_BLOCK_LEN + NONCE_LEN
        &&& self.header@.skip(RSA_BLOCK_LEN as int) == self.start_nonce@
        &&& opens_to(self.key@, self.start_nonce@, self.sent@, self.payloads@)
        &&& sealed_with(self.key@, self.start_nonce@, self.sent@, self.payloads@)
        &&& sealed_sizes(self.sent@, self.payloads@)
        &&& self.nonce@ == nonce_after(self.start_nonce@, self.sent@.len())
    }

    /// The stream's invariant: while open, everything accepted is either
    /// sealed away in full chunks or waiting in the scratch buffer.
    pub closed spec fn wf(&self) -> bool {
        &&& BUFFER_SIZE >= 1
        &&& self.chain_ok()
        &&& !self.finalized ==> {
            &&& self.buffer@.len() < BUFFER_SIZE
            &&& (forall|i: int|
                0 <= i < self.payloads@.len() ==> (#[trigger] self.payloads@[i]).len()
                    == BUFFER_SIZE)
            &&& self.payloads@.flatten() + self.buffer@ == self.taken@
            &&& self.taken@.len() == self.payloads@.len() * BUFFER_SIZE + self.buffer@.len()
        }
    }

    /// Opens a stream over `writer`: generates a fresh session key and
    /// initial nonce from the given random source, wraps the key for the
    /// recipient, and writes the header.
    pub fn new_with_rng<R: CryptoRng + RngCore>(writer: W, key: rsa::RsaPublicKey, rng: R) -> (r:
        Result<Self, StreamError>)
        requires
            BUFFER_SIZE >= 1,
        ensures
            r matches Ok(w) ==> w.wf() && !w.is_finalized() && w.consumed() == Seq::<u8>::empty()
                && w.sent() == Seq::<Seq<u8>>::empty(),
            r matches Ok(w) ==> w.header().len() == RSA_BLOCK_LEN + NONCE_LEN && w.header().skip(
                RSA_BLOCK_LEN as int,
            ) == w.initial_nonce() && w.buffered() == Seq::<u8>::empty() && w.session_key().len()
                == SESSION_KEY_LEN && w.wire() == w.header(),
            r matches Err(e) ==> e == StreamError::KeyError || e == StreamError::IoError,
    {
        let mut writer = writer;
        let mut rng = rng;
        let session_key = generate_session_key(&mut rng);
        let nonce_bytes = generate_nonce_bytes(&mut rng);
        let wrapped = match rsa_encrypt_block(&mut rng, &key, session_key.as_slice()) {
            Ok(v) => v,
            Err(e) => { return Err(e); },
        };
        if wrapped.len() != RSA_BLOCK_LEN {
            return Err(StreamError::KeyError);
        }
        match write_all_bytes(&mut writer, wrapped.as_slice()) {
            Ok(()) => {},
            Err(e) => { return Err(e); },
        }
        match write_all_bytes(&mut writer, nonce_bytes.as_slice()) {
            Ok(()) => {},
            Err(e) => { return Err(e); },
        }
        let ghost start = nonce_bytes@;
        let ghost header = wrapped@ + nonce_bytes@;
        let w = CryptoWriter {
            sink: writer,
            key: session_key,
            nonce: NonceSequence::new(nonce_bytes),
            buffer: Vec::new(),
            finalized: false,
            header: Ghost(header),
            start_nonce: Ghost(start),
            taken: Ghost(Seq::empty()),
            sent: Ghost(Seq::empty()),
            payloads: Ghost(Seq::empty()),
        };
        proof {
            assert(w.header@.skip(RSA_BLOCK_LEN as int) =~= start);
            assert(w.payloads@.flatten() =~= Seq::<u8>::empty());
            assert(w.payloads@.flatten() + w.buffer@ =~= w.taken@);
            assert(w.sent@.flatten() =~= Seq::<u8>::empty());
            assert(w.header@ + w.sent@.flatten() =~= w.header@);
        }
        Ok(w)
    }

    /// Opens a stream over `writer` with the process random source.
    pub fn new(writer: W, key: rsa::RsaPublicKey) -> (r: Result<Self, StreamError>)
        requires
            BUFFER_SIZE >= 1,
        ensures
            r matches Ok(w) ==> w.wf() && !w.is_finalized() && w.consumed() == Seq::<u8>::empty()
                && w.sent() == Seq::<Seq<u8>>::empty(),
            r matches Ok(w) ==> w.header().len() == RSA_BLOCK_LEN + NONCE_LEN && w.header().skip(
                RSA_BLOCK_LEN as int,
            ) == w.initial_nonce() && w.buffered() == Seq::<u8>::empty() && w.session_key().len()
                == SESSION_KEY_LEN && w.wire() == w.header(),
            r matches Err(e) ==> e == StreamError::KeyError || e == StreamError::IoError,
    {
        let rng = fresh_rng();
        Self::new_with_rng(writer, key, rng)
    }

    /// Seals the scratch buffer as the next chunk, hands it to the sink,
    /// advances the nonce and clears the buffer.
    fn emit_chunk(&mut self) -> (r: Result<(), StreamError>)
        requires
            old(self).chain_ok(),
            old(self).buffer@.len() >= 1,
        ensures
            final(self).chain_ok(),
            final(self).key == old(self).key,
            final(self).header == old(self).header,
            final(self).start_nonce == old(self).start_nonce,
            final(self).taken == old(self).taken,
            final(self).finalized == old(self).finalized,
            r is Ok ==> final(self).payloads@ == old(self).payloads@.push(old(self).buffer@)
                && final(self).buffer@.len() == 0,
            r is Err ==> final(self).payloads@ == old(self).payloads@
                && final(self).sent@ == old(self).sent@
                && final(self).buffer@ == old(self).buffer@,
            r matches Err(e) ==> e == StreamError::IoError || e == StreamError::CryptoError,
    {
        let sealed = match aead_encrypt_chunk(
            self.key.as_slice(),
            self.nonce.current().as_slice(),
            self.buffer.as_slice(),
        ) {
            Ok(c) => c,
            Err(e) => { return Err(e); },
        };
        match write_all_bytes(&mut self.sink, sealed.as_slice()) {
            Ok(()) => {},
            Err(e) => { return Err(e); },
        }
        let ghost position = self.sent@.len();
        self.payloads = Ghost(self.payloads@.push(self.buffer@));
        self.sent = Ghost(self.sent@.push(sealed@));
        self.nonce.advance();
        self.buffer.clear();
        proof {
            assert(nonce_after(self.start_nonce@, position + 1) == self.nonce@);
            assert forall|i: int| 0 <= i < self.sent@.len() implies #[trigger] crate::primitives::aead_open(
                self.key@,
                nonce_after(self.start_nonce@, i as nat),
                self.sent@[i],
            ) == Some(self.payloads@[i]) by {
                if i < position {
                    assert(self.sent@[i] == old(self).sent@[i]);
                    assert(self.payloads@[i] == old(self).payloads@[i]);
                }
            }
            assert forall|i: int| 0 <= i < self.sent@.len() implies (#[trigger] self.sent@[i]).len()
                == self.payloads@[i].len() + TAG_LEN by {
                if i < position {
                    assert(self.sent@[i] == old(self).sent@[i]);
                    assert(self.payloads@[i] == old(self).payloads@[i]);
                }
            }
            assert forall|i: int| 0 <= i < self.sent@.len() implies (#[trigger] self.sent@[i])
                == aead_seal(
                self.key@,
                nonce_after(self.start_nonce@, i as nat),
                self.payloads@[i],
            ) by {
                if i < position {
                    assert(self.sent@[i] == old(self).sent@[i]);
                    assert(self.payloads@[i] == old(self).payloads@[i]);
                }
            }
        }
        Ok(())
    }

    /// Accepts the whole input: tops the scratch buffer up to the chunk
    /// capacity, seals and sends every full chunk eagerly, and keeps the
    /// remainder buffered for the next call.  Consumes and reports the
    /// full input length.  A call whose input fits inside the scratch
    /// buffer touches neither cipher nor sink and cannot fail.  After
    /// `finalize`, or after an earlier fatal error, the call fails with
    /// `ProtocolError` and changes nothing.
    pub fn write(&mut self, data: &[u8]) -> (r: Result<usize, StreamError>)
        requires
            old(self).wf(),
        ensures
            final(self).wf(),
            final(self).session_key() == old(self).session_key(),
            final(self).initial_nonce() == old(self).initial_nonce(),
            final(self).header() == old(self).header(),
            r == Err::<usize, StreamError>(StreamError::ProtocolError) <==> old(self).is_finalized(),
            old(self).is_finalized() ==> *final(self) == *old(self),
            r matches Ok(n) ==> n == data@.len() && !final(self).is_finalized()
                && final(self).consumed() == old(self).consumed() + data@,
            !old(self).is_finalized() && r is Err ==> final(self).is_finalized(),
            !old(self).is_finalized() ==> (r matches Err(e) ==> e == StreamError::IoError || e
                == StreamError::CryptoError),
            old(self).sent().is_prefix_of(final(self).sent()),
            old(self).consumed().is_prefix_of(final(self).consumed()),
            opens_to(
                final(self).session_key(),
                final(self).initial_nonce(),
                final(self).sent(),
                final(self).sent_payloads(),
            ),
            sealed_with(
                final(self).session_key(),
                final(self).initial_nonce(),
                final(self).sent(),
                final(self).sent_payloads(),
            ),
            sealed_sizes(final(self).sent(), final(self).sent_payloads()),
            !final(self).is_finalized() ==> {
                &&& (forall|i: int|
                    0 <= i < final(self).sent_payloads().len()
                        ==> (#[trigger] final(self).sent_payloads()[i]).len() == BUFFER_SIZE)
                &&& final(self).consumed() == final(self).sent_payloads().flatten()
                    + final(self).buffered()
                &&& final(self).buffered().len() < BUFFER_SIZE
                &&& final(self).sent().len() == final(self).consumed().len() / (
                BUFFER_SIZE as nat)
                &&& final(self).buffered().len() == final(self).consumed().len() % (
                BUFFER_SIZE as nat)
            },
            !old(self).is_finalized() && old(self).consumed().len() + data@.len()
                < (old(self).sent().len() + 1) * BUFFER_SIZE ==> r is Ok,
    {
        broadcast use Seq::lemma_flatten_push;

        if self.finalized {
            proof {
                assert(self.sent@ =~= self.sent@.subrange(0, self.sent@.len() as int));
                assert(self.taken@ =~= self.taken@.subrange(0, self.taken@.len() as int));
            }
            return Err(StreamError::ProtocolError);
        }
        let ghost base = self.taken@;
        let mut idx: usize = 0;
        while idx < data.len()
            invariant
                idx <= data.len(),
                self.wf(),
                !self.finalized,
                BUFFER_SIZE >= 1,
                self.key@ == old(self).key@,
                self.start_nonce@ == old(self).start_nonce@,
                self.header@ == old(self).header@,
                !old(self).is_finalized(),
                base == old(self).taken@,
                self.taken@ == base + data@.take(idx as int),
                old(self).sent@.is_prefix_of(self.sent@),
                old(self).consumed().len() + data@.len() < (old(self).sent().len() + 1)
                    * BUFFER_SIZE ==> self.sent@ == old(self).sent@,
            decreases data.len() - idx,
        {
            let b = data[idx];
            self.buffer.push(b);
            self.taken = Ghost(self.taken@.push(b));
            proof {
                assert(self.taken@ =~= base + data@.take(idx + 1));
            }
            idx = idx + 1;
            if self.buffer.len() == BUFFER_SIZE {
                proof {
                    // a call that fits below the next chunk boundary never
                    // reaches this branch
                    if old(self).consumed().len() + data@.len() < (old(self).sent().len() + 1)
                        * BUFFER_SIZE {
                        let ghost chunk_count = old(self).sent@.len();
                        assert(self.payloads@.len() == self.sent@.len());
                        assert((chunk_count + 1) * BUFFER_SIZE == chunk_count * BUFFER_SIZE
                            + BUFFER_SIZE) by (nonlinear_arith);
                        assert(self.taken@.len() <= old(self).consumed().len() + data@.len());
                        assert(false);
                    }
                }
                let ghost pre_payloads = self.payloads@;
                let ghost pre_buffer = self.buffer@;
                match self.emit_chunk() {
                    Ok(()) => {
                        proof {
                            pre_payloads.lemma_flatten_push(pre_buffer);
                            assert(self.payloads@.flatten() + self.buffer@ =~= self.taken@);
                            assert((pre_payloads.len() + 1) * BUFFER_SIZE == pre_payloads.len()
                                * BUFFER_SIZE + BUFFER_SIZE) by (nonlinear_arith);
                            assert(old(self).sent@ =~= self.sent@.subrange(
                                0,
                                old(self).sent@.len() as int,
                            ));
                        }
                    },
                    Err(e) => {
                        self.finalized = true;
                        proof {
                            assert(old(self).taken@ =~= self.taken@.subrange(
                                0,
                                old(self).taken@.len() as int,
                            ));
                        }
                        return Err(e);
                    },
                }
            }
        }
        proof {
            assert(data@.take(data@.len() as int) =~= data@);
            assert(old(self).taken@ =~= self.taken@.subrange(0, old(self).taken@.len() as int));
            assert(self.payloads@.len() == self.sent@.len());
            vstd::arithmetic::div_mod::lemma_fundamental_div_mod_converse_div(
                self.taken@.len() as int,
                BUFFER_SIZE as int,
                self.payloads@.len() as int,
                self.buffer@.len() as int,
            );
            vstd::arithmetic::div_mod::lemma_fundamental_div_mod_converse_mod(
                self.taken@.len() as int,
                BUFFER_SIZE as int,
                self.payloads@.len() as int,
                self.buffer@.len() as int,
            );
        }
        Ok(data.len())
    }

    /// Seals and sends the trailing partial chunk, if any, flushes the
    /// sink and closes the stream.  After this call the sealed chunks are
    /// exactly the greedy split of everything consumed.  A second call
    /// fails with `ProtocolError`.
    pub fn finalize(&mut self) -> (r: Result<(), StreamError>)
        requires
            old(self).wf(),
        ensures
            final(self).wf(),
            final(self).is_finalized(),
            final(self).session_key() == old(self).session_key(),
            final(self).initial_nonce() == old(self).initial_nonce(),
            final(self).header() == old(self).header(),
            final(self).consumed() == old(self).consumed(),
            old(self).sent().is_prefix_of(final(self).sent()),
            r == Err::<(), StreamError>(StreamError::ProtocolError) <==> old(self).is_finalized(),
            old(self).is_finalized() ==> *final(self) == *old(self),
            r is Ok ==> {
                &&& opens_to(
                    final(self).session_key(),
                    final(self).initial_nonce(),
                    final(self).sent(),
                    chunk_payloads(final(self).consumed(), BUFFER_SIZE as nat),
                )
                &&& sealed_with(
                    final(self).session_key(),
                    final(self).initial_nonce(),
                    final(self).sent(),
                    chunk_payloads(final(self).consumed(), BUFFER_SIZE as nat),
                )
                &&& sealed_sizes(
                    final(self).sent(),
                    chunk_payloads(final(self).consumed(), BUFFER_SIZE as nat),
                )
            },
            !old(self).is_finalized() ==> (r matches Err(e) ==> e == StreamError::IoError || e
                == StreamError::CryptoError),
    {
        if self.finalized {
            proof {
                assert(self.sent@ =~= self.sent@.subrange(0, self.sent@.len() as int));
            }
            return Err(StreamError::ProtocolError);
        }
        broadcast use Seq::lemma_flatten_push;

        let ghost had_partial = self.buffer@.len() > 0;
        if self.buffer.len() > 0 {
            match self.emit_chunk() {
                Ok(()) => {},
                Err(e) => {
                    self.finalized = true;
                    proof {
                        assert(self.sent@ =~= self.sent@.subrange(0, self.sent@.len() as int));
                    }
                    return Err(e);
                },
            }
        }
        match flush_sink(&mut self.sink) {
            Ok(()) => {},
            Err(e) => {
                self.finalized = true;
                proof {
                    assert(old(self).sent@ =~= self.sent@.subrange(
                        0,
                        old(self).sent@.len() as int,
                    ));
                }
                return Err(e);
            },
        }
        proof {
            assert(self.payloads@.flatten() =~= self.taken@);
            lemma_chunk_payloads_spec(self.taken@, BUFFER_SIZE as nat);
            assert(is_chunking(self.payloads@, BUFFER_SIZE as nat)) by {
                if had_partial {
                    assert forall|i: int| 0 <= i < self.payloads@.len() - 1 implies (#[trigger] self.payloads@[i]).len()
                        == BUFFER_SIZE by {
                        assert(self.payloads@[i] == old(self).payloads@[i]);
                    }
                    assert(self.payloads@.last() == old(self).buffer@);
                } else {
                    assert(self.payloads@ == old(self).payloads@);
                }
            }
            lemma_chunking_unique(
                self.payloads@,
                chunk_payloads(self.taken@, BUFFER_SIZE as nat),
                BUFFER_SIZE as nat,
            );
            assert(old(self).sent@ =~= self.sent@.subrange(0, old(self).sent@.len() as int));
        }
        self.finalized = true;
        Ok(())
    }
}

} // verus!
