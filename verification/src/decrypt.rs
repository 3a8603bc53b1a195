//! The decrypting read stream.
//!
//! A [`CryptoReader`] mirrors the writer: it recovers the session key and
//! the initial nonce from the header at construction, then accumulates
//! ciphertext from its source one full chunk at a time (or a shorter final
//! chunk when the source ends), verifies and opens each chunk, and serves
//! the plaintext in pulls of any size the caller likes.  No byte is ever
//! handed out before the tag of its chunk verified, and a tag failure is
//! fatal: the failing chunk and everything after it stay sealed.

use vstd::prelude::*;

use crate::chunks::{chunk_payloads, is_chunking, lemma_round_trip, opens_to, sealed_sizes};
use crate::encrypt::CryptoWriter;
use crate::error::StreamError;
use crate::nonce::{nonce_after, NonceSequence, NONCE_LEN};
use crate::primitives::{aead_decrypt_chunk, aead_open, rsa_decrypt_block, RSA_BLOCK_LEN, SESSION_KEY_LEN, TAG_LEN};
use crate::transport::{read_exact_bytes, read_some};

verus! {

/// A reader that pulls sealed chunks of `BUFFER_SIZE` plaintext bytes
/// (plus tag) from `R`, opens them, and serves the plaintext.
pub struct CryptoReader<R, const BUFFER_SIZE: usize> {
    source: R,
    key: Vec<u8>,
    nonce: NonceSequence,
    enc_buffer: Vec<u8>,
    out_buffer: Vec<u8>,
    out_pos: usize,
    eof: bool,
    header: Ghost<Seq<u8>>,
    start_nonce: Ghost<Seq<u8>>,
    received: Ghost<Seq<u8>>,
    given: Ghost<Seq<u8>>,
    chunks: Ghost<Seq<Seq<u8>>>,
    plains: Ghost<Seq<Seq<u8>>>,
}

impl<R: std::io::Read, const BUFFER_SIZE: usize> CryptoReader<R, BUFFER_SIZE> {
    /// The session key recovered from the header.
    pub closed spec fn session_key(&self) -> Seq<u8> {
        self.key@
    }

    /// The initial nonce carried in the header.
    pub closed spec fn initial_nonce(&self) -> Seq<u8> {
        self.start_nonce@
    }

    /// The header consumed from the source at construction: the RSA
    /// block followed by the raw initial nonce.
    pub closed spec fn header(&self) -> Seq<u8> {
        self.header@
    }

    /// Every byte the source has yielded after the header, in order.
    pub closed spec fn received(&self) -> Seq<u8> {
        self.received@
    }

    /// Every plaintext byte handed to the caller so far, in order.
    pub closed spec fn delivered(&self) -> Seq<u8> {
        self.given@
    }

    /// The ciphertext chunks verified and opened so far, in order.
    pub closed spec fn chunks_seen(&self) -> Seq<Seq<u8>> {
        self.chunks@
    }

    /// The plaintexts those chunks opened to, in order.
    pub closed spec fn plains_seen(&self) -> Seq<Seq<u8>> {
        self.plains@
    }

    /// Ciphertext accumulated towards the next chunk, not yet opened.
    pub closed spec fn pending_cipher(&self) -> Seq<u8> {
        self.enc_buffer@
    }

    /// Plaintext already opened but not yet pulled by the caller.
    pub closed spec fn residual(&self) -> Seq<u8> {
        self.out_buffer@.skip(self.out_pos as int)
    }

    /// The stream is at its genuine end: the source is exhausted, no
    /// ciphertext is pending and no plaintext is left to pull.
    pub closed spec fn drained(&self) -> bool {
        self.eof && self.enc_buffer@.len() == 0 && self.out_pos == self.out_buffer@.len()
    }

    /// The opened chunks match their plaintexts position by position,
    /// under the counter nonce of each position.
    spec fn chain_ok(&self) -> bool {
        &&& self.key@.len() == SESSION_KEY_LEN
        &&& self.nonce.wf()
        &&& self.start_nonce@.len() == NONCE_LEN
        &&& self.header@.len() == RSA_BLOCK_LEN + NONCE_LEN
        &&& self.header@.skip(RSA_BLOCK_LEN as int) == self.start_nonce@
        &&& opens_to(self.key@, self.start_nonce@, self.chunks@, self.plains@)
        &&& sealed_sizes(self.chunks@, self.plains@)
        &&& self.nonce@ == nonce_after(self.start_nonce@, self.chunks@.len())
    }

    /// The stream's invariant: the received bytes split into the opened
    /// chunks plus the pending tail, the delivered bytes plus the residual
    /// are exactly the opened plaintexts, and a short chunk can only ever
    /// be the final one.
    pub closed spec fn wf(&self) -> bool {
        &&& BUFFER_SIZE >= 1
        &&& BUFFER_SIZE + TAG_LEN <= usize::MAX
        &&& self.chain_ok()
        &&& self.enc_buffer@.len() <= BUFFER_SIZE + TAG_LEN
        &&& self.out_pos <= self.out_buffer@.len()
        &&& self.received@ == self.chunks@.flatten() + self.enc_buffer@
        &&& self.given@ + self.out_buffer@.skip(self.out_pos as int) == self.plains@.flatten()
        &&& is_chunking(self.chunks@, (BUFFER_SIZE + TAG_LEN) as nat)
        &&& self.chunks@.len() > 0 && self.chunks@.last().len() < BUFFER_SIZE + TAG_LEN
            ==> self.eof && self.enc_buffer@.len() == 0
    }

    /// Opens a stream over `source`: reads the header, unwraps the
    /// session key with the private key and takes over the initial nonce.
    pub fn new(source: R, key: rsa::RsaPrivateKey) -> (r: Result<Self, StreamError>)
        requires
            BUFFER_SIZE >= 1,
            BUFFER_SIZE <= usize::MAX - TAG_LEN,
        ensures
            r matches Ok(s) ==> s.wf() && s.received() == Seq::<u8>::empty() && s.delivered()
                == Seq::<u8>::empty() && s.chunks_seen() == Seq::<Seq<u8>>::empty()
                && s.plains_seen() == Seq::<Seq<u8>>::empty() && !s.drained(),
            r matches Ok(s) ==> s.header().len() == RSA_BLOCK_LEN + NONCE_LEN && s.initial_nonce()
                == s.header().skip(RSA_BLOCK_LEN as int) && s.session_key().len()
                == SESSION_KEY_LEN && s.pending_cipher() == Seq::<u8>::empty() && s.residual()
                == Seq::<u8>::empty(),
            r matches Err(e) ==> e == StreamError::IoError || e == StreamError::CryptoError,
    {
        let mut source = source;
        let wrapped = match read_exact_bytes(&mut source, RSA_BLOCK_LEN) {
            Ok(v) => v,
            Err(e) => { return Err(e); },
        };
        let key_bytes = match rsa_decrypt_block(&key, wrapped.as_slice()) {
            Ok(v) => v,
            Err(e) => { return Err(e); },
        };
        if key_bytes.len() != SESSION_KEY_LEN {
            return Err(StreamError::CryptoError);
        }
        let nonce_bytes = match read_exact_bytes(&mut source, NONCE_LEN) {
            Ok(v) => v,
            Err(e) => { return Err(e); },
        };
        let ghost start = nonce_bytes@;
        let ghost header = wrapped@ + nonce_bytes@;
        let s = CryptoReader {
            source,
            key: key_bytes,
            nonce: NonceSequence::new(nonce_bytes),
            enc_buffer: Vec::new(),
            out_buffer: Vec::new(),
            out_pos: 0,
            eof: false,
            header: Ghost(header),
            start_nonce: Ghost(start),
            received: Ghost(Seq::empty()),
            given: Ghost(Seq::empty()),
            chunks: Ghost(Seq::empty()),
            plains: Ghost(Seq::empty()),
        };
        proof {
            assert(s.header@.skip(RSA_BLOCK_LEN as int) =~= start);
            assert(s.chunks@.flatten() =~= Seq::<u8>::empty());
            assert(s.received@ =~= s.chunks@.flatten() + s.enc_buffer@);
            assert(s.given@ + s.out_buffer@.skip(0) =~= s.plains@.flatten());
        }
        Ok(s)
    }

    /// At the genuine end of the stream everything received has been
    /// opened and everything opened has been delivered.
    proof fn lemma_drained_facts(&self)
        requires
            self.wf(),
            self.drained(),
        ensures
            self.received@ == self.chunks@.flatten(),
            self.given@ == self.plains@.flatten(),
    {
        assert(self.received@ =~= self.chunks@.flatten());
        assert(self.out_buffer@.skip(self.out_pos as int) =~= Seq::<u8>::empty());
        assert(self.given@ =~= self.plains@.flatten());
    }

    /// Every piece of this stream's history is a prefix of itself.
    proof fn lemma_reflexive_history(&self)
        ensures
            self.received@.is_prefix_of(self.received@),
            self.given@.is_prefix_of(self.given@),
            self.chunks@.is_prefix_of(self.chunks@),
            self.plains@.is_prefix_of(self.plains@),
    {
        assert(self.received@ =~= self.received@.subrange(0, self.received@.len() as int));
        assert(self.given@ =~= self.given@.subrange(0, self.given@.len() as int));
        assert(self.chunks@ =~= self.chunks@.subrange(0, self.chunks@.len() as int));
        assert(self.plains@ =~= self.plains@.subrange(0, self.plains@.len() as int));
    }

    /// What was delivered before this call is a prefix of what is
    /// delivered after it.
    proof fn lemma_given_extends(&self, given0: Seq<u8>, out: Seq<u8>)
        requires
            self.given@ == given0 + out,
        ensures
            given0.is_prefix_of(self.given@),
    {
        assert(given0 =~= self.given@.subrange(0, given0.len() as int));
    }

    /// Puts plaintext already handed into `kept` back in front of the
    /// residual, undoing the deliveries of a failing call.
    fn restore_residual(&mut self, kept: Vec<u8>, Ghost(given0): Ghost<Seq<u8>>)
        requires
            old(self).given@ == given0 + kept@,
            old(self).out_pos <= old(self).out_buffer@.len(),
        ensures
            final(self).given@ == given0,
            final(self).out_buffer@ == kept@ + old(self).out_buffer@.skip(
                old(self).out_pos as int,
            ),
            final(self).out_pos == 0,
            final(self).source == old(self).source,
            final(self).key == old(self).key,
            final(self).nonce == old(self).nonce,
            final(self).enc_buffer == old(self).enc_buffer,
            final(self).eof == old(self).eof,
            final(self).header == old(self).header,
            final(self).start_nonce == old(self).start_nonce,
            final(self).received == old(self).received,
            final(self).chunks == old(self).chunks,
            final(self).plains == old(self).plains,
    {
        let mut kept = kept;
        let ghost kept0 = kept@;
        let mut j: usize = self.out_pos;
        while j < self.out_buffer.len()
            invariant
                old(self).out_pos <= j <= self.out_buffer@.len(),
                *self == *old(self),
                kept@ == kept0 + self.out_buffer@.subrange(old(self).out_pos as int, j as int),
            decreases self.out_buffer@.len() - j,
        {
            let b = self.out_buffer[j];
            kept.push(b);
            j = j + 1;
            proof {
                assert(kept@ =~= kept0 + self.out_buffer@.subrange(
                    old(self).out_pos as int,
                    j as int,
                ));
            }
        }
        proof {
            assert(self.out_buffer@.subrange(
                old(self).out_pos as int,
                self.out_buffer@.len() as int,
            ) =~= self.out_buffer@.skip(old(self).out_pos as int));
        }
        self.out_buffer = kept;
        self.out_pos = 0;
        self.given = Ghost(given0);
    }

    /// Pulls up to `max` decrypted bytes.  A result shorter than `max`
    /// means the genuine end of the stream was reached — short reads of
    /// the source alone never cut the result short.  A pull that the
    /// residual alone satisfies, a zero-size pull, and a pull at the end
    /// of the stream touch neither cipher nor source and cannot fail.  A
    /// tag failure or a source failure returns the error and delivers
    /// nothing: the bytes already prepared for this call go back into the
    /// residual.
    pub fn read(&mut self, max: usize) -> (r: Result<Vec<u8>, StreamError>)
        requires
            old(self).wf(),
        ensures
            final(self).wf(),
            final(self).session_key() == old(self).session_key(),
            final(self).initial_nonce() == old(self).initial_nonce(),
            opens_to(
                final(self).session_key(),
                final(self).initial_nonce(),
                final(self).chunks_seen(),
                final(self).plains_seen(),
            ),
            sealed_sizes(final(self).chunks_seen(), final(self).plains_seen()),
            is_chunking(final(self).chunks_seen(), (BUFFER_SIZE + TAG_LEN) as nat),
            final(self).received() == final(self).chunks_seen().flatten()
                + final(self).pending_cipher(),
            final(self).delivered() + final(self).residual()
                == final(self).plains_seen().flatten(),
            r matches Ok(v) ==> v@.len() <= max
                && final(self).delivered() == old(self).delivered() + v@,
            r matches Ok(v) && v@.len() < max ==> final(self).drained(),
            final(self).drained() ==> final(self).received() == final(self).chunks_seen().flatten()
                && final(self).delivered() == final(self).plains_seen().flatten(),
            r matches Err(e) ==> e == StreamError::IoError || e == StreamError::CryptoError,
            r is Err ==> final(self).delivered() == old(self).delivered(),
            r == Err::<Vec<u8>, StreamError>(StreamError::CryptoError)
                ==> final(self).pending_cipher().len() > 0 && aead_open(
                final(self).session_key(),
                nonce_after(final(self).initial_nonce(), final(self).chunks_seen().len()),
                final(self).pending_cipher(),
            ) is None,
            r == Err::<Vec<u8>, StreamError>(StreamError::IoError)
                ==> final(self).pending_cipher().len() < BUFFER_SIZE + TAG_LEN,
            final(self).header() == old(self).header(),
            old(self).received().is_prefix_of(final(self).received()),
            old(self).delivered().is_prefix_of(final(self).delivered()),
            old(self).chunks_seen().is_prefix_of(final(self).chunks_seen()),
            old(self).plains_seen().is_prefix_of(final(self).plains_seen()),
            max == 0 ==> (r matches Ok(v) && v@.len() == 0 && *final(self) == *old(self)),
            old(self).drained() ==> (r matches Ok(v) && v@.len() == 0 && *final(self) == *old(
                self,
            )),
            max <= old(self).residual().len() ==> r is Ok,
    {
        let mut out_vec: Vec<u8> = Vec::new();
        let ghost given0 = self.given@;
        if max == 0 {
            proof {
                if self.drained() {
                    self.lemma_drained_facts();
                }
                self.lemma_reflexive_history();
            }
            return Ok(out_vec);
        }
        loop
            invariant
                self.wf(),
                max > 0,
                out_vec@.len() < max,
                self.given@ == given0 + out_vec@,
                given0 == old(self).given@,
                self.key@ == old(self).key@,
                self.start_nonce@ == old(self).start_nonce@,
                self.header@ == old(self).header@,
                old(self).received@.is_prefix_of(self.received@),
                old(self).chunks@.is_prefix_of(self.chunks@),
                old(self).plains@.is_prefix_of(self.plains@),
                old(self).drained() ==> *self == *old(self) && out_vec@.len() == 0,
                max <= old(self).residual().len() ==> out_vec@.len() + self.out_buffer@.len()
                    - self.out_pos >= max,
            decreases max - out_vec@.len(),
        {
            let ghost round_start = out_vec@.len();
            if self.out_pos == self.out_buffer.len() {
                proof {
                    // a pull that the residual alone satisfies never gets here
                    if max <= old(self).residual().len() {
                        assert(false);
                    }
                }
                // no residual: accumulate and open the next chunk
                if !self.eof {
                    while self.enc_buffer.len() < BUFFER_SIZE + TAG_LEN && !self.eof
                        invariant
                            self.wf(),
                            max > 0,
                            out_vec@.len() < max,
                            self.given@ == given0 + out_vec@,
                            given0 == old(self).given@,
                            self.key@ == old(self).key@,
                            self.start_nonce@ == old(self).start_nonce@,
                            self.header@ == old(self).header@,
                            old(self).received@.is_prefix_of(self.received@),
                            old(self).chunks@.is_prefix_of(self.chunks@),
                            old(self).plains@.is_prefix_of(self.plains@),
                            !old(self).drained(),
                            max > old(self).residual().len(),
                            self.out_pos == self.out_buffer@.len(),
                        decreases BUFFER_SIZE + TAG_LEN - self.enc_buffer@.len() + (if self.eof { 0int } else { 1int }),
                    {
                        let want = BUFFER_SIZE + TAG_LEN - self.enc_buffer.len();
                        let ghost pre_enc = self.enc_buffer@;
                        match read_some(&mut self.source, &mut self.enc_buffer, want) {
                            Ok(k) => {
                                self.received = Ghost(
                                    self.received@ + self.enc_buffer@.skip(pre_enc.len() as int),
                                );
                                proof {
                                    assert(self.enc_buffer@ =~= pre_enc + self.enc_buffer@.skip(
                                        pre_enc.len() as int,
                                    ));
                                    assert(self.received@ =~= self.chunks@.flatten()
                                        + self.enc_buffer@);
                                }
                                if k == 0 {
                                    self.eof = true;
                                }
                            },
                            Err(e) => {
                                self.restore_residual(out_vec, Ghost(given0));
                                proof {
                                    assert(self.given@ + self.out_buffer@.skip(
                                        self.out_pos as int,
                                    ) =~= self.plains@.flatten());
                                    assert(self.given@ =~= self.given@.subrange(
                                        0,
                                        self.given@.len() as int,
                                    ));
                                }
                                return Err(e);
                            },
                        }
                    }
                }
                if self.enc_buffer.len() == 0 {
                    // genuine end of stream
                    proof {
                        assert(self.eof);
                        self.lemma_drained_facts();
                        self.lemma_given_extends(given0, out_vec@);
                    }
                    return Ok(out_vec);
                }
                proof {
                    assert(self.eof || self.enc_buffer@.len() == BUFFER_SIZE + TAG_LEN);
                    assert(self.out_buffer@.skip(self.out_pos as int) =~= Seq::<u8>::empty());
                }
                // a full chunk, or the shorter final chunk at end of source
                let ghost pre_chunks = self.chunks@;
                let ghost pre_plains = self.plains@;
                let ghost pre_enc = self.enc_buffer@;
                let plain = match aead_decrypt_chunk(
                    self.key.as_slice(),
                    self.nonce.current().as_slice(),
                    self.enc_buffer.as_slice(),
                ) {
                    Ok(p) => p,
                    Err(e) => {
                        self.restore_residual(out_vec, Ghost(given0));
                        proof {
                            assert(self.given@ + self.out_buffer@.skip(self.out_pos as int)
                                =~= self.plains@.flatten());
                            assert(self.given@ =~= self.given@.subrange(
                                0,
                                self.given@.len() as int,
                            ));
                        }
                        return Err(e);
                    },
                };
                self.chunks = Ghost(self.chunks@.push(self.enc_buffer@));
                self.plains = Ghost(self.plains@.push(plain@));
                self.nonce.advance();
                self.enc_buffer = Vec::new();
                self.out_buffer = plain;
                self.out_pos = 0;
                proof {
                    let key = self.key@;
                    let start = self.start_nonce@;
                    let position = pre_chunks.len();
                    pre_chunks.lemma_flatten_push(pre_enc);
                    pre_plains.lemma_flatten_push(self.out_buffer@);
                    assert(nonce_after(start, position + 1) == self.nonce@);
                    assert forall|i: int|
                        0 <= i < self.chunks@.len() implies #[trigger] aead_open(
                        key,
                        nonce_after(start, i as nat),
                        self.chunks@[i],
                    ) == Some(self.plains@[i]) by {
                        if i < position {
                            assert(self.chunks@[i] == pre_chunks[i]);
                            assert(self.plains@[i] == pre_plains[i]);
                        }
                    }
                    assert forall|i: int|
                        0 <= i < self.chunks@.len() implies (#[trigger] self.chunks@[i]).len()
                        == self.plains@[i].len() + TAG_LEN by {
                        if i < position {
                            assert(self.chunks@[i] == pre_chunks[i]);
                            assert(self.plains@[i] == pre_plains[i]);
                        }
                    }
                    assert(self.received@ =~= self.chunks@.flatten() + self.enc_buffer@);
                    assert(self.given@ + self.out_buffer@.skip(self.out_pos as int)
                        =~= self.plains@.flatten());
                    assert(is_chunking(self.chunks@, (BUFFER_SIZE + TAG_LEN) as nat)) by {
                        assert forall|i: int|
                            0 <= i < self.chunks@.len() - 1 implies (#[trigger] self.chunks@[i]).len()
                            == BUFFER_SIZE + TAG_LEN by {
                            assert(self.chunks@[i] == pre_chunks[i]);
                        }
                        assert(self.chunks@.last() == pre_enc);
                    }
                }
                if self.out_buffer.len() == 0 {
                    // an empty final payload: the stream ends here
                    proof {
                        assert(self.eof);
                        self.lemma_drained_facts();
                        self.lemma_given_extends(given0, out_vec@);
                    }
                    return Ok(out_vec);
                }
            }
            // serve from the residual
            while self.out_pos < self.out_buffer.len() && out_vec.len() < max
                invariant
                    self.wf(),
                    max > 0,
                    out_vec@.len() <= max,
                    self.given@ == given0 + out_vec@,
                    given0 == old(self).given@,
                    self.key@ == old(self).key@,
                    self.start_nonce@ == old(self).start_nonce@,
                    self.header@ == old(self).header@,
                    old(self).received@.is_prefix_of(self.received@),
                    old(self).chunks@.is_prefix_of(self.chunks@),
                    old(self).plains@.is_prefix_of(self.plains@),
                    !old(self).drained(),
                    max <= old(self).residual().len() ==> out_vec@.len() + self.out_buffer@.len()
                        - self.out_pos >= max,
                    out_vec@.len() >= round_start,
                    self.out_pos < self.out_buffer@.len() || out_vec@.len() > round_start,
                decreases self.out_buffer@.len() - self.out_pos,
            {
                let b = self.out_buffer[self.out_pos];
                out_vec.push(b);
                self.out_pos = self.out_pos + 1;
                self.given = Ghost(self.given@.push(b));
                proof {
                    assert(self.given@ + self.out_buffer@.skip(self.out_pos as int)
                        =~= self.plains@.flatten());
                }
            }
            if out_vec.len() == max {
                proof {
                    if self.drained() {
                        self.lemma_drained_facts();
                    }
                    self.lemma_given_extends(given0, out_vec@);
                }
                return Ok(out_vec);
            }
        }
    }
}

/// Law: for any chunk capacity and any plaintext, decrypting what was
/// encrypted reproduces the plaintext exactly.
///
/// The hypotheses are what the two stream contracts give: the writer was
/// finalized, the reader drained its source, both run over the same
/// session key and initial nonce, and the transport carried the writer's
/// chunk stream to the reader unchanged.  Then what the reader delivered
/// is exactly what the writer consumed.
pub proof fn lemma_stream_round_trip<W: std::io::Write, R: std::io::Read, const B: usize>(
    w: &CryptoWriter<W, B>,
    rd: &CryptoReader<R, B>,
)
    requires
        B >= 1,
        w.session_key() == rd.session_key(),
        w.initial_nonce() == rd.initial_nonce(),
        opens_to(
            w.session_key(),
            w.initial_nonce(),
            w.sent(),
            chunk_payloads(w.consumed(), B as nat),
        ),
        sealed_sizes(w.sent(), chunk_payloads(w.consumed(), B as nat)),
        opens_to(rd.session_key(), rd.initial_nonce(), rd.chunks_seen(), rd.plains_seen()),
        is_chunking(rd.chunks_seen(), (B + TAG_LEN) as nat),
        rd.delivered() == rd.plains_seen().flatten(),
        rd.chunks_seen().flatten() == w.sent().flatten(),
    ensures
        rd.delivered() == w.consumed(),
{
    lemma_round_trip(
        w.session_key(),
        w.initial_nonce(),
        w.sent(),
        rd.chunks_seen(),
        rd.plains_seen(),
        w.consumed(),
        B as nat,
    );
}

} // verus!
