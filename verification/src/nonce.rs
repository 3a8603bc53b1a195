//! The per-chunk nonce counter.
//!
//! Every chunk of a stream is sealed under the same session key, so every
//! chunk needs a distinct nonce.  Both ends of a stream start from the nonce
//! carried in the header and advance it with the identical rule after every
//! chunk, so they stay in lockstep without re-transmitting nonces.
//!
//! The rule treats the nonce as a most-significant-first counter: the least
//! significant byte is incremented, a byte already at its maximum carries
//! into its left neighbour, and a counter of all maximum bytes wraps to all
//! zero (wraparound, not an error).

use vstd::prelude::*;

verus! {

/// Width of an AES-GCM nonce, in bytes (96 bits).
pub const NONCE_LEN: usize = 12;

/// The increment rule on a most-significant-first byte counter: the last
/// byte that is below the maximum is incremented and everything to its
/// right becomes zero; a counter of all maximum bytes wraps to all zero.
pub open spec fn increment_bytes(s: Seq<u8>) -> Seq<u8>
    decreases s.len(),
{
    if s.len() == 0 {
        s
    } else if s.last() < 255 {
        s.update(s.len() - 1, (s.last() + 1) as u8)
    } else {
        increment_bytes(s.drop_last()).push(0u8)
    }
}

/// The counter value reached from `start` after `count` increments.
pub open spec fn nonce_after(start: Seq<u8>, count: nat) -> Seq<u8>
    decreases count,
{
    if count == 0 {
        start
    } else {
        increment_bytes(nonce_after(start, (count - 1) as nat))
    }
}

/// When every byte from `i` rightwards is at the maximum, the increment
/// zeroes that whole suffix and increments the prefix.
proof fn lemma_increment_max_suffix(s: Seq<u8>, i: int)
    requires
        0 <= i <= s.len(),
        forall|j: int| i <= j < s.len() ==> s[j] == 255,
    ensures
        increment_bytes(s) == increment_bytes(s.take(i)) + Seq::new((s.len() - i) as nat, |k: int| 0u8),
    decreases s.len() - i,
{
    if i == s.len() {
        assert(s.take(i) =~= s);
        assert(increment_bytes(s.take(i)) + Seq::new(0, |k: int| 0u8) =~= increment_bytes(s));
    } else {
        assert(s.last() == 255);
        lemma_increment_max_suffix(s.drop_last(), i);
        assert(s.drop_last().take(i) =~= s.take(i));
        assert(increment_bytes(s.drop_last()).push(0u8) =~= increment_bytes(s.take(i)) + Seq::new(
            (s.len() - i) as nat,
            |k: int| 0u8,
        ));
    }
}

/// A fixed-width counter that yields one fresh nonce per chunk.
pub struct NonceSequence {
    bytes: Vec<u8>,
}

impl View for NonceSequence {
    type V = Seq<u8>;

    closed spec fn view(&self) -> Seq<u8> {
        self.bytes@
    }
}

impl NonceSequence {
    /// The counter always holds exactly one nonce width of bytes.
    pub open spec fn wf(&self) -> bool {
        self@.len() == NONCE_LEN
    }

    /// Starts the counter at the given value.
    pub fn new(bytes: Vec<u8>) -> (r: Self)
        requires
            bytes@.len() == NONCE_LEN,
        ensures
            r.wf(),
            r@ == bytes@,
    {
        NonceSequence { bytes }
    }

    /// The nonce to use for the next chunk.
    pub fn current(&self) -> (r: &Vec<u8>)
        ensures
            r@ == self@,
    {
        &self.bytes
    }

    /// Advances the counter by one, wrapping from all-maximum to all-zero.
    pub fn advance(&mut self)
        requires
            old(self).wf(),
        ensures
            final(self).wf(),
            final(self)@ == increment_bytes(old(self)@),
    {
        let ghost start = self.bytes@;
        let mut i: usize = self.bytes.len();
        let mut done = false;
        while i > 0 && !done
            invariant
                i <= self.bytes.len(),
                self.bytes@.len() == start.len(),
                !done ==> {
                    &&& self.bytes@ =~= start.take(i as int) + Seq::new(
                        (start.len() - i) as nat,
                        |k: int| 0u8,
                    )
                    &&& forall|j: int| i <= j < start.len() ==> start[j] == 255
                },
                done ==> self.bytes@ == increment_bytes(start),
            decreases i,
        {
            i = i - 1;
            if self.bytes[i] == 255 {
                self.bytes[i] = 0;
                proof {
                    assert(self.bytes@ =~= start.take(i as int) + Seq::new(
                        (start.len() - i) as nat,
                        |k: int| 0u8,
                    ));
                }
            } else {
                let b = self.bytes[i];
                self.bytes[i] = b + 1;
                proof {
                    lemma_increment_max_suffix(start, i + 1);
                    assert(start.take(i + 1).last() == start[i as int]);
                    assert(increment_bytes(start.take(i + 1)) == start.take(i + 1).update(
                        i as int,
                        (start[i as int] + 1) as u8,
                    ));
                    assert(self.bytes@ =~= increment_bytes(start.take(i + 1)) + Seq::new(
                        (start.len() - (i + 1)) as nat,
                        |k: int| 0u8,
                    ));
                }
                done = true;
            }
        }
        proof {
            if !done {
                lemma_increment_max_suffix(start, 0);
                assert(start.take(0) =~= Seq::<u8>::empty());
                assert(self.bytes@ =~= increment_bytes(start));
            }
        }
    }
}

} // verus!
