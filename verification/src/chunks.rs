//! The chunk-framing model.
//!
//! A stream's body is a sequence of sealed chunks: every chunk but the last
//! carries exactly the agreed capacity of plaintext bytes, the last carries
//! whatever was left over, and each is sealed under the session key with
//! the counter nonce of its position.  This module states that framing as
//! spec functions and proves the laws the two stream types rely on: the
//! framing is uniquely decodable, decoding what was encoded reproduces the
//! plaintext, and the decoded output does not depend on how the transport
//! or the caller sliced the bytes.

use vstd::prelude::*;

use crate::nonce::nonce_after;
use crate::primitives::{aead_open, aead_seal, TAG_LEN};

verus! {

/// The plaintext split greedily into payloads of capacity `c`: every
/// payload but the last holds exactly `c` bytes, the last holds between 1
/// and `c`, and an empty plaintext yields no payload at all.
pub open spec fn chunk_payloads(p: Seq<u8>, c: nat) -> Seq<Seq<u8>>
    decreases p.len(),
{
    if c == 0 || p.len() == 0 {
        Seq::empty()
    } else if p.len() <= c {
        seq![p]
    } else {
        seq![p.take(c as int)] + chunk_payloads(p.skip(c as int), c)
    }
}

/// The shape of a greedy split at width `size`: all chunks but the last
/// are exactly `size` long and the last is nonempty and at most `size`.
pub open spec fn is_chunking(chunks: Seq<Seq<u8>>, size: nat) -> bool {
    &&& forall|i: int| 0 <= i < chunks.len() - 1 ==> (#[trigger] chunks[i]).len() == size
    &&& chunks.len() > 0 ==> 1 <= chunks.last().len() <= size
}

/// Every chunk opens under the nonce of its position to the payload of the
/// same position.
pub open spec fn opens_to(
    key: Seq<u8>,
    start: Seq<u8>,
    chunks: Seq<Seq<u8>>,
    payloads: Seq<Seq<u8>>,
) -> bool {
    &&& chunks.len() == payloads.len()
    &&& forall|i: int|
        0 <= i < chunks.len() ==> #[trigger] aead_open(key, nonce_after(start, i as nat), chunks[i])
            == Some(payloads[i])
}

/// Every chunk is exactly the seal of the payload of its position, under
/// the counter nonce of that position.
pub open spec fn sealed_with(
    key: Seq<u8>,
    start: Seq<u8>,
    chunks: Seq<Seq<u8>>,
    payloads: Seq<Seq<u8>>,
) -> bool {
    &&& chunks.len() == payloads.len()
    &&& forall|i: int|
        0 <= i < chunks.len() ==> (#[trigger] chunks[i]) == aead_seal(
            key,
            nonce_after(start, i as nat),
            payloads[i],
        )
}

/// Every chunk is exactly one authentication tag longer than its payload.
pub open spec fn sealed_sizes(chunks: Seq<Seq<u8>>, payloads: Seq<Seq<u8>>) -> bool {
    &&& chunks.len() == payloads.len()
    &&& forall|i: int|
        0 <= i < chunks.len() ==> (#[trigger] chunks[i]).len() == payloads[i].len() + TAG_LEN
}

/// The greedy split puts the plaintext back together, and has the greedy
/// shape.
pub proof fn lemma_chunk_payloads_spec(p: Seq<u8>, c: nat)
    requires
        c >= 1,
    ensures
        chunk_payloads(p, c).flatten() == p,
        is_chunking(chunk_payloads(p, c), c),
    decreases p.len(),
{
    broadcast use Seq::lemma_flatten_singleton;

    if p.len() == 0 {
        assert(chunk_payloads(p, c).flatten() =~= p);
    } else if p.len() <= c {
        assert(seq![p].len() == 1);
        assert(chunk_payloads(p, c).flatten() == p);
    } else {
        let head = p.take(c as int);
        let rest = chunk_payloads(p.skip(c as int), c);
        lemma_chunk_payloads_spec(p.skip(c as int), c);
        let whole = seq![head] + rest;
        assert(whole.drop_first() =~= rest);
        assert(whole.first() == head);
        assert(whole.flatten() == head + rest.flatten());
        assert(head + p.skip(c as int) =~= p);
        assert(rest.len() >= 1) by {
            if rest.len() == 0 {
                assert(rest.flatten() =~= Seq::<u8>::empty());
            }
        }
        assert(is_chunking(whole, c)) by {
            assert(whole.last() == rest.last());
            assert forall|i: int| 0 <= i < whole.len() - 1 implies (#[trigger] whole[i]).len()
                == c by {
                if i > 0 {
                    assert(whole[i] == rest[i - 1]);
                }
            }
        }
    }
}

/// Exactly one chunk sequence of a given greedy shape yields a given byte
/// stream: two splits of the same bytes at the same width are the same.
pub proof fn lemma_chunking_unique(a: Seq<Seq<u8>>, b: Seq<Seq<u8>>, size: nat)
    requires
        size >= 1,
        is_chunking(a, size),
        is_chunking(b, size),
        a.flatten() == b.flatten(),
    ensures
        a == b,
    decreases a.len(),
{
    lemma_chunking_flatten_len(a, size);
    lemma_chunking_flatten_len(b, size);
    if a.len() == 0 || b.len() == 0 {
        assert(a =~= b);
    } else if a.len() == 1 && b.len() == 1 {
        broadcast use Seq::lemma_flatten_singleton;

        assert(a =~= b);
    } else if a.len() == 1 || b.len() == 1 {
        // one byte stream is at most `size` long, the other longer
        assert(false);
    } else {
        let ad = a.drop_first();
        let bd = b.drop_first();
        assert(a.flatten() == a.first() + ad.flatten());
        assert(b.flatten() == b.first() + bd.flatten());
        assert(a.first().len() == size && b.first().len() == size) by {
            assert(a[0].len() == size);
            assert(b[0].len() == size);
        }
        assert(a.first() =~= a.flatten().take(size as int));
        assert(b.first() =~= b.flatten().take(size as int));
        assert(ad.flatten() =~= a.flatten().skip(size as int));
        assert(bd.flatten() =~= b.flatten().skip(size as int));
        lemma_chunking_drop_first(a, size);
        lemma_chunking_drop_first(b, size);
        lemma_chunking_unique(ad, bd, size);
        assert forall|i: int| 0 <= i < a.len() implies a[i] == b[i] by {
            if i > 0 {
                assert(a[i] == ad[i - 1]);
                assert(b[i] == bd[i - 1]);
            }
        }
        assert(a =~= b);
    }
}

/// How many payloads the greedy split yields and how long each one is,
/// by whether the capacity divides the plaintext length.
pub proof fn lemma_chunk_payloads_sizes(p: Seq<u8>, c: nat)
    requires
        c >= 1,
    ensures
        p.len() == 0 ==> chunk_payloads(p, c).len() == 0,
        p.len() > 0 && p.len() % c == 0 ==> chunk_payloads(p, c).len() == p.len() / c,
        p.len() > 0 && p.len() % c == 0 ==> forall|i: int|
            0 <= i < chunk_payloads(p, c).len() ==> (#[trigger] chunk_payloads(p, c)[i]).len()
                == c,
        p.len() % c != 0 ==> chunk_payloads(p, c).len() == p.len() / c + 1,
        p.len() % c != 0 ==> forall|i: int|
            0 <= i < chunk_payloads(p, c).len() - 1 ==> (#[trigger] chunk_payloads(p, c)[i]).len()
                == c,
        p.len() % c != 0 ==> chunk_payloads(p, c).last().len() == p.len() % c,
    decreases p.len(),
{
    let n = p.len();
    if n == 0 {
        vstd::arithmetic::div_mod::lemma_small_mod(0nat, c);
        assert(n % c == 0);
    } else if n <= c {
        if n < c {
            vstd::arithmetic::div_mod::lemma_small_mod(n, c);
            vstd::arithmetic::div_mod::lemma_basic_div(n as int, c as int);
            assert(chunk_payloads(p, c).last() == p);
            assert(chunk_payloads(p, c).len() == n / c + 1);
            assert(chunk_payloads(p, c).last().len() == n % c);
        } else {
            vstd::arithmetic::div_mod::lemma_mod_self_0(c as int);
            vstd::arithmetic::div_mod::lemma_div_by_self(c as int);
        }
    } else {
        let rest = chunk_payloads(p.skip(c as int), c);
        let whole = seq![p.take(c as int)] + rest;
        assert(chunk_payloads(p, c) == whole);
        lemma_chunk_payloads_sizes(p.skip(c as int), c);
        assert(p.skip(c as int).len() == n - c);
        vstd::arithmetic::div_mod::lemma_mod_sub_multiples_vanish(n as int, c as int);
        vstd::arithmetic::div_mod::lemma_div_minus_one(n as int, c as int);
        assert((n - c) % (c as int) == n % c);
        assert((n - c) / (c as int) == n / c - 1);
        assert(rest.len() >= 1) by {
            lemma_chunk_payloads_spec(p.skip(c as int), c);
            if rest.len() == 0 {
                assert(rest.flatten() =~= Seq::<u8>::empty());
            }
        }
        assert(whole.last() == rest.last());
        if n % c == 0 {
            assert((n - c) % (c as int) == 0);
            assert forall|i: int| 0 <= i < chunk_payloads(p, c).len() implies (#[trigger]
            chunk_payloads(p, c)[i]).len() == c by {
                if i > 0 {
                    assert(whole[i] == rest[i - 1]);
                    assert(rest[i - 1].len() == c);
                }
            }
        } else {
            assert(rest.last().len() == (n - c) % (c as int));
            assert forall|i: int| 0 <= i < chunk_payloads(p, c).len() - 1 implies (#[trigger]
            chunk_payloads(p, c)[i]).len() == c by {
                if i > 0 {
                    assert(whole[i] == rest[i - 1]);
                    assert(rest[i - 1].len() == c);
                }
            }
            assert(chunk_payloads(p, c).last().len() == n % c);
            assert(chunk_payloads(p, c).len() == whole.len());
            assert(whole.len() == 1 + rest.len());
            assert(rest.len() == (n - c) / (c as int) + 1);
            assert(chunk_payloads(p, c).len() == n / c + 1);
        }
    }
}

/// Law: an empty plaintext produces no chunk at all; the ciphertext is
/// exactly the header.
pub proof fn lemma_layout_empty(p: Seq<u8>, c: nat, sent: Seq<Seq<u8>>)
    requires
        c >= 1,
        p.len() == 0,
        sealed_sizes(sent, chunk_payloads(p, c)),
    ensures
        sent.len() == 0,
{
    lemma_chunk_payloads_sizes(p, c);
}

/// Law: a plaintext that is a positive exact multiple of the capacity
/// produces exactly `len / c` chunks, each one capacity plus one tag long,
/// with no shorter trailing chunk.
pub proof fn lemma_layout_exact_multiple(p: Seq<u8>, c: nat, sent: Seq<Seq<u8>>)
    requires
        c >= 1,
        p.len() > 0,
        p.len() % c == 0,
        sealed_sizes(sent, chunk_payloads(p, c)),
    ensures
        sent.len() == p.len() / c,
        forall|i: int| 0 <= i < sent.len() ==> (#[trigger] sent[i]).len() == c + TAG_LEN,
{
    lemma_chunk_payloads_sizes(p, c);
}

/// Law: a plaintext that is not a multiple of the capacity produces
/// `len / c` full chunks plus exactly one trailing chunk of the leftover
/// length plus one tag.
pub proof fn lemma_layout_trailing(p: Seq<u8>, c: nat, sent: Seq<Seq<u8>>)
    requires
        c >= 1,
        p.len() % c != 0,
        sealed_sizes(sent, chunk_payloads(p, c)),
    ensures
        sent.len() == p.len() / c + 1,
        forall|i: int| 0 <= i < sent.len() - 1 ==> (#[trigger] sent[i]).len() == c + TAG_LEN,
        sent.last().len() == p.len() % c + TAG_LEN,
{
    lemma_chunk_payloads_sizes(p, c);
    let payloads = chunk_payloads(p, c);
    assert(sent.last().len() == payloads[sent.len() - 1].len() + TAG_LEN);
}

/// A sealed stream has the greedy shape at width capacity plus tag.
pub proof fn lemma_sealed_stream_shape(p: Seq<u8>, c: nat, sent: Seq<Seq<u8>>)
    requires
        c >= 1,
        sealed_sizes(sent, chunk_payloads(p, c)),
    ensures
        is_chunking(sent, (c + TAG_LEN) as nat),
{
    lemma_chunk_payloads_spec(p, c);
    let payloads = chunk_payloads(p, c);
    assert forall|i: int| 0 <= i < sent.len() - 1 implies (#[trigger] sent[i]).len() == c
        + TAG_LEN by {
        assert(payloads[i].len() == c);
        assert(sent[i].len() == payloads[i].len() + TAG_LEN);
    }
    if sent.len() > 0 {
        assert(sent.last().len() == payloads.last().len() + TAG_LEN);
    }
}

/// Law: a reader fed exactly the bytes a writer sealed recovers exactly
/// the plaintext the writer consumed.
///
/// `sent` is what the writer pushed to the transport after the header,
/// `got` and `plains` are the chunks a reader cut from the same byte
/// stream and the payloads they opened to: the reader's split must agree
/// with the writer's, and every opened payload is pinned by the cipher,
/// so the concatenated output is the original plaintext.
pub proof fn lemma_round_trip(
    key: Seq<u8>,
    start: Seq<u8>,
    sent: Seq<Seq<u8>>,
    got: Seq<Seq<u8>>,
    plains: Seq<Seq<u8>>,
    p: Seq<u8>,
    c: nat,
)
    requires
        c >= 1,
        opens_to(key, start, sent, chunk_payloads(p, c)),
        sealed_sizes(sent, chunk_payloads(p, c)),
        opens_to(key, start, got, plains),
        is_chunking(got, (c + TAG_LEN) as nat),
        got.flatten() == sent.flatten(),
    ensures
        plains == chunk_payloads(p, c),
        plains.flatten() == p,
{
    lemma_chunk_payloads_spec(p, c);
    lemma_sealed_stream_shape(p, c, sent);
    lemma_chunking_unique(got, sent, (c + TAG_LEN) as nat);
    let payloads = chunk_payloads(p, c);
    assert forall|i: int| 0 <= i < plains.len() implies plains[i] == payloads[i] by {
        assert(aead_open(key, nonce_after(start, i as nat), got[i]) == Some(plains[i]));
        assert(aead_open(key, nonce_after(start, i as nat), sent[i]) == Some(payloads[i]));
    }
    assert(plains =~= payloads);
}

/// Law: what a reader produces is a function of the transported bytes
/// alone.  Two readers that cut the same byte stream into greedy chunks
/// and opened every chunk deliver the same output, whatever the slicing
/// of their reads and pulls was.
pub proof fn lemma_output_determined(
    key: Seq<u8>,
    start: Seq<u8>,
    got1: Seq<Seq<u8>>,
    plains1: Seq<Seq<u8>>,
    got2: Seq<Seq<u8>>,
    plains2: Seq<Seq<u8>>,
    size: nat,
)
    requires
        size >= 1,
        opens_to(key, start, got1, plains1),
        is_chunking(got1, size),
        opens_to(key, start, got2, plains2),
        is_chunking(got2, size),
        got1.flatten() == got2.flatten(),
    ensures
        plains1 == plains2,
        plains1.flatten() == plains2.flatten(),
{
    lemma_chunking_unique(got1, got2, size);
    assert forall|i: int| 0 <= i < plains1.len() implies plains1[i] == plains2[i] by {
        assert(aead_open(key, nonce_after(start, i as nat), got1[i]) == Some(plains1[i]));
        assert(aead_open(key, nonce_after(start, i as nat), got2[i]) == Some(plains2[i]));
    }
    assert(plains1 =~= plains2);
}

/// Dropping the first chunk of a greedy split of two or more chunks leaves
/// a greedy split.
proof fn lemma_chunking_drop_first(chunks: Seq<Seq<u8>>, size: nat)
    requires
        chunks.len() >= 2,
        is_chunking(chunks, size),
    ensures
        is_chunking(chunks.drop_first(), size),
{
    let d = chunks.drop_first();
    assert forall|i: int| 0 <= i < d.len() - 1 implies (#[trigger] d[i]).len() == size by {
        assert(d[i] == chunks[i + 1]);
    }
    assert(d.last() == chunks.last());
}

/// How long the bytes of a greedy split are: zero only for the empty
/// split, more than one width as soon as there are two chunks.
proof fn lemma_chunking_flatten_len(chunks: Seq<Seq<u8>>, size: nat)
    requires
        size >= 1,
        is_chunking(chunks, size),
    ensures
        chunks.len() == 0 <==> chunks.flatten().len() == 0,
        chunks.len() == 1 ==> 1 <= chunks.flatten().len() <= size,
        chunks.len() >= 2 ==> chunks.flatten().len() > size,
    decreases chunks.len(),
{
    if chunks.len() == 0 {
        assert(chunks.flatten() =~= Seq::<u8>::empty());
    } else if chunks.len() == 1 {
        broadcast use Seq::lemma_flatten_singleton;

        assert(chunks.last() == chunks[0]);
    } else {
        lemma_chunking_drop_first(chunks, size);
        lemma_chunking_flatten_len(chunks.drop_first(), size);
        assert(chunks[0].len() == size);
        assert(chunks.flatten() == chunks.first() + chunks.drop_first().flatten());
    }
}

} // verus!
