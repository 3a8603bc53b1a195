//! Single-shot hybrid encryption of a whole buffer.
//!
//! The companion of the streaming types for data that is already in
//! memory: one RSA-wrapped session key, one random nonce, one sealed
//! blob.  On the wire: the RSA block, the raw nonce, then ciphertext plus
//! tag — the same header the streams use, followed by a single unframed
//! chunk of the full payload length.

use vstd::prelude::*;

use crate::error::StreamError;
use crate::nonce::NONCE_LEN;
use crate::primitives::{aead_decrypt_chunk, aead_encrypt_chunk, aead_open, aead_seal, generate_nonce_bytes, generate_session_key, rsa_encrypt_block, rsa_decrypt_block, RSA_BLOCK_LEN, SESSION_KEY_LEN, TAG_LEN};

use rand::{CryptoRng, RngCore};

verus! {

/// Seals `data` under a raw session key: the nonce followed by the
/// ciphertext-plus-tag blob.
pub fn seal_payload(key: &[u8], nonce: &[u8], data: &[u8]) -> (r: Result<Vec<u8>, StreamError>)
    requires
        key@.len() == SESSION_KEY_LEN,
        nonce@.len() == NONCE_LEN,
    ensures
        r matches Ok(v) ==> v@ == nonce@ + aead_seal(key@, nonce@, data@) && v@.len() == NONCE_LEN
            + data@.len() + TAG_LEN && aead_open(key@, nonce@, v@.skip(NONCE_LEN as int)) == Some(
            data@,
        ),
        data@.len() < 0x1000000000 ==> r is Ok,
        r matches Err(e) ==> e == StreamError::CryptoError,
{
    let sealed = match aead_encrypt_chunk(key, nonce, data) {
        Ok(c) => c,
        Err(e) => { return Err(e); },
    };
    let mut out = vstd::slice::slice_to_vec(nonce);
    let mut tail = sealed;
    out.append(&mut tail);
    proof {
        assert(out@.skip(NONCE_LEN as int) =~= aead_seal(key@, nonce@, data@));
    }
    Ok(out)
}

/// Opens a sealed payload — the nonce followed by ciphertext plus tag —
/// under a raw session key, if and only if the tag verifies.
pub fn open_payload(key: &[u8], data: &[u8]) -> (r: Result<Vec<u8>, StreamError>)
    requires
        key@.len() == SESSION_KEY_LEN,
    ensures
        r matches Ok(p) ==> data@.len() >= NONCE_LEN && aead_open(
            key@,
            data@.subrange(0, NONCE_LEN as int),
            data@.skip(NONCE_LEN as int),
        ) == Some(p@),
        r is Err <==> data@.len() < NONCE_LEN || aead_open(
            key@,
            data@.subrange(0, NONCE_LEN as int),
            data@.skip(NONCE_LEN as int),
        ) is None,
        r matches Err(e) ==> e == StreamError::CryptoError,
{
    if data.len() < NONCE_LEN {
        return Err(StreamError::CryptoError);
    }
    let nonce = vstd::slice::slice_subrange(data, 0, NONCE_LEN);
    let body = vstd::slice::slice_subrange(data, NONCE_LEN, data.len());
    proof {
        assert(body@ =~= data@.skip(NONCE_LEN as int));
    }
    aead_decrypt_chunk(key, nonce, body)
}

/// There is a session key of the right width under which the nonce and
/// payload carried after the RSA block open to exactly `data`.
pub open spec fn opens_under_some_key(v: Seq<u8>, data: Seq<u8>) -> bool {
    exists|k: Seq<u8>|
        k.len() == SESSION_KEY_LEN && #[trigger] aead_open(
            k,
            v.subrange(RSA_BLOCK_LEN as int, (RSA_BLOCK_LEN + NONCE_LEN) as int),
            v.skip((RSA_BLOCK_LEN + NONCE_LEN) as int),
        ) == Some(data)
}

/// Hybrid-encrypts a whole buffer: a fresh session key wrapped for the
/// recipient, a fresh nonce, and the sealed payload, concatenated.
pub fn encrypt_bytes<R: CryptoRng + RngCore>(
    rng: &mut R,
    key: &rsa::RsaPublicKey,
    data: &[u8],
) -> (r: Result<Vec<u8>, StreamError>)
    ensures
        r matches Ok(v) ==> v@.len() == RSA_BLOCK_LEN + NONCE_LEN + data@.len() + TAG_LEN,
        r matches Ok(v) ==> opens_under_some_key(v@, data@),
        r matches Err(e) ==> e == StreamError::KeyError || e == StreamError::CryptoError,
{
    let session_key = generate_session_key(rng);
    let nonce = generate_nonce_bytes(rng);
    let wrapped = match rsa_encrypt_block(rng, key, session_key.as_slice()) {
        Ok(v) => v,
        Err(e) => { return Err(e); },
    };
    if wrapped.len() != RSA_BLOCK_LEN {
        return Err(StreamError::KeyError);
    }
    let payload = match seal_payload(session_key.as_slice(), nonce.as_slice(), data) {
        Ok(v) => v,
        Err(e) => { return Err(e); },
    };
    let mut out = wrapped;
    let mut tail = payload;
    let ghost payload_view = tail@;
    out.append(&mut tail);
    proof {
        assert(out@.subrange(RSA_BLOCK_LEN as int, (RSA_BLOCK_LEN + NONCE_LEN) as int)
            =~= nonce@);
        assert(out@.skip((RSA_BLOCK_LEN + NONCE_LEN) as int) =~= payload_view.skip(
            NONCE_LEN as int,
        ));
        assert(aead_open(
            session_key@,
            out@.subrange(RSA_BLOCK_LEN as int, (RSA_BLOCK_LEN + NONCE_LEN) as int),
            out@.skip((RSA_BLOCK_LEN + NONCE_LEN) as int),
        ) == Some(data@));
        assert(opens_under_some_key(out@, data@));
    }
    Ok(out)
}

/// Hybrid-decrypts a whole buffer produced by [`encrypt_bytes`]: unwraps
/// the session key with the private key, then opens the payload.
pub fn decrypt_bytes(key: &rsa::RsaPrivateKey, data: &[u8]) -> (r: Result<Vec<u8>, StreamError>)
    ensures
        r matches Ok(p) ==> data@.len() >= RSA_BLOCK_LEN + NONCE_LEN && opens_under_some_key(
            data@,
            p@,
        ),
        data@.len() < RSA_BLOCK_LEN + NONCE_LEN ==> r is Err,
        r matches Err(e) ==> e == StreamError::CryptoError,
{
    if data.len() < RSA_BLOCK_LEN {
        return Err(StreamError::CryptoError);
    }
    let wrapped = vstd::slice::slice_subrange(data, 0, RSA_BLOCK_LEN);
    let key_bytes = match rsa_decrypt_block(key, wrapped) {
        Ok(v) => v,
        Err(e) => { return Err(e); },
    };
    if key_bytes.len() != SESSION_KEY_LEN {
        return Err(StreamError::CryptoError);
    }
    let rest = vstd::slice::slice_subrange(data, RSA_BLOCK_LEN, data.len());
    let opened = match open_payload(key_bytes.as_slice(), rest) {
        Ok(p) => p,
        Err(e) => { return Err(e); },
    };
    proof {
        assert(rest@.subrange(0, NONCE_LEN as int) =~= data@.subrange(
            RSA_BLOCK_LEN as int,
            (RSA_BLOCK_LEN + NONCE_LEN) as int,
        ));
        assert(rest@.skip(NONCE_LEN as int) =~= data@.skip((RSA_BLOCK_LEN + NONCE_LEN) as int));
        assert(aead_open(
            key_bytes@,
            data@.subrange(RSA_BLOCK_LEN as int, (RSA_BLOCK_LEN + NONCE_LEN) as int),
            data@.skip((RSA_BLOCK_LEN + NONCE_LEN) as int),
        ) == Some(opened@));
        assert(opens_under_some_key(data@, opened@));
    }
    Ok(opened)
}

} // verus!
