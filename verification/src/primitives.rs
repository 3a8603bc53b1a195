//! The trusted cipher primitives.
//!
//! Everything this crate assumes about RSA, AES-256-GCM and the random
//! source is collected here, as contracts on thin wrappers around the
//! outside calls.  The chunk protocol built on top of them is verified
//! against these contracts and nothing else.
//!
//! The two `uninterp` functions name what the AES-GCM calls return: sealing
//! and opening are deterministic in the key, the nonce and the message, but
//! their values are the cipher's business, so the contracts only relate the
//! two names to each other and to the lengths involved.

use vstd::prelude::*;

use crate::error::StreamError;
use crate::nonce::NONCE_LEN;

use aes_gcm::aead::Aead;
use aes_gcm::{AeadCore, Aes256Gcm, KeyInit};
use rand::{CryptoRng, RngCore};
use rsa::Pkcs1v15Encrypt;

verus! {

/// Width of a session key, in bytes (AES-256).
pub const SESSION_KEY_LEN: usize = 32;

/// Width of the RSA-wrapped session key block on the wire, in bytes: the
/// modulus size of the 2048-bit keys this crate works with.
pub const RSA_BLOCK_LEN: usize = 256;

/// Width of the AES-GCM authentication tag appended to every chunk.
pub const TAG_LEN: usize = 16;

#[verifier::external_type_specification]
#[verifier::external_body]
pub struct ExRsaPublicKey(rsa::RsaPublicKey);

#[verifier::external_type_specification]
#[verifier::external_body]
pub struct ExRsaPrivateKey(rsa::RsaPrivateKey);

#[verifier::external_type_specification]
#[verifier::external_body]
pub struct ExThreadRng(rand::rngs::ThreadRng);

/// The AES-256-GCM ciphertext-plus-tag blob for a key, a nonce and a
/// plaintext.  Deterministic in its three arguments; its value is fixed by
/// the cipher, not by this crate.
pub uninterp spec fn aead_seal(key: Seq<u8>, nonce: Seq<u8>, plain: Seq<u8>) -> Seq<u8>;

/// The result of AES-256-GCM decryption for a key, a nonce and a
/// ciphertext-plus-tag blob: the plaintext when the tag verifies, `None`
/// when it does not.  Deterministic in its three arguments.
pub uninterp spec fn aead_open(key: Seq<u8>, nonce: Seq<u8>, cipher: Seq<u8>) -> Option<Seq<u8>>;

/// Relies on `aes_gcm::Aes256Gcm` through `aead::Aead::encrypt`: the result
/// is the ciphertext with the 16-byte tag appended, it is a function of
/// (key, nonce, plaintext) alone, decrypting it under the same key and
/// nonce returns the plaintext, and the only failure is a plaintext longer
/// than the cipher's limit of 2^36 bytes.
#[verifier::external_body]
pub(crate) fn aead_encrypt_chunk(key: &[u8], nonce: &[u8], plain: &[u8]) -> (r: Result<
    Vec<u8>,
    StreamError,
>)
    requires
        key@.len() == SESSION_KEY_LEN,
        nonce@.len() == NONCE_LEN,
    ensures
        r matches Ok(c) ==> c@ == aead_seal(key@, nonce@, plain@),
        r matches Ok(c) ==> c@.len() == plain@.len() + TAG_LEN,
        r matches Ok(c) ==> aead_open(key@, nonce@, c@) == Some(plain@),
        plain@.len() < 0x1000000000 ==> r is Ok,
        r matches Err(e) ==> e == StreamError::CryptoError,
{
    let cipher = Aes256Gcm::new_from_slice(key).map_err(|_| StreamError::CryptoError)?;
    cipher.encrypt(aes_gcm::Nonce::from_slice(nonce), plain).map_err(|_| StreamError::CryptoError)
}

/// Relies on `aes_gcm::Aes256Gcm` through `aead::Aead::decrypt`: the call
/// verifies the appended 16-byte tag and returns the plaintext exactly when
/// verification succeeds, deterministically in (key, nonce, ciphertext).
#[verifier::external_body]
pub(crate) fn aead_decrypt_chunk(key: &[u8], nonce: &[u8], cipher_text: &[u8]) -> (r: Result<
    Vec<u8>,
    StreamError,
>)
    requires
        key@.len() == SESSION_KEY_LEN,
        nonce@.len() == NONCE_LEN,
    ensures
        r matches Ok(p) ==> aead_open(key@, nonce@, cipher_text@) == Some(p@),
        r matches Ok(p) ==> p@.len() + TAG_LEN == cipher_text@.len(),
        r is Err ==> aead_open(key@, nonce@, cipher_text@) is None,
        r matches Err(e) ==> e == StreamError::CryptoError,
{
    let cipher = Aes256Gcm::new_from_slice(key).map_err(|_| StreamError::CryptoError)?;
    cipher.decrypt(aes_gcm::Nonce::from_slice(nonce), cipher_text).map_err(
        |_| StreamError::CryptoError,
    )
}

/// Relies on `rsa::RsaPublicKey::encrypt` with PKCS#1 v1.5 padding: the
/// padding is randomized, so nothing ties the ciphertext to its inputs
/// here; failures are malformed or too-small keys.
#[verifier::external_body]
pub(crate) fn rsa_encrypt_block<R: CryptoRng + RngCore>(
    rng: &mut R,
    key: &rsa::RsaPublicKey,
    msg: &[u8],
) -> (r: Result<Vec<u8>, StreamError>)
    ensures
        r matches Err(e) ==> e == StreamError::KeyError,
{
    key.encrypt(rng, Pkcs1v15Encrypt, msg).map_err(|_| StreamError::KeyError)
}

/// Relies on `rsa::RsaPrivateKey::decrypt` with PKCS#1 v1.5 padding: the
/// call either recovers the padded message or reports a decryption
/// failure; with a non-matching key the padding check fails.
#[verifier::external_body]
pub(crate) fn rsa_decrypt_block(key: &rsa::RsaPrivateKey, cipher_text: &[u8]) -> (r: Result<
    Vec<u8>,
    StreamError,
>)
    ensures
        r matches Err(e) ==> e == StreamError::CryptoError,
{
    key.decrypt(Pkcs1v15Encrypt, cipher_text).map_err(|_| StreamError::CryptoError)
}

/// Relies on `aes_gcm::Aes256Gcm::generate_key`: 32 bytes drawn from the
/// given cryptographically secure source.
#[verifier::external_body]
pub(crate) fn generate_session_key<R: CryptoRng + RngCore>(rng: &mut R) -> (r: Vec<u8>)
    ensures
        r@.len() == SESSION_KEY_LEN,
{
    Aes256Gcm::generate_key(&mut *rng).to_vec()
}

/// Relies on `aes_gcm::Aes256Gcm::generate_nonce`: 12 bytes drawn from the
/// given cryptographically secure source.
#[verifier::external_body]
pub(crate) fn generate_nonce_bytes<R: CryptoRng + RngCore>(rng: &mut R) -> (r: Vec<u8>)
    ensures
        r@.len() == NONCE_LEN,
{
    Aes256Gcm::generate_nonce(&mut *rng).to_vec()
}

/// Relies on `rand::thread_rng`: a cryptographically secure random source.
#[verifier::external_body]
pub(crate) fn fresh_rng() -> rand::rngs::ThreadRng {
    rand::thread_rng()
}

} // verus!
