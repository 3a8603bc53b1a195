//! RSA key-pair management.
//!
//! An [`RsaKeys`] value holds whichever halves of an RSA key pair are at
//! hand: both after generation or when loaded from a private key, one
//! when loaded from a single PEM block.  Generation, PEM encoding and PEM
//! decoding are the `rsa` crate's work, called through trusted wrappers;
//! what this module verifies is which halves each constructor yields and
//! which half each accessor needs.

use vstd::prelude::*;

use crate::error::StreamError;
use crate::primitives::fresh_rng;

use rand::{CryptoRng, RngCore};
use rsa::pkcs1::{DecodeRsaPrivateKey, DecodeRsaPublicKey, EncodeRsaPrivateKey, EncodeRsaPublicKey};

verus! {

/// Key length used for generated keys, in bits.
pub const RSA_KEY_BITS: usize = 2048;

/// Relies on `rsa::RsaPrivateKey::new`: a fresh private key of the given
/// modulus size, drawn from the given cryptographically secure source.
#[verifier::external_body]
fn generate_private_key<R: CryptoRng + RngCore>(rng: &mut R, bits: usize) -> (r: Result<
    rsa::RsaPrivateKey,
    StreamError,
>)
    ensures
        r matches Err(e) ==> e == StreamError::KeyError,
{
    rsa::RsaPrivateKey::new(rng, bits).map_err(|_| StreamError::KeyError)
}

/// Relies on `rsa::RsaPublicKey::from`: the public half of a private key.
#[verifier::external_body]
fn derive_public_key(key: &rsa::RsaPrivateKey) -> rsa::RsaPublicKey {
    rsa::RsaPublicKey::from(key)
}

/// Relies on `rsa::RsaPrivateKey::from_pkcs1_pem`: parses a PKCS#1 PEM
/// private key, rejecting malformed text.
#[verifier::external_body]
fn private_key_from_pem(pem: &str) -> (r: Result<rsa::RsaPrivateKey, StreamError>)
    ensures
        r matches Err(e) ==> e == StreamError::KeyError,
{
    rsa::RsaPrivateKey::from_pkcs1_pem(pem).map_err(|_| StreamError::KeyError)
}

/// Relies on `rsa::RsaPublicKey::from_pkcs1_pem`: parses a PKCS#1 PEM
/// public key, rejecting malformed text.
#[verifier::external_body]
fn public_key_from_pem(pem: &str) -> (r: Result<rsa::RsaPublicKey, StreamError>)
    ensures
        r matches Err(e) ==> e == StreamError::KeyError,
{
    rsa::RsaPublicKey::from_pkcs1_pem(pem).map_err(|_| StreamError::KeyError)
}

/// Relies on `rsa::pkcs1::EncodeRsaPrivateKey::to_pkcs1_pem`: the PKCS#1
/// PEM form of a private key.
#[verifier::external_body]
fn private_key_pem_string(key: &rsa::RsaPrivateKey) -> (r: Result<String, StreamError>)
    ensures
        r matches Err(e) ==> e == StreamError::KeyError,
{
    match key.to_pkcs1_pem(rsa::pkcs8::LineEnding::LF) {
        Ok(pem) => Ok(pem.as_str().to_string()),
        Err(_) => Err(StreamError::KeyError),
    }
}

/// Relies on `rsa::pkcs1::EncodeRsaPublicKey::to_pkcs1_pem`: the PKCS#1
/// PEM form of a public key.
#[verifier::external_body]
fn public_key_pem_string(key: &rsa::RsaPublicKey) -> (r: Result<String, StreamError>)
    ensures
        r matches Err(e) ==> e == StreamError::KeyError,
{
    key.to_pkcs1_pem(rsa::pkcs8::LineEnding::LF).map_err(|_| StreamError::KeyError)
}

/// The RSA key material available to this process: the public half, the
/// private half, or both.
pub struct RsaKeys {
    pub public_key: Option<rsa::RsaPublicKey>,
    pub private_key: Option<rsa::RsaPrivateKey>,
}

impl RsaKeys {
    /// Generates a fresh 2048-bit key pair with the process random
    /// source.
    pub fn generate() -> (r: Result<RsaKeys, StreamError>)
        ensures
            r matches Ok(k) ==> k.public_key is Some && k.private_key is Some,
            r matches Err(e) ==> e == StreamError::KeyError,
    {
        let mut rng = fresh_rng();
        Self::generate_with_rng(&mut rng)
    }

    /// Generates a fresh 2048-bit key pair from the given random source.
    pub fn generate_with_rng<R: CryptoRng + RngCore>(rng: &mut R) -> (r: Result<
        RsaKeys,
        StreamError,
    >)
        ensures
            r matches Ok(k) ==> k.public_key is Some && k.private_key is Some,
            r matches Err(e) ==> e == StreamError::KeyError,
    {
        let private_key = match generate_private_key(rng, RSA_KEY_BITS) {
            Ok(k) => k,
            Err(e) => { return Err(e); },
        };
        let public_key = derive_public_key(&private_key);
        Ok(RsaKeys { public_key: Some(public_key), private_key: Some(private_key) })
    }

    /// Wraps an existing private key, deriving its public half.
    pub fn from_private_key(private_key: rsa::RsaPrivateKey) -> (r: RsaKeys)
        ensures
            r.public_key is Some && r.private_key is Some,
    {
        let public_key = derive_public_key(&private_key);
        RsaKeys { public_key: Some(public_key), private_key: Some(private_key) }
    }

    /// The private half in PKCS#1 PEM form; fails when only the public
    /// half is at hand.
    pub fn private_key_to_pem(&self) -> (r: Result<String, StreamError>)
        ensures
            r is Ok ==> self.private_key is Some,
            self.private_key is None ==> r == Err::<String, StreamError>(StreamError::KeyError),
            r matches Err(e) ==> e == StreamError::KeyError,
    {
        match &self.private_key {
            Some(key) => private_key_pem_string(key),
            None => Err(StreamError::KeyError),
        }
    }

    /// The public half in PKCS#1 PEM form; fails when only the private
    /// half is at hand.
    pub fn public_key_to_pem(&self) -> (r: Result<String, StreamError>)
        ensures
            r is Ok ==> self.public_key is Some,
            self.public_key is None ==> r == Err::<String, StreamError>(StreamError::KeyError),
            r matches Err(e) ==> e == StreamError::KeyError,
    {
        match &self.public_key {
            Some(key) => public_key_pem_string(key),
            None => Err(StreamError::KeyError),
        }
    }

    /// Parses a PKCS#1 PEM private key and derives its public half.
    pub fn from_key_pem(pem: &str) -> (r: Result<RsaKeys, StreamError>)
        ensures
            r matches Ok(k) ==> k.public_key is Some && k.private_key is Some,
            r matches Err(e) ==> e == StreamError::KeyError,
    {
        let private_key = match private_key_from_pem(pem) {
            Ok(k) => k,
            Err(e) => { return Err(e); },
        };
        let public_key = derive_public_key(&private_key);
        Ok(RsaKeys { public_key: Some(public_key), private_key: Some(private_key) })
    }

    /// Parses a PKCS#1 PEM private key, keeping only the private half.
    pub fn from_private_key_pem(pem: &str) -> (r: Result<RsaKeys, StreamError>)
        ensures
            r matches Ok(k) ==> k.public_key is None && k.private_key is Some,
            r matches Err(e) ==> e == StreamError::KeyError,
    {
        let private_key = match private_key_from_pem(pem) {
            Ok(k) => k,
            Err(e) => { return Err(e); },
        };
        Ok(RsaKeys { public_key: None, private_key: Some(private_key) })
    }

    /// Parses a PKCS#1 PEM public key, keeping only the public half.
    pub fn from_public_key_pem(pem: &str) -> (r: Result<RsaKeys, StreamError>)
        ensures
            r matches Ok(k) ==> k.public_key is Some && k.private_key is None,
            r matches Err(e) ==> e == StreamError::KeyError,
    {
        let public_key = match public_key_from_pem(pem) {
            Ok(k) => k,
            Err(e) => { return Err(e); },
        };
        Ok(RsaKeys { public_key: Some(public_key), private_key: None })
    }
}

} // verus!
