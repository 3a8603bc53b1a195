//! A hybrid (RSA + AES-256-GCM) streaming encryption codec.
//!
//! A sender-side [`CryptoWriter`] splits an unbounded plaintext stream into
//! fixed-capacity chunks, authenticated-encrypts each chunk under a fresh
//! session key with a counter-derived nonce, and frames them behind a header
//! that carries the RSA-wrapped session key and the initial nonce.  A
//! receiver-side [`CryptoReader`] mirrors it: it recovers the session key
//! from the header, reads chunks, verifies and decrypts each one, and serves
//! plaintext in arbitrarily sized pulls.
//!
//! The chunk-framing and buffering protocol is verified; the cipher
//! primitives themselves (RSA and AES-GCM) are trusted collaborators, called
//! through contracts stated in [`primitives`].

pub mod chunks;
pub mod decrypt;
pub mod encrypt;
pub mod error;
pub mod key;
pub mod nonce;
pub mod oneshot;
pub mod primitives;
pub mod transport;

pub use decrypt::CryptoReader;
pub use encrypt::CryptoWriter;
pub use error::StreamError;
pub use key::RsaKeys;
pub use nonce::NonceSequence;
