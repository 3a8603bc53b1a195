//! The error taxonomy shared by every operation of this crate.

use vstd::prelude::*;

verus! {

/// What can go wrong while opening, driving, or closing a stream.
///
/// - `IoError`: the underlying transport failed to deliver or accept bytes,
///   including a truncation inside the header.  Never retried here.
/// - `KeyError`: malformed or wrong-size asymmetric key material, detected
///   at stream construction.
/// - `CryptoError`: asymmetric decryption failure or an authentication-tag
///   mismatch on a chunk.  Always fatal for the stream: no plaintext from
///   the failing chunk is ever released.
/// - `ProtocolError`: misuse of the API, such as writing after finalize or
///   finalizing twice.  Signaled synchronously at the point of misuse.
#[derive(Clone, Copy, Debug, PartialEq, Eq, Structural)]
pub enum StreamError {
    IoError,
    KeyError,
    CryptoError,
    ProtocolError,
}

} // verus!
