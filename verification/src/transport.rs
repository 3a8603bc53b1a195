//! The trusted edge to the underlying transport.
//!
//! A stream owns an arbitrary `std::io` sink or source.  These wrappers
//! state the little that the `std::io` contracts promise: a write either
//! covers the whole slice or fails, a read hands back at most the requested
//! count and signals exhaustion with a zero count.  Which bytes a source
//! yields is its own business; the streams are verified for every choice.

use vstd::prelude::*;

use crate::error::StreamError;

verus! {

/// Relies on `std::io::Write::write_all`: on success the whole slice was
/// handed to the sink, otherwise the write failed partway.
#[verifier::external_body]
pub(crate) fn write_all_bytes<W: std::io::Write>(sink: &mut W, data: &[u8]) -> (r: Result<
    (),
    StreamError,
>)
    ensures
        r matches Err(e) ==> e == StreamError::IoError,
{
    sink.write_all(data).map_err(|_| StreamError::IoError)
}

/// Relies on `std::io::Write::flush`: pushes buffered bytes through to
/// their destination.
#[verifier::external_body]
pub(crate) fn flush_sink<W: std::io::Write>(sink: &mut W) -> (r: Result<(), StreamError>)
    ensures
        r matches Err(e) ==> e == StreamError::IoError,
{
    sink.flush().map_err(|_| StreamError::IoError)
}

/// Relies on `std::io::Read::read`: at most `want` bytes are appended to
/// `buf`, and a zero count means the source is exhausted.
#[verifier::external_body]
pub(crate) fn read_some<R: std::io::Read>(source: &mut R, buf: &mut Vec<u8>, want: usize) -> (r:
    Result<usize, StreamError>)
    ensures
        r matches Ok(k) ==> k <= want,
        r matches Ok(k) ==> final(buf)@.len() == old(buf)@.len() + k,
        r matches Ok(k) ==> final(buf)@.take(old(buf)@.len() as int) == old(buf)@,
        r matches Err(e) ==> e == StreamError::IoError && final(buf)@ == old(buf)@,
{
    let mut fresh = vec![0u8; want];
    match source.read(&mut fresh) {
        Ok(k) => {
            fresh.truncate(k);
            buf.extend_from_slice(&fresh);
            Ok(k)
        },
        Err(_) => Err(StreamError::IoError),
    }
}

/// Relies on `std::io::Read::read_exact`: retries short reads until exactly
/// `n` bytes arrived, and fails when the source runs out first.
#[verifier::external_body]
pub(crate) fn read_exact_bytes<R: std::io::Read>(source: &mut R, n: usize) -> (r: Result<
    Vec<u8>,
    StreamError,
>)
    ensures
        r matches Ok(v) ==> v@.len() == n,
        r matches Err(e) ==> e == StreamError::IoError,
{
    let mut buf = vec![0u8; n];
    match source.read_exact(&mut buf) {
        Ok(()) => Ok(buf),
        Err(_) => Err(StreamError::IoError),
    }
}

} // verus!
