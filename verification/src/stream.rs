//! The byte stream under a framed connection, as the library asks for it.

use std::io::Error;
use vstd::prelude::*;

verus! {

/// `std::io::Error`, made known to the verifier as an opaque type.
#[verifier::external_type_specification]
#[verifier::external_body]
pub struct ExIoError(Error);

/// Whether an I/O error only says that a non-blocking call found nothing to
/// do yet: its kind is `std::io::ErrorKind::WouldBlock`.
pub uninterp spec fn is_would_block(err: Error) -> bool;

/// `std::io::Error::kind`, held against `WouldBlock`.
#[verifier::external_body]
pub(crate) fn would_block(err: &Error) -> (b: bool)
    ensures
        b == is_would_block(*err),
{
    err.kind() == std::io::ErrorKind::WouldBlock
}

/// What a non-blocking call's result amounts to: a byte count, nothing to do
/// yet, or a failure that is not transient.
pub open spec fn settled(res: Result<usize, Error>) -> Result<Option<usize>, Error> {
    match res {
        Ok(n) => Ok(Some(n)),
        Err(e) => if is_would_block(e) {
            Ok(None)
        } else {
            Err(e)
        },
    }
}

/// Turns "would block" from an error into the absence of a byte count, and
/// passes everything else on.
pub fn settle(res: Result<usize, Error>) -> (r: Result<Option<usize>, Error>)
    ensures
        r == settled(res),
{
    match res {
        Ok(n) => Ok(Some(n)),
        Err(e) => {
            if would_block(&e) {
                Ok(None)
            } else {
                Err(e)
            }
        },
    }
}

/// A non-blocking, connected byte stream. The application implements the two
/// required methods for its socket type; the library calls them and never
/// opens, polls or closes anything itself.
///
/// What the two required methods promise is what `std::io::Read::read` and
/// `std::io::Write::write` ask of every implementation: a count is never
/// more than the buffer's length. No implementation is checked against it, so
/// what is proved of the library's writes and reads holds of the streams
/// that keep this promise.
pub trait Stream {
    /// Pulls bytes into the front of `buf` and reports how many. `Ok(0)` on a
    /// non-empty `buf` means that the peer has closed. A count never exceeds
    /// the room that was offered.
    fn read(&mut self, buf: &mut [u8]) -> (r: Result<usize, Error>)
        ensures
            final(buf)@.len() == old(buf)@.len(),
            r matches Ok(n) ==> n <= old(buf)@.len(),
    ;

    /// Offers `buf` to the stream and reports how many of its leading bytes
    /// were taken. A count never exceeds what was offered.
    fn write(&mut self, buf: &[u8]) -> (r: Result<usize, Error>)
        ensures
            r matches Ok(n) ==> n <= buf@.len(),
    ;

    /// `read`, with "would block" reported as `Ok(None)`.
    fn try_read(&mut self, buf: &mut [u8]) -> (r: Result<Option<usize>, Error>)
        ensures
            final(buf)@.len() == old(buf)@.len(),
            r matches Ok(Some(n)) ==> n <= old(buf)@.len(),
            r matches Err(e) ==> !is_would_block(e),
    {
        let res = self.read(buf);
        settle(res)
    }

    /// `write`, with "would block" reported as `Ok(None)`.
    fn try_write(&mut self, buf: &[u8]) -> (r: Result<Option<usize>, Error>)
        ensures
            r matches Ok(Some(n)) ==> n <= buf@.len(),
            r matches Err(e) ==> !is_would_block(e),
    {
        let res = self.write(buf);
        settle(res)
    }
}

} // verus!
