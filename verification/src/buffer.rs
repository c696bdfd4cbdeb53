//! The byte buffers of the `bytes` crate, as the rest of the library sees them.
//!
//! `BytesMut` is the growable buffer behind a stream's pending input and
//! output; `Bytes` is the immutable, reference-counted slice that a decoded
//! frame is handed out as. Both are opaque to the verifier. Each one's
//! contents are named by a specification function, and every operation the
//! library uses is given a contract over those names. None of the contracts
//! in this file is proved: they restate what the `bytes` sources show.

use bytes::{Bytes, BytesMut};
use vstd::prelude::*;

verus! {

/// `bytes::BytesMut`, made known to the verifier as an opaque type.
#[verifier::external_type_specification]
#[verifier::external_body]
pub struct ExBytesMut(BytesMut);

/// `bytes::Bytes`, made known to the verifier as an opaque type.
#[verifier::external_type_specification]
#[verifier::external_body]
pub struct ExBytes(Bytes);

/// The bytes that a `BytesMut` currently holds, first to last.
pub uninterp spec fn buffer_bytes(buf: BytesMut) -> Seq<u8>;

/// The bytes that a `Bytes` refers to, first to last.
pub uninterp spec fn frame_bytes(frame: Bytes) -> Seq<u8>;

/// `BytesMut::with_capacity`: the new buffer holds no bytes, whatever room
/// was asked for. The crate allocates a vector of that capacity, which panics
/// past the largest size that a vector may have.
pub assume_specification[ BytesMut::with_capacity ](capacity: usize) -> (buf: BytesMut)
    requires
        capacity <= isize::MAX,
    ensures
        buffer_bytes(buf) == Seq::<u8>::empty(),
;

/// `BytesMut::len`: the number of bytes held.
pub assume_specification[ BytesMut::len ](buf: &BytesMut) -> (n: usize)
    ensures
        n == buffer_bytes(*buf).len(),
;

/// `BytesMut::capacity`: how many bytes fit without reallocating. The figure
/// depends on the allocation, so nothing is claimed of it.
pub assume_specification[ BytesMut::capacity ](buf: &BytesMut) -> (n: usize)
;

/// `BytesMut::reserve`: makes room and leaves the contents as they were. The
/// crate panics when the requested size is more than a vector may have, which
/// the precondition excludes.
pub assume_specification[ BytesMut::reserve ](buf: &mut BytesMut, additional: usize)
    requires
        buffer_bytes(*old(buf)).len() + additional <= isize::MAX,
    ensures
        buffer_bytes(*final(buf)) == buffer_bytes(*old(buf)),
;

/// `BytesMut::extend_from_slice`: reserves, then appends `extend` behind the
/// bytes already held. It panics only where the reservation does.
pub assume_specification[ BytesMut::extend_from_slice ](buf: &mut BytesMut, extend: &[u8])
    requires
        buffer_bytes(*old(buf)).len() + extend@.len() <= isize::MAX,
    ensures
        buffer_bytes(*final(buf)) == buffer_bytes(*old(buf)) + extend@,
;

/// `BytesMut::advance`: drops the first `cnt` bytes and keeps the rest. The
/// crate panics when `cnt` exceeds the length.
pub assume_specification[ BytesMut::advance ](buf: &mut BytesMut, cnt: usize)
    requires
        cnt <= buffer_bytes(*old(buf)).len(),
    ensures
        buffer_bytes(*final(buf)) == buffer_bytes(*old(buf)).skip(cnt as int),
;

/// `BytesMut::split_to`: the result takes the first `at` bytes and the buffer
/// keeps what follows them. The crate panics when `at` exceeds the length.
pub assume_specification[ BytesMut::split_to ](buf: &mut BytesMut, at: usize) -> (head: BytesMut)
    requires
        at <= buffer_bytes(*old(buf)).len(),
    ensures
        buffer_bytes(head) == buffer_bytes(*old(buf)).take(at as int),
        buffer_bytes(*final(buf)) == buffer_bytes(*old(buf)).skip(at as int),
;

/// `BytesMut::freeze`: the same bytes, no longer mutable.
pub assume_specification[ BytesMut::freeze ](buf: BytesMut) -> (frame: Bytes)
    ensures
        frame_bytes(frame) == buffer_bytes(buf),
;

/// The largest number of bytes that a buffer may be asked to hold.
pub fn max_buffer() -> (n: usize)
    ensures
        n == isize::MAX,
{
    isize::MAX as usize
}

/// The `Deref` of `BytesMut`: a slice over exactly the bytes held.
#[verifier::external_body]
pub(crate) fn buffer_slice(buf: &BytesMut) -> (s: &[u8])
    ensures
        s@ == buffer_bytes(*buf),
{
    &buf[..]
}

} // verus!
