//! The wire format: a two-byte little-endian length, then that many bytes.
//!
//! The format is stated once, as specification functions over byte
//! sequences, and the two executable functions are proved against it.

use crate::buffer::{buffer_bytes, buffer_slice, frame_bytes};
use crate::error::FrameError;
use bytes::{Bytes, BytesMut};
use vstd::prelude::*;

verus! {

/// The largest payload that one frame can carry.
pub const MAX_PAYLOAD: usize = 65535;

/// The bytes that a frame's length prefix takes.
pub const HEADER_LEN: usize = 2;

/// The bytes that the largest frame takes on the wire.
pub const MAX_FRAME: usize = 65537;

/// The two header bytes for a payload of `len` bytes, low byte first.
pub open spec fn header(len: nat) -> Seq<u8> {
    seq![(len % 256) as u8, (len / 256) as u8]
}

/// A payload as it stands on the wire.
pub open spec fn encoded(payload: Seq<u8>) -> Seq<u8> {
    header(payload.len()) + payload
}

/// Payloads on the wire, one behind the other.
pub open spec fn encoded_all(payloads: Seq<Seq<u8>>) -> Seq<u8>
    decreases payloads.len(),
{
    if payloads.len() == 0 {
        Seq::empty()
    } else {
        encoded(payloads[0]) + encoded_all(payloads.skip(1))
    }
}

/// The payload length that the first two bytes of `wire` announce.
pub open spec fn announced(wire: Seq<u8>) -> nat {
    wire[0] as nat + 256 * (wire[1] as nat)
}

/// Whether `wire` starts with a whole frame: a header and all the bytes it
/// announces.
pub open spec fn has_frame(wire: Seq<u8>) -> bool {
    wire.len() >= 2 && wire.len() >= 2 + announced(wire)
}

/// The payload of the frame that `wire` starts with.
pub open spec fn first_payload(wire: Seq<u8>) -> Seq<u8> {
    wire.subrange(2, 2 + announced(wire) as int)
}

/// What follows the frame that `wire` starts with.
pub open spec fn after_first(wire: Seq<u8>) -> Seq<u8> {
    wire.skip(2 + announced(wire) as int)
}

/// The payloads of all the whole frames at the front of `wire`, in wire order.
pub open spec fn decoded(wire: Seq<u8>) -> Seq<Seq<u8>>
    decreases wire.len(),
{
    if has_frame(wire) {
        seq![first_payload(wire)] + decoded(after_first(wire))
    } else {
        Seq::empty()
    }
}

/// What is left of `wire` behind its whole frames: too short for a header, or
/// shorter than its header announces.
pub open spec fn residual(wire: Seq<u8>) -> Seq<u8>
    decreases wire.len(),
{
    if has_frame(wire) {
        residual(after_first(wire))
    } else {
        wire
    }
}

/// The payloads that a list of frames carries.
pub open spec fn payloads(frames: Seq<Bytes>) -> Seq<Seq<u8>> {
    frames.map_values(|f: Bytes| frame_bytes(f))
}

/// A header announces at most `MAX_PAYLOAD` bytes, so what holds no whole
/// frame is shorter than the largest frame.
pub proof fn lemma_incomplete_is_short(wire: Seq<u8>)
    requires
        !has_frame(wire),
    ensures
        wire.len() < MAX_FRAME,
{
    if wire.len() >= 2 {
        assert(announced(wire) <= 65535);
    }
}

/// Decoding leaves no whole frame behind, and what it leaves is shorter than
/// the largest frame.
pub proof fn lemma_residual_is_incomplete(wire: Seq<u8>)
    ensures
        !has_frame(residual(wire)),
        residual(wire).len() < MAX_FRAME,
        decoded(residual(wire)) == Seq::<Seq<u8>>::empty(),
        residual(residual(wire)) == residual(wire),
    decreases wire.len(),
{
    if has_frame(wire) {
        lemma_residual_is_incomplete(after_first(wire));
    }
    lemma_incomplete_is_short(residual(wire));
}

/// Every decoded payload fits a frame, and the payloads put through the
/// encoder again, followed by what decoding left over, are exactly the bytes
/// that were decoded.
pub proof fn lemma_decode_then_encode(wire: Seq<u8>)
    ensures
        forall|i: int|
            0 <= i < decoded(wire).len() ==> (#[trigger] decoded(wire)[i]).len() <= MAX_PAYLOAD,
        encoded_all(decoded(wire)) + residual(wire) == wire,
    decreases wire.len(),
{
    if has_frame(wire) {
        let rest = after_first(wire);
        let p = first_payload(wire);
        lemma_decode_then_encode(rest);
        assert(announced(wire) <= 65535);
        assert(p.len() == announced(wire));
        assert(decoded(wire).skip(1) =~= decoded(rest));
        assert(decoded(wire)[0] == p);
        assert(header(p.len()) =~= wire.subrange(0, 2)) by {
            let n = announced(wire);
            assert(n % 256 == wire[0] as nat);
            assert(n / 256 == wire[1] as nat);
        }
        assert(encoded(p) =~= wire.subrange(0, 2 + announced(wire) as int));
        assert(encoded(p) + (encoded_all(decoded(rest)) + residual(rest)) =~= wire);
        assert(encoded_all(decoded(wire)) + residual(wire) =~= encoded(p) + (encoded_all(
            decoded(rest),
        ) + residual(rest)));
        assert forall|i: int| 0 <= i < decoded(wire).len() implies (#[trigger] decoded(
            wire,
        )[i]).len() <= MAX_PAYLOAD by {
            if i > 0 {
                assert(decoded(wire)[i] == decoded(rest)[i - 1]);
            }
        }
    } else {
        assert(encoded_all(decoded(wire)) + residual(wire) =~= wire);
    }
}

/// A frame at the front of the wire decodes to its payload, and decoding goes
/// on behind it.
pub proof fn lemma_encode_then_decode(payload: Seq<u8>, rest: Seq<u8>)
    requires
        payload.len() <= MAX_PAYLOAD,
    ensures
        decoded(encoded(payload) + rest) == seq![payload] + decoded(rest),
        residual(encoded(payload) + rest) == residual(rest),
{
    let wire = encoded(payload) + rest;
    let n = payload.len();
    assert(wire[0] == (n % 256) as u8);
    assert(wire[1] == (n / 256) as u8);
    assert(announced(wire) == n);
    assert(has_frame(wire));
    assert(first_payload(wire) =~= payload);
    assert(after_first(wire) =~= rest);
}

/// Encoding a payload and decoding the result gives the payload back, and
/// nothing else.
pub proof fn lemma_round_trip(payload: Seq<u8>)
    requires
        payload.len() <= MAX_PAYLOAD,
    ensures
        decoded(encoded(payload)) == seq![payload],
        residual(encoded(payload)) == Seq::<u8>::empty(),
{
    lemma_encode_then_decode(payload, Seq::empty());
    assert(encoded(payload) + Seq::<u8>::empty() =~= encoded(payload));
    assert(decoded(Seq::<u8>::empty()) =~= Seq::<Seq<u8>>::empty());
    assert(seq![payload] + Seq::<Seq<u8>>::empty() =~= seq![payload]);
}

/// Payloads queued one behind the other decode to the same payloads in the
/// same order, whatever follows them on the wire.
pub proof fn lemma_round_trip_all(frames: Seq<Seq<u8>>, rest: Seq<u8>)
    requires
        forall|i: int| 0 <= i < frames.len() ==> (#[trigger] frames[i]).len() <= MAX_PAYLOAD,
    ensures
        decoded(encoded_all(frames) + rest) == frames + decoded(rest),
        residual(encoded_all(frames) + rest) == residual(rest),
    decreases frames.len(),
{
    if frames.len() == 0 {
        assert(encoded_all(frames) + rest =~= rest);
        assert(frames + decoded(rest) =~= decoded(rest));
    } else {
        let tail = frames.skip(1);
        assert forall|i: int| 0 <= i < tail.len() implies (#[trigger] tail[i]).len()
            <= MAX_PAYLOAD by {
            assert(tail[i] == frames[i + 1]);
        }
        lemma_round_trip_all(tail, rest);
        lemma_encode_then_decode(frames[0], encoded_all(tail) + rest);
        assert(encoded_all(frames) + rest =~= encoded(frames[0]) + (encoded_all(tail) + rest));
        assert(seq![frames[0]] + (tail + decoded(rest)) =~= frames + decoded(rest));
    }
}

/// Appending one more payload to a run of frames appends its wire form.
pub proof fn lemma_encoded_all_push(frames: Seq<Seq<u8>>, payload: Seq<u8>)
    ensures
        encoded_all(frames.push(payload)) == encoded_all(frames) + encoded(payload),
    decreases frames.len(),
{
    if frames.len() == 0 {
        assert(frames.push(payload).skip(1) =~= Seq::<Seq<u8>>::empty());
        assert(encoded_all(frames.push(payload).skip(1)) =~= Seq::<u8>::empty());
        assert(frames.push(payload)[0] == payload);
        assert(encoded_all(frames.push(payload)) =~= encoded(payload) + Seq::<u8>::empty());
        assert(encoded_all(frames) + encoded(payload) =~= encoded(payload));
        assert(encoded(payload) + Seq::<u8>::empty() =~= encoded(payload));
    } else {
        lemma_encoded_all_push(frames.skip(1), payload);
        assert(frames.push(payload).skip(1) =~= frames.skip(1).push(payload));
        assert(frames.push(payload)[0] == frames[0]);
        assert(encoded(frames[0]) + (encoded_all(frames.skip(1)) + encoded(payload)) =~= (encoded(
            frames[0],
        ) + encoded_all(frames.skip(1))) + encoded(payload));
    }
}

/// Bytes that arrive in two pieces decode as they would in one: the frames
/// of the first piece, then the frames of what the first piece left over
/// followed by the second. No frame comes out before its last byte is in, and
/// none is lost at the seam.
pub proof fn lemma_decode_in_pieces(first: Seq<u8>, second: Seq<u8>)
    ensures
        decoded(first + second) == decoded(first) + decoded(residual(first) + second),
        residual(first + second) == residual(residual(first) + second),
    decreases first.len(),
{
    let whole = first + second;
    if has_frame(first) {
        assert(whole[0] == first[0]);
        assert(whole[1] == first[1]);
        assert(announced(whole) == announced(first));
        assert(has_frame(whole));
        assert(first_payload(whole) =~= first_payload(first));
        assert(after_first(whole) =~= after_first(first) + second);
        lemma_decode_in_pieces(after_first(first), second);
        assert(decoded(whole) =~= decoded(first) + decoded(residual(first) + second));
    } else {
        assert(decoded(first) + decoded(first + second) =~= decoded(first + second));
    }
}

/// Appends the wire form of `payload` to `out`, or refuses a payload that no
/// header can announce and leaves `out` alone.
pub fn encode(payload: &[u8], out: &mut BytesMut) -> (r: Result<(), FrameError>)
    requires
        payload@.len() <= MAX_PAYLOAD ==> buffer_bytes(*old(out)).len() + HEADER_LEN
            + payload@.len() <= isize::MAX,
    ensures
        match r {
            Ok(_) => {
                &&& payload@.len() <= MAX_PAYLOAD
                &&& buffer_bytes(*final(out)) == buffer_bytes(*old(out)) + encoded(payload@)
            },
            Err(e) => {
                &&& payload@.len() > MAX_PAYLOAD
                &&& e is MessageTooLarge
                &&& *final(out) == *old(out)
            },
        },
{
    let len: usize = payload.len();
    if len > MAX_PAYLOAD {
        return Err(FrameError::MessageTooLarge);
    }
    let head: [u8; 2] = [(len % 256) as u8, (len / 256) as u8];
    out.extend_from_slice(&head);
    out.extend_from_slice(payload);
    proof {
        assert(head@ =~= header(len as nat));
        assert(buffer_bytes(*out) =~= buffer_bytes(*old(out)) + encoded(payload@));
    }
    Ok(())
}

/// Splits every whole frame off the front of `buf`, in wire order, and leaves
/// in `buf` the bytes of the frame that is still incomplete. The payloads are
/// handed out as slices of the buffer's storage.
pub fn decode(buf: &mut BytesMut) -> (frames: Vec<Bytes>)
    ensures
        payloads(frames@) == decoded(buffer_bytes(*old(buf))),
        buffer_bytes(*final(buf)) == residual(buffer_bytes(*old(buf))),
{
    let mut frames: Vec<Bytes> = Vec::new();
    loop
        invariant
            decoded(buffer_bytes(*old(buf))) == payloads(frames@) + decoded(buffer_bytes(*buf)),
            residual(buffer_bytes(*old(buf))) == residual(buffer_bytes(*buf)),
        ensures
            payloads(frames@) == decoded(buffer_bytes(*old(buf))),
            buffer_bytes(*buf) == residual(buffer_bytes(*old(buf))),
        decreases buffer_bytes(*buf).len(),
    {
        let ghost wire = buffer_bytes(*buf);
        let ghost before = frames@;
        if buf.len() < HEADER_LEN {
            break;
        }
        let bytes = buffer_slice(buf);
        let size: usize = bytes[0] as usize + 256 * (bytes[1] as usize);
        if size > buf.len() - HEADER_LEN {
            break;
        }
        buf.advance(HEADER_LEN);
        let frame = buf.split_to(size).freeze();
        frames.push(frame);
        proof {
            assert(frame_bytes(frame) =~= first_payload(wire));
            assert(buffer_bytes(*buf) =~= after_first(wire));
            assert(payloads(frames@) =~= payloads(before) + seq![first_payload(wire)]);
        }
    }
    frames
}

} // verus!
