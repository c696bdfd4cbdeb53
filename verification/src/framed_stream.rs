//! One framed connection: what has arrived but is not yet a whole frame, what
//! is queued but not yet sent, and the readiness it wants to hear of.

use crate::buffer::{buffer_bytes, buffer_slice, max_buffer};
use crate::drain::{terminal, ReadEnd};
use crate::codec::{
    announced, decode, decoded, encode, encoded, encoded_all, has_frame,
    lemma_decode_in_pieces, lemma_decode_then_encode, lemma_encoded_all_push,
    lemma_incomplete_is_short,
    lemma_residual_is_incomplete, lemma_round_trip_all, payloads, residual, HEADER_LEN,
    MAX_FRAME, MAX_PAYLOAD,
};
use crate::error::FrameError;
use crate::ready::Ready;
use crate::stream::{is_would_block, Stream};
use bytes::{Bytes, BytesMut};
use std::io::Error;
use vstd::prelude::*;
use vstd::slice::slice_subrange;

verus! {

/// The room that each buffer of a new stream is made with.
pub const INITIAL_CAPACITY: usize = 8192;

/// Free room in the read buffer below which more is reserved.
pub const LOW_WATER: usize = 1024;

/// How much is reserved when the read buffer runs low.
pub const GROWTH: usize = 4096;

/// Where a stream stands in its life.
#[derive(Clone, Copy, Debug, PartialEq, Eq, Structural)]
pub enum StreamState {
    /// In use.
    Open,
    /// Past a terminal read or write condition, or closed on request; the
    /// reactor removes it.
    Closing,
}

/// The bytes still missing from the frame that `pending` has begun, or 0
/// where it holds no header yet.
pub open spec fn missing(pending: Seq<u8>) -> nat {
    if pending.len() >= 2 && announced(pending) + 2 > pending.len() {
        (announced(pending) + 2 - pending.len()) as nat
    } else {
        0
    }
}

/// How much room the read buffer reserves before the next bytes arrive: the
/// fixed growth step where less than the low-water mark is free, and at least
/// what the announced frame still lacks where that does not fit.
pub open spec fn growth(pending: Seq<u8>, capacity: nat) -> nat {
    let free = if capacity >= pending.len() {
        (capacity - pending.len()) as nat
    } else {
        0
    };
    let step = if free < LOW_WATER {
        GROWTH as nat
    } else {
        0
    };
    let need = if missing(pending) > free {
        missing(pending)
    } else {
        0
    };
    if step >= need {
        step
    } else {
        need
    }
}

/// The growth policy of the read buffer, as a function of what it holds and
/// of the room it has.
pub fn read_growth(pending: &[u8], capacity: usize) -> (n: usize)
    ensures
        n == growth(pending@, capacity as nat),
        n <= MAX_FRAME,
{
    let len: usize = pending.len();
    let free: usize = if capacity >= len {
        capacity - len
    } else {
        0
    };
    let step: usize = if free < LOW_WATER {
        GROWTH
    } else {
        0
    };
    let mut need: usize = 0;
    if len >= HEADER_LEN {
        let size: usize = pending[0] as usize + 256 * (pending[1] as usize);
        if size + HEADER_LEN > len {
            let lack: usize = size + HEADER_LEN - len;
            if lack > free {
                need = lack;
            }
        }
    }
    if step >= need {
        step
    } else {
        need
    }
}

/// What a framed stream amounts to: the model that contracts speak of.
#[verifier::ext_equal]
pub struct StreamView {
    /// The bytes that have arrived and belong to a frame not yet complete.
    pub unread: Seq<u8>,
    /// The bytes that are queued and not yet taken by the socket.
    pub unsent: Seq<u8>,
    /// The bytes that have left the queue, first to last: with each write,
    /// as many of the leading bytes offered as the socket said it took.
    pub wire: Seq<u8>,
    /// The readiness that the stream wants to be told about.
    pub interest: Ready,
    /// Where the stream stands in its life.
    pub state: StreamState,
}

impl StreamView {
    /// What holds of every stream between calls: it always wants to read, it
    /// wants to write exactly while bytes are queued, and no whole frame lies
    /// undelivered in its read buffer.
    pub open spec fn wf(self) -> bool {
        &&& self.interest.readable
        &&& self.interest.writable <==> self.unsent.len() > 0
        &&& !has_frame(self.unread)
    }

    /// Whether a payload of `len` bytes can be queued without the queue
    /// growing past what a buffer may hold.
    pub open spec fn has_room(self, len: nat) -> bool {
        self.unsent.len() + HEADER_LEN + len <= isize::MAX
    }

    /// A stream with nothing buffered, interested in reading only.
    pub open spec fn fresh() -> StreamView {
        StreamView {
            unread: Seq::empty(),
            unsent: Seq::empty(),
            wire: Seq::empty(),
            interest: Ready { readable: true, writable: false },
            state: StreamState::Open,
        }
    }

    /// The stream after one more payload was queued.
    pub open spec fn queue(self, payload: Seq<u8>) -> StreamView {
        StreamView {
            unsent: self.unsent + encoded(payload),
            interest: Ready { readable: true, writable: true },
            ..self
        }
    }

    /// The stream after a run of payloads was queued, one after the other.
    pub open spec fn queue_all(self, payloads: Seq<Seq<u8>>) -> StreamView
        decreases payloads.len(),
    {
        if payloads.len() == 0 {
            self
        } else {
            self.queue_all(payloads.drop_last()).queue(payloads.last())
        }
    }

    /// The stream after the socket took the first `n` queued bytes.
    pub open spec fn sent(self, n: int) -> StreamView {
        StreamView {
            unsent: self.unsent.skip(n),
            wire: self.wire + self.unsent.take(n),
            interest: Ready { readable: true, writable: self.unsent.len() > n },
            ..self
        }
    }

    /// The stream after `data` arrived and every whole frame was handed out.
    pub open spec fn received(self, data: Seq<u8>) -> StreamView {
        StreamView { unread: residual(self.unread + data), ..self }
    }

    /// The stream past a terminal condition or a request to close.
    pub open spec fn closing(self) -> StreamView {
        StreamView { state: StreamState::Closing, ..self }
    }
}

/// A framed connection's buffers and interest. The socket itself stays with
/// the caller, who hands over what it read and lends it for writing.
pub struct FramedStream {
    read_buf: BytesMut,
    write_buf: BytesMut,
    interest: Ready,
    state: StreamState,
    wire: Ghost<Seq<u8>>,
}

impl View for FramedStream {
    type V = StreamView;

    closed spec fn view(&self) -> StreamView {
        StreamView {
            unread: buffer_bytes(self.read_buf),
            unsent: buffer_bytes(self.write_buf),
            wire: self.wire@,
            interest: self.interest,
            state: self.state,
        }
    }
}

impl FramedStream {
    /// A stream with nothing buffered, interested in reading only.
    pub fn new() -> (s: Self)
        ensures
            s@ == StreamView::fresh(),
            s@.wf(),
    {
        FramedStream {
            read_buf: BytesMut::with_capacity(INITIAL_CAPACITY),
            write_buf: BytesMut::with_capacity(INITIAL_CAPACITY),
            interest: Ready::readable(),
            state: StreamState::Open,
            wire: Ghost(Seq::empty()),
        }
    }

    /// The readiness that the stream wants to be told about: readable always,
    /// writable exactly while bytes are queued.
    pub fn interest(&self) -> (r: Ready)
        ensures
            r == self@.interest,
    {
        self.interest
    }

    /// Where the stream stands in its life.
    pub fn state(&self) -> (s: StreamState)
        ensures
            s == self@.state,
    {
        self.state
    }

    /// The number of queued bytes that the socket has not taken yet.
    pub fn pending(&self) -> (n: usize)
        ensures
            n == self@.unsent.len(),
    {
        self.write_buf.len()
    }

    /// Whether a payload of `len` bytes can be queued without the queue
    /// growing past what a buffer may hold.
    pub fn can_queue(&self, len: usize) -> (b: bool)
        ensures
            b == self@.has_room(len as nat),
    {
        let held: usize = self.write_buf.len();
        let limit: usize = max_buffer() - HEADER_LEN;
        held <= limit && len <= limit - held
    }

    /// Makes room in the read buffer as the growth policy says. What the
    /// stream holds stays as it is.
    fn ensure_read_buf_capacity(&mut self)
        requires
            old(self)@.unread.len() <= MAX_FRAME,
        ensures
            final(self)@ == old(self)@,
    {
        let capacity: usize = self.read_buf.capacity();
        let more: usize = read_growth(buffer_slice(&self.read_buf), capacity);
        if more > 0 {
            self.read_buf.reserve(more);
        }
    }

    /// Takes in the bytes that one drain of the socket gave, and the way the
    /// drain ended. Every frame that is now complete is returned, in wire
    /// order, also when the drain ended on a terminal condition, which is
    /// returned beside the frames. The bytes of a frame still incomplete stay
    /// buffered for the next call.
    pub fn read_frames(&mut self, data: &[u8], end: ReadEnd) -> (r: (
        Vec<Bytes>,
        Option<FrameError>,
    ))
        requires
            old(self)@.wf(),
        ensures
            payloads(r.0@) == decoded(old(self)@.unread + data@),
            forall|i: int|
                0 <= i < r.0@.len() ==> (#[trigger] payloads(r.0@)[i]).len() <= MAX_PAYLOAD,
            encoded_all(payloads(r.0@)) + final(self)@.unread == old(self)@.unread + data@,
            r.1 == terminal(end),
            final(self)@ == if r.1 is Some {
                old(self)@.received(data@).closing()
            } else {
                old(self)@.received(data@)
            },
            final(self)@.wf(),
    {
        let mut frames: Vec<Bytes> = Vec::new();
        let limit: usize = max_buffer() - MAX_FRAME;
        let mut at: usize = 0;
        proof {
            assert(old(self)@.unread + data@.take(0) =~= old(self)@.unread);
            assert(payloads(frames@) =~= decoded(old(self)@.unread));
        }
        while at < data.len()
            invariant
                at <= data@.len(),
                limit == isize::MAX - MAX_FRAME,
                !has_frame(self@.unread),
                payloads(frames@) == decoded(old(self)@.unread + data@.take(at as int)),
                self@.unread == residual(old(self)@.unread + data@.take(at as int)),
                self@.unsent == old(self)@.unsent,
                self@.wire == old(self)@.wire,
                self@.interest == old(self)@.interest,
                self@.state == old(self)@.state,
            decreases data@.len() - at,
        {
            let left: usize = data.len() - at;
            let step: usize = if left > limit {
                limit
            } else {
                left
            };
            let piece = slice_subrange(data, at, at + step);
            let ghost sofar = old(self)@.unread + data@.take(at as int);
            let ghost before = frames@;
            proof {
                lemma_incomplete_is_short(self@.unread);
                lemma_decode_in_pieces(sofar, piece@);
                lemma_residual_is_incomplete(sofar + piece@);
                assert(sofar + piece@ =~= old(self)@.unread + data@.take(at + step));
            }
            self.ensure_read_buf_capacity();
            self.read_buf.extend_from_slice(piece);
            let mut more = decode(&mut self.read_buf);
            frames.append(&mut more);
            proof {
                assert(payloads(frames@) =~= payloads(before) + decoded(residual(sofar) + piece@));
            }
            at = at + step;
        }
        proof {
            assert(data@.take(data@.len() as int) =~= data@);
            lemma_decode_then_encode(old(self)@.unread + data@);
        }
        let err = match end {
            ReadEnd::Drained => None,
            ReadEnd::Closed => Some(FrameError::PeerClosed),
            ReadEnd::Failed(e) => Some(FrameError::Read(e)),
        };
        if err.is_some() {
            self.state = StreamState::Closing;
        }
        (frames, err)
    }

    /// Queues one payload behind what is already queued: its header, then its
    /// bytes. A payload that no header can announce is refused and nothing
    /// changes. `Ok(true)` says that the stream did not want to write before
    /// and does now, so that the caller registers the new interest with its
    /// poller; `Ok(false)` says that the interest is as it was.
    pub fn queue_write(&mut self, payload: &[u8]) -> (r: Result<bool, FrameError>)
        requires
            old(self)@.wf(),
            payload@.len() <= MAX_PAYLOAD ==> old(self)@.has_room(payload@.len()),
        ensures
            match r {
                Ok(changed) => {
                    &&& payload@.len() <= MAX_PAYLOAD
                    &&& changed == !old(self)@.interest.writable
                    &&& final(self)@ == old(self)@.queue(payload@)
                },
                Err(e) => {
                    &&& payload@.len() > MAX_PAYLOAD
                    &&& e is MessageTooLarge
                    &&& final(self)@ == old(self)@
                },
            },
            final(self)@.wf(),
    {
        match encode(payload, &mut self.write_buf) {
            Err(e) => Err(e),
            Ok(()) => {
                if !self.interest.is_writable() {
                    self.interest.insert(Ready::writable());
                    Ok(true)
                } else {
                    Ok(false)
                }
            },
        }
    }

    /// Takes in the result of offering all queued bytes to the socket once.
    /// Bytes that the socket took leave the queue, and with the last of them
    /// the wish to write. `Ok(true)` says that bytes were taken and more are
    /// queued, so that writing goes on; `Ok(false)` that it stops for now:
    /// the socket would block or took nothing, or the queue is empty. A
    /// failure that is not transient ends the stream.
    pub fn wrote(&mut self, res: Result<Option<usize>, Error>) -> (r: Result<bool, FrameError>)
        requires
            old(self)@.wf(),
            res matches Ok(Some(n)) ==> n <= old(self)@.unsent.len(),
        ensures
            match res {
                Ok(Some(n)) => {
                    &&& r matches Ok(more)
                    &&& more == (0 < n < old(self)@.unsent.len())
                    &&& final(self)@ == old(self)@.sent(n as int)
                },
                Ok(None) => {
                    &&& r matches Ok(more)
                    &&& !more
                    &&& final(self)@ == old(self)@
                },
                Err(e) => {
                    &&& r matches Err(FrameError::Write(cause))
                    &&& cause == e
                    &&& final(self)@ == old(self)@.closing()
                },
            },
            final(self)@.wf(),
    {
        match res {
            Ok(Some(n)) => {
                self.wire = Ghost(self.wire@ + buffer_bytes(self.write_buf).take(n as int));
                self.write_buf.advance(n);
                let left: usize = self.write_buf.len();
                if left == 0 {
                    self.interest.remove(Ready::writable());
                }
                Ok(n > 0 && left > 0)
            },
            Ok(None) => Ok(false),
            Err(e) => {
                self.state = StreamState::Closing;
                Err(FrameError::Write(e))
            },
        }
    }

    /// Offers the queued bytes to the socket until all are taken, the socket
    /// would block or takes nothing, and returns how many it took. The bytes
    /// taken are the first of the queue, and the rest stays queued in order.
    /// A failure that is not transient ends the stream, with the bytes still
    /// queued that the socket had not taken.
    pub fn handle_write<S: Stream>(&mut self, io: &mut S) -> (r: Result<usize, FrameError>)
        requires
            old(self)@.wf(),
        ensures
            match r {
                Ok(n) => {
                    &&& n <= old(self)@.unsent.len()
                    &&& final(self)@ == old(self)@.sent(n as int)
                },
                Err(e) => {
                    &&& e matches FrameError::Write(cause)
                    &&& !is_would_block(cause)
                    &&& exists|k: int|
                        {
                            &&& 0 <= k < old(self)@.unsent.len()
                            &&& final(self)@ == old(self)@.sent(k).closing()
                        }
                },
            },
            final(self)@.wf(),
    {
        let mut count: usize = 0;
        let mut more: bool = self.write_buf.len() > 0;
        proof {
            assert(old(self)@.sent(0) =~= old(self)@) by {
                assert(old(self)@.unsent.skip(0) =~= old(self)@.unsent);
                assert(old(self)@.wire + old(self)@.unsent.take(0) =~= old(self)@.wire);
            }
        }
        while more
            invariant
                self@.wf(),
                count <= old(self)@.unsent.len() <= usize::MAX,
                self@ == old(self)@.sent(count as int),
                more ==> self@.unsent.len() > 0,
            decreases self@.unsent.len(), more as int,
        {
            let res = io.try_write(buffer_slice(&self.write_buf));
            let taken: usize = match &res {
                Ok(Some(n)) => *n,
                _ => 0,
            };
            proof {
                lemma_resumed_write(old(self)@.unsent, count as int, taken as int);
            }
            match self.wrote(res) {
                Ok(go_on) => {
                    more = go_on;
                },
                Err(e) => {
                    return Err(e);
                },
            }
            count = count + taken;
        }
        Ok(count)
    }

    /// Ends the stream on request. What is buffered stays as it is until the
    /// stream is dropped.
    pub fn close(&mut self)
        ensures
            final(self)@ == old(self)@.closing(),
    {
        self.state = StreamState::Closing;
    }
}

/// Payloads that are queued one after the other stand in the queue in that
/// order, behind what was queued before, and decode as the same payloads in
/// the same order.
pub proof fn lemma_queue_keeps_order(s: StreamView, payloads: Seq<Seq<u8>>)
    requires
        forall|i: int| 0 <= i < payloads.len() ==> (#[trigger] payloads[i]).len() <= MAX_PAYLOAD,
    ensures
        s.queue_all(payloads).unsent == s.unsent + encoded_all(payloads),
        s.queue_all(payloads).unread == s.unread,
        s.queue_all(payloads).wire == s.wire,
        s.queue_all(payloads).state == s.state,
        decoded(encoded_all(payloads)) == payloads,
        residual(encoded_all(payloads)) == Seq::<u8>::empty(),
    decreases payloads.len(),
{
    assert(decoded(encoded_all(payloads)) == payloads && residual(encoded_all(payloads))
        == Seq::<u8>::empty()) by {
        let none = Seq::<u8>::empty();
        lemma_round_trip_all(payloads, none);
        assert(!has_frame(none));
        assert(encoded_all(payloads) + none =~= encoded_all(payloads));
        assert(payloads + decoded(none) =~= payloads);
    }
    if payloads.len() == 0 {
        assert(s.unsent + encoded_all(payloads) =~= s.unsent);
    } else {
        let front = payloads.drop_last();
        let last = payloads.last();
        assert forall|i: int| 0 <= i < front.len() implies (#[trigger] front[i]).len()
            <= MAX_PAYLOAD by {
            assert(front[i] == payloads[i]);
        }
        lemma_queue_keeps_order(s, front);
        let mid = s.queue_all(front);
        assert(s.queue_all(payloads) == mid.queue(last));
        assert(encoded_all(payloads) == encoded_all(front) + encoded(last)) by {
            lemma_encoded_all_push(front, last);
            assert(front.push(last) =~= payloads);
        }
        assert(mid.unsent + encoded(last) =~= s.unsent + (encoded_all(front) + encoded(last)));
    }
}

/// One thing that happens to a stream's queue.
pub enum QueueStep {
    /// This payload is queued.
    Queue(Seq<u8>),
    /// The socket takes this many of the leading bytes.
    Sent(nat),
}

impl StreamView {
    /// Whether the step can happen to the stream: the payload fits a frame,
    /// or the socket takes no more than is queued.
    pub open spec fn permits(self, step: QueueStep) -> bool {
        match step {
            QueueStep::Queue(payload) => payload.len() <= MAX_PAYLOAD,
            QueueStep::Sent(n) => n <= self.unsent.len(),
        }
    }

    /// The stream after the step.
    pub open spec fn after(self, step: QueueStep) -> StreamView {
        match step {
            QueueStep::Queue(payload) => self.queue(payload),
            QueueStep::Sent(n) => self.sent(n as int),
        }
    }

    /// The stream after a run of steps, each taken in turn.
    pub open spec fn after_all(self, steps: Seq<QueueStep>) -> StreamView
        decreases steps.len(),
    {
        if steps.len() == 0 {
            self
        } else {
            self.after_all(steps.drop_last()).after(steps.last())
        }
    }

    /// Whether each step of the run can happen where it stands.
    pub open spec fn permits_all(self, steps: Seq<QueueStep>) -> bool
        decreases steps.len(),
    {
        steps.len() == 0 || {
            let front = steps.drop_last();
            self.permits_all(front) && self.after_all(front).permits(steps.last())
        }
    }
}

/// The payloads that a run of steps queues, in their order.
pub open spec fn queued_by(steps: Seq<QueueStep>) -> Seq<Seq<u8>>
    decreases steps.len(),
{
    if steps.len() == 0 {
        Seq::empty()
    } else {
        match steps.last() {
            QueueStep::Queue(payload) => queued_by(steps.drop_last()).push(payload),
            QueueStep::Sent(_) => queued_by(steps.drop_last()),
        }
    }
}

/// Payloads go out in the order in which they were queued, however the
/// socket cuts its writes: after any run of queueing and writing, the bytes
/// that have left the queue, followed by those still in it, are what they
/// were before, followed by the wire forms of the queued payloads in the
/// order of the calls. A write that takes part of the queue and a later one
/// that takes the rest put the same bytes on the wire as one write of all.
pub proof fn lemma_wire_keeps_queue_order(s: StreamView, steps: Seq<QueueStep>)
    requires
        s.permits_all(steps),
    ensures
        ({
            let now = s.after_all(steps);
            &&& now.wire + now.unsent == s.wire + s.unsent + encoded_all(queued_by(steps))
            &&& now.unread == s.unread
        }),
    decreases steps.len(),
{
    if steps.len() == 0 {
        assert(s.wire + s.unsent + encoded_all(queued_by(steps)) =~= s.wire + s.unsent);
    } else {
        let front = steps.drop_last();
        let mid = s.after_all(front);
        lemma_wire_keeps_queue_order(s, front);
        match steps.last() {
            QueueStep::Queue(payload) => {
                lemma_encoded_all_push(queued_by(front), payload);
                assert(mid.wire + (mid.unsent + encoded(payload)) =~= (mid.wire + mid.unsent)
                    + encoded(payload));
                assert(s.wire + s.unsent + encoded_all(queued_by(front)) + encoded(payload)
                    =~= s.wire + s.unsent + (encoded_all(queued_by(front)) + encoded(payload)));
            },
            QueueStep::Sent(n) => {
                assert((mid.wire + mid.unsent.take(n as int)) + mid.unsent.skip(n as int)
                    =~= mid.wire + mid.unsent);
            },
        }
    }
}

/// Bytes taken in two writes are the bytes that one write of both counts
/// would have taken, and the same bytes stay queued behind them.
pub proof fn lemma_resumed_write(queued: Seq<u8>, first: int, second: int)
    requires
        0 <= first,
        0 <= second,
        first + second <= queued.len(),
    ensures
        queued.take(first) + queued.skip(first).take(second) == queued.take(first + second),
        queued.skip(first).skip(second) == queued.skip(first + second),
{
    assert(queued.take(first) + queued.skip(first).take(second) =~= queued.take(first + second));
    assert(queued.skip(first).skip(second) =~= queued.skip(first + second));
}

} // verus!
