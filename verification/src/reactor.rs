//! The reactor's decisions: which endpoint gets which identifier, what a
//! readiness event does to a connection, which callbacks fire and in what
//! order, and what the caller has to tell its poller.
//!
//! The reactor owns no socket and no poller. Its caller polls, accepts, reads
//! and registers, and hands each result to one of the functions below.

use crate::app::{App, SimpleApp};
use crate::channel::ControlMsg;
use crate::codec::{
    decoded, encoded_all, lemma_encoded_all_push, lemma_residual_is_incomplete, payloads,
    MAX_PAYLOAD,
};
use crate::context::{Context, WriteHandle};
use crate::drain::{terminal, Drain};
use crate::framed_stream::{lemma_queue_keeps_order, StreamView};
use crate::notice::{
    lemma_closed_is_final, lemma_live_push, lemma_orderly_push, live, orderly, Notice,
};
use crate::ready::Ready;
use crate::stream::Stream;
use crate::table::{least_free, Socket, SocketTable, SocketView};
use bytes::Bytes;
use mio_extras::channel::{channel, Receiver, Sender};
use vstd::prelude::*;

verus! {

/// The identifier of the control endpoint, which no listener or connection
/// ever gets.
pub const CONTROL_ID: usize = 0;

/// Whether the endpoint takes `payload` as a frame to send: it is a stream,
/// the payload fits a frame, and the queue stays within what a buffer may
/// hold.
pub open spec fn takes(endpoint: SocketView, payload: Seq<u8>) -> bool {
    endpoint matches SocketView::Stream(s) && payload.len() <= MAX_PAYLOAD && s.has_room(
        payload.len(),
    )
}

/// The table after `payload` was sent towards `id`: queued on that stream
/// where the endpoint takes it, and dropped without a trace where not.
pub open spec fn queued(table: Map<usize, SocketView>, id: usize, payload: Seq<u8>) -> Map<
    usize,
    SocketView,
> {
    if table.contains_key(id) && takes(table[id], payload) {
        table.insert(id, SocketView::Stream(table[id]->Stream_0.queue(payload)))
    } else {
        table
    }
}

/// The interest that the caller has to register after `payload` was sent
/// towards `id`: both kinds, where the stream took it and did not want to
/// write before; nothing otherwise.
pub open spec fn rearmed(table: Map<usize, SocketView>, id: usize, payload: Seq<u8>) -> Option<
    Ready,
> {
    if table.contains_key(id) && takes(table[id], payload)
        && !table[id]->Stream_0.interest.writable {
        Some(Ready { readable: true, writable: true })
    } else {
        None
    }
}

/// The request that a control message makes of the table.
pub open spec fn applied(table: Map<usize, SocketView>, msg: ControlMsg) -> Map<
    usize,
    SocketView,
> {
    match msg {
        ControlMsg::WriteFrame(id, payload) => queued(table, id, payload@),
    }
}

/// The table after a run of control messages, each applied in turn.
pub open spec fn applied_all(table: Map<usize, SocketView>, msgs: Seq<ControlMsg>) -> Map<
    usize,
    SocketView,
>
    decreases msgs.len(),
{
    if msgs.len() == 0 {
        table
    } else {
        applied(applied_all(table, msgs.drop_last()), msgs.last())
    }
}

/// The interests that the caller has to register after a run of control
/// messages: one for each message that made a stream want to write, in the
/// order of the messages.
pub open spec fn rearmed_all(table: Map<usize, SocketView>, msgs: Seq<ControlMsg>) -> Seq<
    (usize, Ready),
>
    decreases msgs.len(),
{
    if msgs.len() == 0 {
        Seq::empty()
    } else {
        let before = applied_all(table, msgs.drop_last());
        let sofar = rearmed_all(table, msgs.drop_last());
        match msgs.last() {
            ControlMsg::WriteFrame(id, payload) => match rearmed(before, id, payload@) {
                Some(interest) => sofar.push((id, interest)),
                None => sofar,
            },
        }
    }
}

/// The kinds of endpoint.
#[derive(Clone, Copy, Debug, PartialEq, Eq, Structural)]
pub enum SocketKind {
    /// A listener.
    Listen,
    /// A framed connection.
    Stream,
    /// The control endpoint.
    Control,
}

/// The kind of an endpoint's model.
pub open spec fn kind_of(endpoint: SocketView) -> SocketKind {
    match endpoint {
        SocketView::Listen => SocketKind::Listen,
        SocketView::Stream(_) => SocketKind::Stream,
        SocketView::Control => SocketKind::Control,
    }
}

/// What the caller has to do after a readiness event on a connection.
#[derive(Clone, Copy, Debug, PartialEq, Eq, Structural)]
pub struct Outcome {
    /// The connection is gone from the table: drop its socket.
    pub closed: bool,
    /// The connection wants another readiness than before: register it.
    pub rearm: Option<Ready>,
}

/// The frames that a readiness event completes on a stream.
pub open spec fn batch(s: StreamView, readable: Option<Drain>) -> Seq<Seq<u8>> {
    match readable {
        Some(drain) => decoded(s.unread + drain.data@),
        None => Seq::empty(),
    }
}

/// Whether the drain of a readiness event ended on a terminal condition.
pub open spec fn read_fatal(readable: Option<Drain>) -> bool {
    readable matches Some(drain) && terminal(drain.end) is Some
}

/// The stream after a readiness event in which the drained bytes, if any,
/// were taken in and the socket took the first `n` queued bytes.
pub open spec fn served(s: StreamView, readable: Option<Drain>, n: int) -> StreamView {
    match readable {
        Some(drain) => s.received(drain.data@).sent(n),
        None => s.sent(n),
    }
}

/// The interest to register after an event, where it is no longer what it was.
pub open spec fn changed(before: Ready, after: Ready) -> Option<Ready> {
    if before != after {
        Some(after)
    } else {
        None
    }
}

/// The notice of a batch of frames, or none where the batch is empty.
pub open spec fn frames_notice(id: usize, batch: Seq<Seq<u8>>) -> Seq<Notice> {
    if batch.len() > 0 {
        seq![Notice::Frames(id, batch)]
    } else {
        Seq::empty()
    }
}

/// The notice of a closure, or none.
pub open spec fn closed_notice(id: usize, closed: bool) -> Seq<Notice> {
    if closed {
        seq![Notice::Closed(id)]
    } else {
        Seq::empty()
    }
}

/// The reactor: the application, the socket table and the registry that
/// callbacks see.
pub struct Core<A: App> {
    app: A,
    table: SocketTable,
    ctx: Context,
    control_tx: Sender<ControlMsg>,
    told: Ghost<Seq<Notice>>,
}

impl<A: App> Core<A> {
    /// The socket table: each endpoint's model under its identifier.
    pub closed spec fn endpoints(&self) -> Map<usize, SocketView> {
        self.table@
    }

    /// The identifiers of the live connections, as callbacks see them.
    pub closed spec fn connections(&self) -> Set<usize> {
        self.ctx.connections()
    }

    /// The identifiers of the active listeners, as callbacks see them.
    pub closed spec fn listeners(&self) -> Set<usize> {
        self.ctx.listeners()
    }

    /// Everything that the application was told so far, first to last.
    pub closed spec fn notices(&self) -> Seq<Notice> {
        self.told@
    }

    /// What holds of one identifier between calls: only the control
    /// identifier names the control endpoint, a stream is sound and open, the
    /// registry lists the identifier exactly where the table holds a stream
    /// or a listener under it, and the application knows the identifier as
    /// live exactly where the table holds such an endpoint.
    pub open spec fn sound_at(&self, id: usize) -> bool {
        let here = self.endpoints().contains_key(id);
        let entry = self.endpoints()[id];
        &&& here ==> (entry is Control <==> id == CONTROL_ID)
        &&& here ==> (entry matches SocketView::Stream(s) ==> s.wf() && s.state is Open)
        &&& self.connections().contains(id) <==> here && entry is Stream
        &&& self.listeners().contains(id) <==> here && entry is Listen
        &&& live(self.notices(), id) <==> here && id != CONTROL_ID
    }

    /// What holds of the reactor between calls: the control endpoint is in
    /// the table, what the application was told is orderly, and every
    /// identifier is sound.
    pub open spec fn wf(&self) -> bool {
        &&& self.endpoints().contains_key(CONTROL_ID)
        &&& orderly(self.notices())
        &&& forall|id: usize| #[trigger] self.sound_at(id)
    }

    /// A reactor stays sound when it takes in one endpoint: a listener or a
    /// sound, open stream goes under an identifier that was free, the
    /// registry lists it as what it is, and the notice that opens the
    /// identifier is the one thing told.
    proof fn lemma_opened(before: Self, after: Self, id: usize, notice: Notice)
        requires
            before.wf(),
            !before.endpoints().contains_key(id),
            after.endpoints().contains_key(id),
            after.endpoints() == before.endpoints().insert(id, after.endpoints()[id]),
            match after.endpoints()[id] {
                SocketView::Listen => {
                    &&& after.listeners() == before.listeners().insert(id)
                    &&& after.connections() == before.connections()
                },
                SocketView::Stream(s) => {
                    &&& s.wf()
                    &&& s.state is Open
                    &&& after.connections() == before.connections().insert(id)
                    &&& after.listeners() == before.listeners()
                },
                SocketView::Control => false,
            },
            notice.opens(id),
            notice matches Notice::Accepted(listener, _) ==> before.listeners().contains(listener),
            after.notices() == before.notices().push(notice),
        ensures
            after.wf(),
    {
        let told = before.notices();
        assert(before.sound_at(id));
        if let Notice::Accepted(listener, _) = notice {
            assert(before.sound_at(listener));
        }
        lemma_orderly_push(told, notice);
        assert forall|i: usize| #[trigger] after.sound_at(i) by {
            assert(before.sound_at(i));
            lemma_live_push(told, notice, i);
        }
    }

    /// A reactor that holds the control endpoint and nothing else, and the
    /// receiving end of its control channel, which the caller registers with
    /// its poller under `CONTROL_ID`.
    pub fn new(app: A) -> (r: (Self, Receiver<ControlMsg>))
        ensures
            r.0.wf(),
            r.0.endpoints() == (Map::<usize, SocketView>::empty().insert(
                CONTROL_ID,
                SocketView::Control,
            )),
            r.0.connections() == Set::<usize>::empty(),
            r.0.listeners() == Set::<usize>::empty(),
            r.0.notices() == Seq::<Notice>::empty(),
    {
        let mut table = SocketTable::new();
        let (control_tx, control_rx) = channel();
        let ctx = Context::new(control_tx.clone());
        let id = Socket::Control.save(&mut table);
        proof {
            if id != CONTROL_ID {
                assert(Map::<usize, SocketView>::empty().contains_key(CONTROL_ID));
            }
        }
        let core = Core { app, table, ctx, control_tx, told: Ghost(Seq::empty()) };
        (core, control_rx)
    }

    /// The identifier that the next endpoint will get: the smallest one that
    /// is free. The caller registers a new socket with its poller under this
    /// identifier before it hands the endpoint in.
    pub fn vacant_key(&self) -> (id: usize)
        ensures
            least_free(self.endpoints(), id),
    {
        self.table.vacant_key()
    }

    /// Takes in a listener that the caller has bound and registered: it gets
    /// the smallest free identifier, the registry lists it, and the
    /// application is told.
    pub fn listen(&mut self) -> (id: usize)
        requires
            old(self).wf(),
        ensures
            final(self).wf(),
            least_free(old(self).endpoints(), id),
            final(self).endpoints() == old(self).endpoints().insert(id, SocketView::Listen),
            final(self).listeners() == old(self).listeners().insert(id),
            final(self).connections() == old(self).connections(),
            final(self).notices() == old(self).notices().push(Notice::Listening(id)),
    {
        let id = Socket::Listen.save(&mut self.table);
        self.ctx.listening(id);
        self.told = Ghost(self.told@.push(Notice::Listening(id)));
        self.app.handle_listen(&self.ctx, id);
        proof {
            Self::lemma_opened(*old(self), *self, id, Notice::Listening(id));
        }
        id
    }

    /// Queues `payload` as one frame on the connection `id`. Where `id` names
    /// no connection, or the payload is too long for a frame, nothing happens
    /// and nothing is reported. The result is the interest that the caller
    /// has to register with its poller, if the stream's interest changed.
    pub fn write_frame(&mut self, id: usize, payload: &[u8]) -> (r: Option<Ready>)
        requires
            old(self).wf(),
        ensures
            final(self).wf(),
            final(self).endpoints() == queued(old(self).endpoints(), id, payload@),
            r == rearmed(old(self).endpoints(), id, payload@),
            final(self).connections() == old(self).connections(),
            final(self).listeners() == old(self).listeners(),
            final(self).notices() == old(self).notices(),
    {
        let mut rearm: Option<Ready> = None;
        proof {
            assert(self.sound_at(id));
        }
        match self.table.get_mut(id) {
            Some(Socket::Stream(stream)) => {
                if payload.len() <= MAX_PAYLOAD && stream.can_queue(payload.len()) {
                    match stream.queue_write(payload) {
                        Ok(changed) => {
                            if changed {
                                rearm = Some(stream.interest());
                            }
                        },
                        Err(_) => {},
                    }
                }
            },
            _ => {},
        }
        proof {
            assert(self.endpoints() =~= queued(old(self).endpoints(), id, payload@));
            assert forall|i: usize| #[trigger] self.sound_at(i) by {
                assert(old(self).sound_at(i));
            }
        }
        rearm
    }

    /// Takes in a connection that the caller has opened from this side and
    /// registered: it gets the smallest free identifier and a fresh stream,
    /// the registry lists it, and the application is told.
    pub fn connect(&mut self) -> (id: usize)
        requires
            old(self).wf(),
        ensures
            final(self).wf(),
            least_free(old(self).endpoints(), id),
            final(self).endpoints() == old(self).endpoints().insert(
                id,
                SocketView::Stream(StreamView::fresh()),
            ),
            final(self).connections() == old(self).connections().insert(id),
            final(self).listeners() == old(self).listeners(),
            final(self).notices() == old(self).notices().push(Notice::Connected(id)),
    {
        let id = Socket::framed_stream().save(&mut self.table);
        self.ctx.connected(id);
        self.told = Ghost(self.told@.push(Notice::Connected(id)));
        self.app.handle_connect(&self.ctx, id);
        proof {
            Self::lemma_opened(*old(self), *self, id, Notice::Connected(id));
        }
        id
    }

    /// Takes in a connection that the caller has accepted on `listener` and
    /// registered: it gets the smallest free identifier and a fresh stream,
    /// the registry lists it, and the application is told. Where `listener` does
    /// not name a listener, nothing happens and the caller drops the socket.
    pub fn accept(&mut self, listener: usize) -> (r: Option<usize>)
        requires
            old(self).wf(),
        ensures
            final(self).wf(),
            r is Some <==> old(self).listeners().contains(listener),
            match r {
                Some(id) => {
                    &&& least_free(old(self).endpoints(), id)
                    &&& final(self).endpoints() == old(self).endpoints().insert(
                        id,
                        SocketView::Stream(StreamView::fresh()),
                    )
                    &&& final(self).connections() == old(self).connections().insert(id)
                    &&& final(self).notices() == old(self).notices().push(
                        Notice::Accepted(listener, id),
                    )
                },
                None => {
                    &&& final(self).endpoints() == old(self).endpoints()
                    &&& final(self).connections() == old(self).connections()
                    &&& final(self).notices() == old(self).notices()
                },
            },
            final(self).listeners() == old(self).listeners(),
    {
        proof {
            assert(self.sound_at(listener));
        }
        match self.table.get(listener) {
            Some(Socket::Listen) => {},
            _ => {
                return None;
            },
        }
        let id = Socket::framed_stream().save(&mut self.table);
        self.ctx.accepted(id);
        self.told = Ghost(self.told@.push(Notice::Accepted(listener, id)));
        self.app.handle_accept(&self.ctx, listener, id);
        proof {
            Self::lemma_opened(*old(self), *self, id, Notice::Accepted(listener, id));
        }
        Some(id)
    }

    /// The kind of the endpoint under `id`, if there is one: what the caller
    /// needs to know to serve a readiness event.
    pub fn kind(&self, id: usize) -> (k: Option<SocketKind>)
        ensures
            k is Some <==> self.endpoints().contains_key(id),
            k matches Some(kind) ==> kind == kind_of(self.endpoints()[id]),
    {
        match self.table.get(id) {
            Some(Socket::Listen) => Some(SocketKind::Listen),
            Some(Socket::Stream(_)) => Some(SocketKind::Stream),
            Some(Socket::Control) => Some(SocketKind::Control),
            None => None,
        }
    }

    /// The readiness that the connection under `id` wants to be told about,
    /// if `id` names a connection.
    pub fn interest(&self, id: usize) -> (r: Option<Ready>)
        ensures
            match r {
                Some(interest) => {
                    &&& self.endpoints().contains_key(id)
                    &&& self.endpoints()[id] matches SocketView::Stream(s)
                    &&& s.interest == interest
                },
                None => !(self.endpoints().contains_key(id) && self.endpoints()[id] is Stream),
            },
    {
        match self.table.get(id) {
            Some(Socket::Stream(stream)) => Some(stream.interest()),
            _ => None,
        }
    }

    /// A handle that queues frames on connection `idx` from any thread,
    /// through the control channel.
    pub fn write_handle(&self, idx: usize) -> (h: WriteHandle)
        ensures
            h.target() == idx,
    {
        WriteHandle::new(idx, self.control_tx.clone())
    }

    /// Takes the endpoint under `id` out of the registry and the table, and
    /// then tells the application.
    fn remove(&mut self, id: usize)
        requires
            old(self).endpoints().contains_key(id),
            old(self).endpoints().contains_key(CONTROL_ID),
            id != CONTROL_ID,
            forall|i: usize| i != id ==> #[trigger] old(self).sound_at(i),
            old(self).connections().contains(id) <==> old(self).endpoints()[id] is Stream,
            old(self).listeners().contains(id) <==> old(self).endpoints()[id] is Listen,
            orderly(old(self).notices()),
            live(old(self).notices(), id),
        ensures
            final(self).wf(),
            final(self).endpoints() == old(self).endpoints().remove(id),
            final(self).connections() == old(self).connections().remove(id),
            final(self).listeners() == old(self).listeners().remove(id),
            final(self).notices() == old(self).notices().push(Notice::Closed(id)),
    {
        self.ctx.closed(id);
        let _ = self.table.remove(id);
        self.told = Ghost(self.told@.push(Notice::Closed(id)));
        self.app.handle_close(&self.ctx, id);
        proof {
            let before = old(self).notices();
            let notice = Notice::Closed(id);
            lemma_orderly_push(before, notice);
            assert(self.endpoints() =~= old(self).endpoints().remove(id));
            assert forall|i: usize| #[trigger] self.sound_at(i) by {
                lemma_live_push(before, notice, i);
                if i != id {
                    assert(old(self).sound_at(i));
                }
            }
        }
    }

    /// Closes the endpoint under `id` on request: it leaves the registry and
    /// the table, and the application is told. The control endpoint stays,
    /// and an identifier that names nothing is left alone. The result says
    /// whether an endpoint was closed, so that the caller drops its socket.
    pub fn close(&mut self, id: usize) -> (closed: bool)
        requires
            old(self).wf(),
        ensures
            final(self).wf(),
            closed == (old(self).endpoints().contains_key(id) && id != CONTROL_ID),
            closed ==> {
                &&& final(self).endpoints() == old(self).endpoints().remove(id)
                &&& final(self).connections() == old(self).connections().remove(id)
                &&& final(self).listeners() == old(self).listeners().remove(id)
                &&& final(self).notices() == old(self).notices().push(Notice::Closed(id))
            },
            !closed ==> {
                &&& final(self).endpoints() == old(self).endpoints()
                &&& final(self).connections() == old(self).connections()
                &&& final(self).listeners() == old(self).listeners()
                &&& final(self).notices() == old(self).notices()
            },
    {
        proof {
            assert(self.sound_at(id));
        }
        if id == CONTROL_ID {
            return false;
        }
        match self.table.get(id) {
            None => false,
            Some(_) => {
                self.remove(id);
                true
            },
        }
    }

    /// Serves a readiness event on the connection `id`. What the caller
    /// drained from the socket, if the socket was readable, is taken in, and
    /// the frames that it completes are handed to the application in one
    /// batch. Then, if the socket was writable, queued bytes are offered to
    /// it. A terminal condition on either side closes the connection: it
    /// leaves the registry and the table, and the application is told last.
    /// An identifier that names no connection is left alone.
    pub fn stream_ready<S: Stream>(
        &mut self,
        id: usize,
        readable: Option<Drain>,
        writable: bool,
        io: &mut S,
    ) -> (out: Outcome)
        requires
            old(self).wf(),
        ensures
            final(self).wf(),
            final(self).listeners() == old(self).listeners(),
            !old(self).connections().contains(id) ==> {
                &&& out == (Outcome { closed: false, rearm: None })
                &&& final(self).endpoints() == old(self).endpoints()
                &&& final(self).connections() == old(self).connections()
                &&& final(self).notices() == old(self).notices()
            },
            old(self).connections().contains(id) ==> {
                let s = old(self).endpoints()[id]->Stream_0;
                &&& read_fatal(readable) ==> out.closed
                &&& !writable ==> out.closed == read_fatal(readable)
                &&& final(self).notices() == old(self).notices() + frames_notice(
                    id,
                    batch(s, readable),
                ) + closed_notice(id, out.closed)
                &&& out.closed ==> {
                    &&& out.rearm is None
                    &&& final(self).endpoints() == old(self).endpoints().remove(id)
                    &&& final(self).connections() == old(self).connections().remove(id)
                }
                &&& !out.closed ==> {
                    &&& final(self).connections() == old(self).connections()
                    &&& exists|n: int|
                        {
                            &&& 0 <= n <= s.unsent.len()
                            &&& !writable ==> n == 0
                            &&& final(self).endpoints() == old(self).endpoints().insert(
                                id,
                                SocketView::Stream(served(s, readable, n)),
                            )
                            &&& out.rearm == changed(s.interest, served(s, readable, n).interest)
                        }
                }
            },
    {
        proof {
            assert(self.sound_at(id));
        }
        match self.table.get(id) {
            Some(Socket::Stream(_)) => {},
            _ => {
                return Outcome { closed: false, rearm: None };
            },
        }
        let ghost s = self.endpoints()[id]->Stream_0;
        let ghost got = batch(s, readable);
        let mut retain: bool = true;
        let mut rearm: Option<Ready> = None;
        let ghost mut mid: StreamView = s;
        if let Some(drain) = readable {
            let (frames, end) = match self.table.get_mut(id) {
                Some(Socket::Stream(stream)) => {
                    stream.read_frames(drain.data.as_slice(), drain.end)
                },
                _ => {
                    return Outcome { closed: false, rearm: None };
                },
            };
            proof {
                mid = s.received(drain.data@);
                lemma_residual_is_incomplete(s.unread + drain.data@);
            }
            if frames.len() > 0 {
                self.told = Ghost(self.told@.push(Notice::Frames(id, payloads(frames@))));
                self.app.handle_frames(&self.ctx, id, frames);
            }
            if end.is_some() {
                retain = false;
            }
        }
        let ghost log = old(self).notices();
        proof {
            let now = self.notices();
            assert(now =~= log + frames_notice(id, got));
            if got.len() > 0 {
                let notice = Notice::Frames(id, got);
                assert(now =~= log.push(notice));
                lemma_orderly_push(log, notice);
                assert forall|i: usize| live(now, i) == live(log, i) by {
                    lemma_live_push(log, notice, i);
                }
            } else {
                assert(now =~= log);
            }
        }
        let ghost mut n: int = 0;
        if writable {
            match self.table.get_mut(id) {
                Some(Socket::Stream(stream)) => {
                    let before = stream.interest();
                    match stream.handle_write(io) {
                        Ok(count) => {
                            proof {
                                n = count as int;
                            }
                        },
                        Err(_) => {
                            retain = false;
                        },
                    }
                    let after = stream.interest();
                    if before != after {
                        rearm = Some(after);
                    }
                },
                _ => {
                    return Outcome { closed: false, rearm: None };
                },
            }
        }
        if !retain {
            proof {
                assert forall|i: usize| i != id implies #[trigger] self.sound_at(i) by {
                    assert(old(self).sound_at(i));
                }
            }
            self.remove(id);
            proof {
                assert(self.notices() =~= old(self).notices() + frames_notice(id, got)
                    + closed_notice(id, true));
            }
            return Outcome { closed: true, rearm: None };
        }
        proof {
            assert(mid.sent(0) =~= mid) by {
                assert(mid.unsent.skip(0) =~= mid.unsent);
                assert(mid.wire + mid.unsent.take(0) =~= mid.wire);
            }
            assert(self.endpoints() =~= old(self).endpoints().insert(
                id,
                SocketView::Stream(served(s, readable, n)),
            ));
            assert(self.notices() =~= old(self).notices() + frames_notice(id, got)
                + closed_notice(id, false));
            assert forall|i: usize| #[trigger] self.sound_at(i) by {
                assert(old(self).sound_at(i));
            }
        }
        Outcome { closed: false, rearm }
    }

    /// Carries out the control messages that the caller drained from the
    /// control channel, in their order. The result lists the connections
    /// whose interest changed, each with the interest that the caller has to
    /// register.
    pub fn control_ready(&mut self, messages: Vec<ControlMsg>) -> (rearm: Vec<(usize, Ready)>)
        requires
            old(self).wf(),
        ensures
            final(self).wf(),
            final(self).endpoints() == applied_all(old(self).endpoints(), messages@),
            rearm@ == rearmed_all(old(self).endpoints(), messages@),
            final(self).connections() == old(self).connections(),
            final(self).listeners() == old(self).listeners(),
            final(self).notices() == old(self).notices(),
    {
        let mut rearm: Vec<(usize, Ready)> = Vec::new();
        let mut i: usize = 0;
        while i < messages.len()
            invariant
                i <= messages.len(),
                self.wf(),
                self.endpoints() == applied_all(old(self).endpoints(), messages@.take(i as int)),
                rearm@ == rearmed_all(old(self).endpoints(), messages@.take(i as int)),
                self.connections() == old(self).connections(),
                self.listeners() == old(self).listeners(),
                self.notices() == old(self).notices(),
            decreases messages.len() - i,
        {
            proof {
                assert(messages@.take(i + 1).drop_last() =~= messages@.take(i as int));
                assert(messages@.take(i + 1).last() == messages@[i as int]);
            }
            match &messages[i] {
                ControlMsg::WriteFrame(id, payload) => {
                    match self.write_frame(*id, payload.as_slice()) {
                        Some(interest) => {
                            rearm.push((*id, interest));
                        },
                        None => {},
                    }
                },
            }
            i = i + 1;
        }
        proof {
            assert(messages@.take(messages@.len() as int) =~= messages@);
        }
        rearm
    }
}

/// A reactor whose application is one closure, called with each batch of
/// frames, and the receiving end of its control channel.
pub fn new_simple<F: Fn(&Context, usize, Vec<Bytes>)>(func: F) -> (r: (
    Core<SimpleApp<F>>,
    Receiver<ControlMsg>,
))
    requires
        forall|ctx: &Context, id: usize, frames: Vec<Bytes>|
            call_requires(func, (ctx, id, frames)),
    ensures
        r.0.wf(),
        r.0.endpoints() == (Map::<usize, SocketView>::empty().insert(
            CONTROL_ID,
            SocketView::Control,
        )),
        r.0.connections() == Set::<usize>::empty(),
        r.0.listeners() == Set::<usize>::empty(),
        r.0.notices() == Seq::<Notice>::empty(),
{
    Core::new(SimpleApp::new(func))
}

/// The payloads that a run of control messages carries, in their order.
pub open spec fn carried(msgs: Seq<ControlMsg>) -> Seq<Seq<u8>> {
    msgs.map_values(
        |m: ControlMsg|
            match m {
                ControlMsg::WriteFrame(_, payload) => payload@,
            },
    )
}

/// Whether a control message asks for a frame on `id` that fits a frame.
pub open spec fn aimed_at(msg: ControlMsg, id: usize) -> bool {
    match msg {
        ControlMsg::WriteFrame(to, payload) => to == id && payload@.len() <= MAX_PAYLOAD,
    }
}

/// Frames that are asked for on one connection reach its queue in the order
/// of the requests: after a run of control messages for the stream `id` the
/// stream is what it would be had each payload been queued in turn, and no
/// other endpoint has changed.
pub proof fn lemma_writes_arrive_in_order(
    table: Map<usize, SocketView>,
    id: usize,
    msgs: Seq<ControlMsg>,
)
    requires
        table.contains_key(id),
        table[id] is Stream,
        forall|i: int| 0 <= i < msgs.len() ==> aimed_at(#[trigger] msgs[i], id),
        table[id]->Stream_0.unsent.len() + encoded_all(carried(msgs)).len() <= isize::MAX,
    ensures
        applied_all(table, msgs) == table.insert(
            id,
            SocketView::Stream(table[id]->Stream_0.queue_all(carried(msgs))),
        ),
    decreases msgs.len(),
{
    let s = table[id]->Stream_0;
    if msgs.len() == 0 {
        assert(table.insert(id, SocketView::Stream(s.queue_all(carried(msgs)))) =~= table);
    } else {
        let front = msgs.drop_last();
        let last = msgs.last();
        assert(aimed_at(msgs[msgs.len() - 1], id));
        assert forall|i: int| 0 <= i < front.len() implies aimed_at(#[trigger] front[i], id) by {
            assert(front[i] == msgs[i]);
        }
        assert(carried(msgs).drop_last() =~= carried(front));
        assert(carried(front).push(carried(msgs).last()) =~= carried(msgs));
        lemma_encoded_all_push(carried(front), carried(msgs).last());
        let payloads = carried(front);
        assert forall|i: int| 0 <= i < payloads.len() implies (#[trigger] payloads[i]).len()
            <= MAX_PAYLOAD by {
            assert(aimed_at(front[i], id));
        }
        lemma_queue_keeps_order(s, carried(front));
        lemma_writes_arrive_in_order(table, id, front);
        let mid = applied_all(table, front);
        assert(mid[id] == SocketView::Stream(s.queue_all(carried(front))));
        assert(takes(mid[id], carried(msgs).last()));
        assert(applied_all(table, msgs) =~= table.insert(
            id,
            SocketView::Stream(s.queue_all(carried(msgs))),
        ));
    }
}

/// Every connection of a reactor is open, wants to read, and wants to write
/// exactly while bytes are queued on it.
pub proof fn lemma_interest_follows_queue<A: App>(core: Core<A>, id: usize)
    requires
        core.wf(),
        core.endpoints().contains_key(id),
        core.endpoints()[id] is Stream,
    ensures
        ({
            let s = core.endpoints()[id]->Stream_0;
            &&& s.state is Open
            &&& s.interest.readable
            &&& s.interest.writable <==> s.unsent.len() > 0
        }),
{
    assert(core.sound_at(id));
}

/// The registry that callbacks see mirrors the table: it lists as
/// connections exactly the streams, as listeners exactly the listeners, and
/// never the control endpoint, which sits under its own identifier alone.
pub proof fn lemma_registry_mirrors_table<A: App>(core: Core<A>, id: usize)
    requires
        core.wf(),
    ensures
        core.connections().contains(id) <==> core.endpoints().contains_key(id)
            && core.endpoints()[id] is Stream,
        core.listeners().contains(id) <==> core.endpoints().contains_key(id)
            && core.endpoints()[id] is Listen,
        core.endpoints().contains_key(CONTROL_ID),
        core.endpoints()[CONTROL_ID] is Control,
        !core.connections().contains(CONTROL_ID),
        !core.listeners().contains(CONTROL_ID),
{
    assert(core.sound_at(id));
    assert(core.sound_at(CONTROL_ID));
}

/// The closing of an endpoint is the last thing that the application hears
/// of it: whatever a reactor tells of `id` after it told `Closed(id)`, it
/// tells of a new endpoint that got the identifier after the closing.
pub proof fn lemma_close_is_last<A: App>(core: Core<A>, i: int, j: int, id: usize)
    requires
        core.wf(),
        0 <= i < j < core.notices().len(),
        core.notices()[i] == Notice::Closed(id),
        core.notices()[j].concerns(id),
    ensures
        exists|k: int| i < k <= j && #[trigger] core.notices()[k].opens(id),
{
    lemma_closed_is_final(core.notices(), i, j, id);
}

} // verus!
