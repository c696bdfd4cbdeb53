//! What the reactor shows to the application's callbacks: which connections
//! and listeners are live, and a way to queue a frame.

use crate::channel::{send, write_request, ControlMsg};
use mio_extras::channel::Sender;
use std::collections::HashMap;
use vstd::std_specs::iter::IteratorSpec;
use vstd::prelude::*;

verus! {

broadcast use vstd::std_specs::hash::group_hash_axioms;

/// The record kept for each live connection. It carries nothing yet.
#[derive(Clone, Copy, Debug, PartialEq, Eq, Structural)]
pub struct ConnectionDetails;

impl ConnectionDetails {
    /// The record of a connection that was just made.
    pub fn new() -> (d: Self)
        ensures
            d == ConnectionDetails,
    {
        ConnectionDetails
    }
}

/// The record kept for each active listener. It carries nothing yet.
#[derive(Clone, Copy, Debug, PartialEq, Eq, Structural)]
pub struct ListenDetails;

impl ListenDetails {
    /// The record of a listener that was just bound.
    pub fn new() -> (d: Self)
        ensures
            d == ListenDetails,
    {
        ListenDetails
    }
}

/// The keys of a registry, each once, in the order in which the map gives
/// them.
fn keys_of<V>(map: &HashMap<usize, V>) -> (ids: Vec<usize>)
    ensures
        ids@.to_set() == map@.dom(),
        ids@.no_duplicates(),
{
    let mut ids: Vec<usize> = Vec::new();
    let ghost keys: Seq<usize> = map.keys().remaining().unref();
    for id in iter: map.keys()
        invariant
            iter.seq().unref() == keys,
            ids@ == keys.take(iter.index()),
    {
        proof {
            assert(keys.take(iter.index() + 1) =~= keys.take(iter.index()).push(*id));
        }
        ids.push(*id);
    }
    proof {
        assert(ids@ =~= keys);
    }
    ids
}

/// The registry that callbacks see, and the sending end of the control
/// channel.
pub struct Context {
    connections: HashMap<usize, ConnectionDetails>,
    listening: HashMap<usize, ListenDetails>,
    sender: Sender<ControlMsg>,
}

impl Context {
    /// The identifiers of the live connections.
    pub closed spec fn connections(&self) -> Set<usize> {
        self.connections@.dom()
    }

    /// The identifiers of the active listeners.
    pub closed spec fn listeners(&self) -> Set<usize> {
        self.listening@.dom()
    }

    /// A registry without entries, which sends through `sender`.
    pub(crate) fn new(sender: Sender<ControlMsg>) -> (ctx: Self)
        ensures
            ctx.connections() == Set::<usize>::empty(),
            ctx.listeners() == Set::<usize>::empty(),
    {
        Context { connections: HashMap::new(), listening: HashMap::new(), sender }
    }

    /// Records a connection that this side made.
    pub(crate) fn connected(&mut self, id: usize)
        ensures
            final(self).connections() == old(self).connections().insert(id),
            final(self).listeners() == old(self).listeners(),
    {
        self.connections.insert(id, ConnectionDetails::new());
    }

    /// Records a connection that a listener took in.
    pub(crate) fn accepted(&mut self, id: usize)
        ensures
            final(self).connections() == old(self).connections().insert(id),
            final(self).listeners() == old(self).listeners(),
    {
        self.connections.insert(id, ConnectionDetails::new());
    }

    /// Records a listener.
    pub(crate) fn listening(&mut self, id: usize)
        ensures
            final(self).listeners() == old(self).listeners().insert(id),
            final(self).connections() == old(self).connections(),
    {
        self.listening.insert(id, ListenDetails::new());
    }

    /// Forgets an endpoint, whichever of the two kinds it was, and hands back
    /// the record of a connection.
    pub(crate) fn closed(&mut self, id: usize) -> (details: Option<ConnectionDetails>)
        ensures
            final(self).connections() == old(self).connections().remove(id),
            final(self).listeners() == old(self).listeners().remove(id),
            details is Some <==> old(self).connections().contains(id),
    {
        self.listening.remove(&id);
        self.connections.remove(&id)
    }

    /// The identifiers of the live connections, each once, in no particular
    /// order.
    pub fn connection_ids(&self) -> (ids: Vec<usize>)
        ensures
            ids@.to_set() == self.connections(),
            ids@.no_duplicates(),
    {
        keys_of(&self.connections)
    }

    /// The identifiers of the active listeners, each once, in no particular
    /// order.
    pub fn listener_ids(&self) -> (ids: Vec<usize>)
        ensures
            ids@.to_set() == self.listeners(),
            ids@.no_duplicates(),
    {
        keys_of(&self.listening)
    }

    /// Asks the reactor to queue `payload` as one frame on connection `id`.
    /// The request travels through the control channel and is carried out
    /// when the reactor next drains it; `false` says that the channel did not
    /// take it, because its receiving end is gone.
    pub fn write_frame(&self, id: usize, payload: Vec<u8>) -> (taken: bool) {
        send(&self.sender, write_request(id, payload))
    }
}

/// A handle for queueing frames on one connection from any thread. It holds
/// a sending end of the control channel and the connection's identifier.
pub struct WriteHandle {
    idx: usize,
    sender: Sender<ControlMsg>,
}

impl WriteHandle {
    /// The connection that the handle writes to.
    pub closed spec fn target(&self) -> usize {
        self.idx
    }

    /// A handle on connection `idx` that sends through `sender`.
    pub(crate) fn new(idx: usize, sender: Sender<ControlMsg>) -> (h: Self)
        ensures
            h.target() == idx,
    {
        WriteHandle { idx, sender }
    }

    /// The connection that the handle writes to.
    pub fn id(&self) -> (id: usize)
        ensures
            id == self.target(),
    {
        self.idx
    }

    /// Asks the reactor to queue `payload` as one frame on the handle's
    /// connection. Requests of one handle reach the reactor in the order of
    /// the calls. `false` says that the channel did not take the request,
    /// because its receiving end is gone.
    pub fn write_frame(&mut self, payload: Vec<u8>) -> (taken: bool)
        ensures
            final(self).target() == old(self).target(),
    {
        send(&self.sender, write_request(self.idx, payload))
    }
}

} // verus!
