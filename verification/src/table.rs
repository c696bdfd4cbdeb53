//! The socket table: every endpoint of a reactor under a small integer.
//!
//! Identifiers are the table's own indices. A new endpoint gets the smallest
//! index that holds nothing, so the table stays dense, and an index is handed
//! out again only after its endpoint has left.

use crate::framed_stream::{FramedStream, StreamView};
use vstd::prelude::*;

verus! {

/// An entry of the socket table. The operating system's handle of each
/// endpoint stays with the caller, under the same identifier.
pub enum Socket {
    /// A bound listener that awaits inbound connections.
    Listen,
    /// A framed connection.
    Stream(FramedStream),
    /// The receiving end of the control channel.
    Control,
}

/// What an entry of the socket table amounts to.
pub enum SocketView {
    /// A listener.
    Listen,
    /// A framed connection, as its own model.
    Stream(StreamView),
    /// The control endpoint.
    Control,
}

impl View for Socket {
    type V = SocketView;

    open spec fn view(&self) -> SocketView {
        match self {
            Socket::Listen => SocketView::Listen,
            Socket::Stream(stream) => SocketView::Stream(stream@),
            Socket::Control => SocketView::Control,
        }
    }
}

/// Whether `key` is the identifier that the next endpoint gets: nothing is
/// under it, and something is under every smaller one.
pub open spec fn least_free(table: Map<usize, SocketView>, key: usize) -> bool {
    &&& !table.contains_key(key)
    &&& forall|j: usize| j < key ==> table.contains_key(j)
}

/// The table of endpoints. A slot holds an endpoint or nothing; an
/// endpoint's identifier is the index of its slot.
pub struct SocketTable {
    slots: Vec<Option<Socket>>,
}

impl View for SocketTable {
    type V = Map<usize, SocketView>;

    closed spec fn view(&self) -> Map<usize, SocketView> {
        Map::new(
            |i: usize| i < self.slots@.len() && self.slots@[i as int] is Some,
            |i: usize| self.slots@[i as int]->Some_0@,
        )
    }
}

impl Socket {
    /// The entry of a connection that was just made.
    pub fn framed_stream() -> (s: Self)
        ensures
            s@ == SocketView::Stream(StreamView::fresh()),
    {
        Socket::Stream(FramedStream::new())
    }

    /// Puts the entry into the table, under the smallest identifier that was
    /// free, and returns that identifier.
    pub fn save(self, table: &mut SocketTable) -> (key: usize)
        ensures
            least_free(old(table)@, key),
            final(table)@ == old(table)@.insert(key, self@),
    {
        table.insert(self)
    }
}

impl SocketTable {
    /// A table without endpoints.
    pub fn new() -> (table: Self)
        ensures
            table@ == Map::<usize, SocketView>::empty(),
    {
        let table = SocketTable { slots: Vec::new() };
        proof {
            assert(table@ =~= Map::<usize, SocketView>::empty());
        }
        table
    }

    /// The identifier that the next endpoint gets: the smallest one that is
    /// free.
    pub fn vacant_key(&self) -> (key: usize)
        ensures
            least_free(self@, key),
    {
        let mut i: usize = 0;
        while i < self.slots.len()
            invariant
                i <= self.slots@.len(),
                forall|j: usize| j < i ==> self@.contains_key(j),
            decreases self.slots@.len() - i,
        {
            if self.slots[i].is_none() {
                return i;
            }
            i = i + 1;
        }
        i
    }

    /// Puts `val` under the smallest identifier that is free and returns
    /// that identifier. Every other endpoint stays where it is.
    pub fn insert(&mut self, val: Socket) -> (key: usize)
        ensures
            least_free(old(self)@, key),
            final(self)@ == old(self)@.insert(key, val@),
    {
        let key = self.vacant_key();
        if key < self.slots.len() {
            self.slots[key] = Some(val);
        } else {
            proof {
                if key > self.slots@.len() {
                    assert(self@.contains_key(self.slots@.len() as usize));
                }
            }
            self.slots.push(Some(val));
        }
        proof {
            assert(self@ =~= old(self)@.insert(key, val@));
        }
        key
    }

    /// The endpoint under `key`, if there is one.
    pub fn get(&self, key: usize) -> (r: Option<&Socket>)
        ensures
            match r {
                Some(val) => self@.contains_key(key) && val@ == self@[key],
                None => !self@.contains_key(key),
            },
    {
        if key < self.slots.len() {
            self.slots[key].as_ref()
        } else {
            None
        }
    }

    /// The endpoint under `key`, if there is one, to be changed in place. No
    /// other endpoint changes.
    pub fn get_mut(&mut self, key: usize) -> (r: Option<&mut Socket>)
        ensures
            match r {
                Some(val) => {
                    &&& old(self)@.contains_key(key)
                    &&& val@ == old(self)@[key]
                    &&& final(self)@ == old(self)@.insert(key, final(val)@)
                },
                None => !old(self)@.contains_key(key) && final(self)@ == old(self)@,
            },
    {
        if key < self.slots.len() {
            let slot = &mut self.slots[key];
            slot.as_mut()
        } else {
            None
        }
    }

    /// Takes the endpoint under `key` out of the table and returns it, if
    /// there is one. Every other endpoint stays under its identifier, and
    /// `key` is free again.
    pub fn remove(&mut self, key: usize) -> (r: Option<Socket>)
        ensures
            match r {
                Some(val) => old(self)@.contains_key(key) && val@ == old(self)@[key],
                None => !old(self)@.contains_key(key),
            },
            final(self)@ == old(self)@.remove(key),
    {
        if key < self.slots.len() {
            let gone = self.slots[key].take();
            proof {
                assert(self@ =~= old(self)@.remove(key));
            }
            gone
        } else {
            proof {
                assert(self@ =~= old(self)@.remove(key));
            }
            None
        }
    }
}

} // verus!
