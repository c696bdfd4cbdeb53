//! Readiness kinds, and the set of them that a socket is polled for.

use vstd::prelude::*;

verus! {

/// A set over the two readiness kinds, readable and writable. It is both what
/// the poller reports of a socket and what a stream asks to be told about.
#[derive(Clone, Copy, Debug, PartialEq, Eq, Structural)]
pub struct Ready {
    /// Whether the set holds "readable".
    pub readable: bool,
    /// Whether the set holds "writable".
    pub writable: bool,
}

impl Ready {
    /// The set that holds neither kind.
    pub fn empty() -> (r: Ready)
        ensures
            r == (Ready { readable: false, writable: false }),
    {
        Ready { readable: false, writable: false }
    }

    /// The set that holds "readable" alone.
    pub fn readable() -> (r: Ready)
        ensures
            r == (Ready { readable: true, writable: false }),
    {
        Ready { readable: true, writable: false }
    }

    /// The set that holds "writable" alone.
    pub fn writable() -> (r: Ready)
        ensures
            r == (Ready { readable: false, writable: true }),
    {
        Ready { readable: false, writable: true }
    }

    /// Whether the set holds "readable".
    pub fn is_readable(&self) -> (b: bool)
        ensures
            b == self.readable,
    {
        self.readable
    }

    /// Whether the set holds "writable".
    pub fn is_writable(&self) -> (b: bool)
        ensures
            b == self.writable,
    {
        self.writable
    }

    /// The union of two sets.
    pub open spec fn union(self, other: Ready) -> Ready {
        Ready {
            readable: self.readable || other.readable,
            writable: self.writable || other.writable,
        }
    }

    /// What is left of `self` once the kinds in `other` are taken out.
    pub open spec fn minus(self, other: Ready) -> Ready {
        Ready {
            readable: self.readable && !other.readable,
            writable: self.writable && !other.writable,
        }
    }

    /// Adds the kinds in `other` to the set.
    pub fn insert(&mut self, other: Ready)
        ensures
            *final(self) == old(self).union(other),
    {
        self.readable = self.readable || other.readable;
        self.writable = self.writable || other.writable;
    }

    /// Takes the kinds in `other` out of the set.
    pub fn remove(&mut self, other: Ready)
        ensures
            *final(self) == old(self).minus(other),
    {
        self.readable = self.readable && !other.readable;
        self.writable = self.writable && !other.writable;
    }
}

} // verus!
