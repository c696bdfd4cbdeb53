//! Draining a readable socket: one non-blocking read after the other until
//! the socket has no more to give, the peer has closed, or a read fails.
//!
//! Each turn is `Drain::pull`: one read, whose result `Drain::took` takes
//! in. `drain` takes the turns until the socket says that the drain is over.

use crate::buffer::max_buffer;
use crate::error::FrameError;
use crate::stream::{is_would_block, Stream};
use std::io::Error;
use vstd::prelude::*;

verus! {

/// How draining a socket's readable bytes came to its end.
#[derive(Debug)]
pub enum ReadEnd {
    /// The socket had no more to give for now.
    Drained,
    /// A read gave no bytes: the peer has closed.
    Closed,
    /// A read failed for a reason that is not transient.
    Failed(Error),
}

/// What one non-blocking read says about going on: `None` while bytes keep
/// arriving, else the way the drain ends.
pub open spec fn read_verdict(res: Result<Option<usize>, Error>) -> Option<ReadEnd> {
    match res {
        Ok(Some(n)) => if n == 0 {
            Some(ReadEnd::Closed)
        } else {
            None
        },
        Ok(None) => Some(ReadEnd::Drained),
        Err(e) => Some(ReadEnd::Failed(e)),
    }
}

/// Decides after each non-blocking read whether the drain goes on.
pub fn read_end(res: Result<Option<usize>, Error>) -> (r: Option<ReadEnd>)
    ensures
        r == read_verdict(res),
{
    match res {
        Ok(Some(n)) => {
            if n == 0 {
                Some(ReadEnd::Closed)
            } else {
                None
            }
        },
        Ok(None) => Some(ReadEnd::Drained),
        Err(e) => Some(ReadEnd::Failed(e)),
    }
}

/// The terminal condition that the end of a drain stands for, if any.
pub open spec fn terminal(end: ReadEnd) -> Option<FrameError> {
    match end {
        ReadEnd::Drained => None,
        ReadEnd::Closed => Some(FrameError::PeerClosed),
        ReadEnd::Failed(e) => Some(FrameError::Read(e)),
    }
}

/// What a socket's readable bytes came to: the bytes that its reads gave, and
/// the way the drain ended.
#[derive(Debug)]
pub struct Drain {
    /// The bytes that the reads gave, in order.
    pub data: Vec<u8>,
    /// How the drain ended. While the drain goes on this says `Drained`.
    pub end: ReadEnd,
}

impl Drain {
    /// A drain that has read nothing yet.
    pub fn new() -> (d: Self)
        ensures
            d.data@ == Seq::<u8>::empty(),
            d.end is Drained,
    {
        Drain { data: Vec::new(), end: ReadEnd::Drained }
    }

    /// Takes in the result of one read into `scratch`. Bytes that the read
    /// gave, the first `n` of `scratch`, are put behind those already
    /// drained, and the result is `true`: the drain goes on. Otherwise
    /// nothing is added, the result is `false`, and `end` says why the drain
    /// is over: the read gave no bytes, so the peer has closed; the socket
    /// would block; or the read failed.
    pub fn took(&mut self, res: Result<Option<usize>, Error>, scratch: &[u8]) -> (more: bool)
        requires
            res matches Ok(Some(n)) ==> n <= scratch@.len(),
        ensures
            match res {
                Ok(Some(n)) => {
                    &&& more == (n > 0)
                    &&& final(self).data@ == old(self).data@ + scratch@.take(n as int)
                    &&& final(self).end == if n > 0 {
                        old(self).end
                    } else {
                        ReadEnd::Closed
                    }
                },
                Ok(None) => {
                    &&& !more
                    &&& final(self).data@ == old(self).data@
                    &&& final(self).end == ReadEnd::Drained
                },
                Err(e) => {
                    &&& !more
                    &&& final(self).data@ == old(self).data@
                    &&& final(self).end == ReadEnd::Failed(e)
                },
            },
    {
        let count: usize = match &res {
            Ok(Some(n)) => *n,
            _ => 0,
        };
        let ghost before = self.data@;
        let mut i: usize = 0;
        while i < count
            invariant
                i <= count <= scratch@.len(),
                self.data@ == before + scratch@.take(i as int),
                self.end == old(self).end,
            decreases count - i,
        {
            self.data.push(scratch[i]);
            proof {
                assert(scratch@.take(i + 1) =~= scratch@.take(i as int).push(scratch@[i as int]));
                assert(self.data@ =~= before + scratch@.take(i + 1));
            }
            i = i + 1;
        }
        proof {
            assert(before + scratch@.take(0) =~= before);
        }
        match read_end(res) {
            Some(end) => {
                self.end = end;
                false
            },
            None => true,
        }
    }

    /// Reads once from the socket, through `scratch`, and takes the result
    /// in as `took` does. `true` says that bytes came and the caller pulls
    /// again; `false` that the drain is over, for the reason that `end`
    /// gives.
    pub fn pull<S: Stream>(&mut self, io: &mut S, scratch: &mut [u8]) -> (more: bool)
        ensures
            final(scratch)@.len() == old(scratch)@.len(),
            final(self).data@.len() <= old(self).data@.len() + old(scratch)@.len(),
            final(self).data@ == old(self).data@ + final(scratch)@.take(
                final(self).data@.len() - old(self).data@.len(),
            ),
            more ==> final(self).data@.len() > old(self).data@.len(),
            more ==> final(self).end == old(self).end,
            !more ==> final(self).data@ == old(self).data@,
            !more ==> (final(self).end matches ReadEnd::Failed(e) ==> !is_would_block(e)),
    {
        let res = io.try_read(scratch);
        self.took(res, scratch)
    }
}

/// Drains the socket: pulls through `scratch` until the socket would block,
/// the peer has closed or a read fails, and returns the bytes that came, in
/// order, with the way the drain ended. Without room to read into nothing is
/// read. A drain that has come to hold as many bytes as a buffer may hold
/// ends as if the socket would block.
pub fn drain<S: Stream>(io: &mut S, scratch: &mut [u8]) -> (d: Drain)
    ensures
        final(scratch)@.len() == old(scratch)@.len(),
        old(scratch)@.len() == 0 ==> d.data@.len() == 0 && d.end is Drained,
        d.end matches ReadEnd::Failed(e) ==> !is_would_block(e),
{
    let mut d = Drain::new();
    if scratch.len() == 0 {
        return d;
    }
    let mut more: bool = true;
    while more && d.data.len() < max_buffer()
        invariant
            scratch@.len() == old(scratch)@.len(),
            more ==> d.end is Drained,
            d.end matches ReadEnd::Failed(e) ==> !is_would_block(e),
        decreases
            (if d.data@.len() < isize::MAX {
                isize::MAX - d.data@.len()
            } else {
                0
            }),
            more as int,
    {
        more = d.pull(io, scratch);
    }
    d
}

} // verus!
