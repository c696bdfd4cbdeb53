//! The ways in which a framed stream refuses a payload or comes to its end.

use std::io::Error;
use vstd::prelude::*;

verus! {

/// Why a payload was refused or a stream is finished.
#[derive(Debug)]
pub enum FrameError {
    /// The payload is longer than a frame's header can announce.
    MessageTooLarge,
    /// The peer closed the connection in an orderly way: a read gave no bytes.
    PeerClosed,
    /// A read failed for a reason that is not transient.
    Read(Error),
    /// A write failed for a reason that is not transient.
    Write(Error),
}

} // verus!
