//! The control channel: how other threads, and the application's callbacks,
//! ask the reactor to queue a frame.
//!
//! The channel is the one of `mio_extras`, whose receiving end can be
//! registered with a poller. Whether a message gets through depends on the
//! other end, so nothing is claimed of the calls below beyond their types.

use mio_extras::channel::{Receiver, Sender};
use vstd::prelude::*;

verus! {

/// A request to the reactor.
pub enum ControlMsg {
    /// Queue the payload as one frame on the connection with this identifier.
    WriteFrame(usize, Vec<u8>),
}

/// The request to queue `payload` as one frame on connection `id`: what both
/// ways of writing through the control channel hand to it.
pub fn write_request(id: usize, payload: Vec<u8>) -> (msg: ControlMsg)
    ensures
        msg == ControlMsg::WriteFrame(id, payload),
{
    ControlMsg::WriteFrame(id, payload)
}

/// `mio_extras::channel::Sender`, made known to the verifier as an opaque
/// type.
#[verifier::external_type_specification]
#[verifier::external_body]
#[verifier::reject_recursive_types(T)]
pub struct ExSender<T>(Sender<T>);

/// `mio_extras::channel::Receiver`, made known to the verifier as an opaque
/// type.
#[verifier::external_type_specification]
#[verifier::external_body]
#[verifier::reject_recursive_types(T)]
pub struct ExReceiver<T>(Receiver<T>);

/// `mio_extras::channel::channel`: a new channel, as its two ends.
pub assume_specification<T>[ mio_extras::channel::channel::<T> ]() -> (ends: (
    Sender<T>,
    Receiver<T>,
))
;

/// The `Clone` of `Sender`: one more sending end of the same channel.
pub assume_specification<T>[ <Sender<T> as Clone>::clone ](tx: &Sender<T>) -> (other: Sender<T>)
;

/// `Sender::send`: hands the message to the channel and says whether the
/// channel took it. It does not when the receiving end is gone.
#[verifier::external_body]
pub(crate) fn send(tx: &Sender<ControlMsg>, msg: ControlMsg) -> (taken: bool) {
    tx.send(msg).is_ok()
}

} // verus!
