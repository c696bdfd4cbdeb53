//! A single-threaded, event-driven core for length-prefixed frames over byte
//! streams: a wire codec, per-connection framed streams, a table of endpoints
//! and the reactor's decisions. The library performs no socket or poller
//! calls itself; it decides, and its caller acts.

pub mod app;
pub mod buffer;
pub mod channel;
pub mod codec;
pub mod context;
pub mod drain;
pub mod error;
pub mod framed_stream;
pub mod notice;
pub mod reactor;
pub mod ready;
pub mod stream;
pub mod table;

pub use crate::app::{App, SimpleApp};
pub use crate::context::{ConnectionDetails, Context, ListenDetails, WriteHandle};
pub use crate::error::FrameError;
pub use crate::framed_stream::FramedStream;
pub use crate::reactor::{new_simple, Core};
pub use crate::ready::Ready;
pub use crate::stream::Stream;
