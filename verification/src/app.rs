//! The callbacks through which the reactor tells the application what
//! happened.

use crate::context::Context;
use bytes::Bytes;
use vstd::prelude::*;

verus! {

/// The callback set. Every method does nothing unless the application
/// overrides it. Each receives the registry as it stands at that moment, and
/// each may count on the registry to show already what it is told: a new
/// endpoint is listed, one that is gone is not. The only way for a callback
/// to act on the reactor is `Context::write_frame`.
#[allow(unused_variables)]
pub trait App {
    /// The reactor is about to start.
    fn handle_init(&mut self, ctx: &Context) {
    }

    /// A listener was bound under `id`.
    fn handle_listen(&mut self, ctx: &Context, id: usize)
        requires
            ctx.listeners().contains(id),
    {
    }

    /// A connection was opened from this side under `id`.
    fn handle_connect(&mut self, ctx: &Context, id: usize)
        requires
            ctx.connections().contains(id),
    {
    }

    /// The listener `listen_socket` took in a connection, now under `id`.
    fn handle_accept(&mut self, ctx: &Context, listen_socket: usize, id: usize)
        requires
            ctx.listeners().contains(listen_socket),
            ctx.connections().contains(id),
    {
    }

    /// The endpoint `id` is gone. Nothing more is reported of it.
    fn handle_close(&mut self, ctx: &Context, id: usize)
        requires
            !ctx.connections().contains(id),
            !ctx.listeners().contains(id),
    {
    }

    /// Whole frames arrived on connection `id`, in wire order.
    fn handle_frames(&mut self, ctx: &Context, id: usize, frames: Vec<Bytes>)
        requires
            ctx.connections().contains(id),
    {
    }

    /// The reactor has stopped.
    fn handle_shutdown(&mut self) {
    }
}

/// An application that is one closure, called with each batch of frames.
pub struct SimpleApp<F: Fn(&Context, usize, Vec<Bytes>)>(F);

impl<F: Fn(&Context, usize, Vec<Bytes>)> SimpleApp<F> {
    /// The closure takes every batch: it asks nothing of its arguments.
    #[verifier::type_invariant]
    spec fn takes_all(self) -> bool {
        forall|ctx: &Context, id: usize, frames: Vec<Bytes>|
            call_requires(self.0, (ctx, id, frames))
    }

    /// The closure that the application is.
    pub closed spec fn func(self) -> F {
        self.0
    }

    /// Wraps a closure that asks nothing of its arguments.
    pub fn new(func: F) -> (app: Self)
        requires
            forall|ctx: &Context, id: usize, frames: Vec<Bytes>|
                call_requires(func, (ctx, id, frames)),
        ensures
            app.func() == func,
    {
        SimpleApp(func)
    }
}

impl<F: Fn(&Context, usize, Vec<Bytes>)> App for SimpleApp<F> {
    /// Hands the batch to the closure, with the registry and the connection's
    /// identifier: what has happened is what one call of the closure on
    /// these three does. The closure itself stays the same.
    fn handle_frames(&mut self, ctx: &Context, id: usize, frames: Vec<Bytes>)
        ensures
            call_ensures(old(self).func(), (ctx, id, frames), ()),
            final(self).func() == old(self).func(),
    {
        proof {
            use_type_invariant(&*self);
        }
        (self.0)(ctx, id, frames);
    }
}

} // verus!
