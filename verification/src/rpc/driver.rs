//! The RPC driver: the decisions of one tick of a connection.
//!
//! A tick reads requests off the transport while the connection runs, hands
//! produced responses to the transport, flushes it, and then reports whether
//! the connection is finished. The transport and the handler are polled by
//! the caller; the driver decides from what each poll returned.

use vstd::prelude::*;
use super::Handler;

verus! {

/// The state of a driver, as the contracts speak of it.
pub struct DriverState<T> {
    /// The glue between the driver, the service and the transport.
    pub handler: T,
    /// True as long as the connection has more request frames to read.
    pub run: bool,
    /// True when the transport is fully flushed.
    pub is_flushed: bool,
}

/// What one poll of the handler for a response gave.
pub enum Produced<M> {
    /// A response is ready (`Some`), or the service is done with the
    /// connection (`None`).
    Ready(Option<M>),
    /// Nothing to dispatch yet.
    Pending,
}

/// An RPC driver over a handler.
pub struct Driver<T> {
    handler: T,
    run: bool,
    is_flushed: bool,
}

impl<T> View for Driver<T> {
    type V = DriverState<T>;

    closed spec fn view(&self) -> DriverState<T> {
        DriverState { handler: self.handler, run: self.run, is_flushed: self.is_flushed }
    }
}

impl<T: Handler> Driver<T> {
    /// Create a new rpc driver with the given handler.
    pub fn new(handler: T) -> (d: Driver<T>)
        ensures
            d@.handler == handler,
            d@.run,
            d@.is_flushed,
    {
        Driver { handler, run: true, is_flushed: true }
    }

    /// Returns true if the driver has nothing left to do: no more requests
    /// to read, the transport flushed, and no response owed.
    pub fn is_done(&self) -> (b: bool)
        ensures
            b == (!self@.run && self@.is_flushed && !self@.handler.spec_has_in_flight()),
    {
        !self.run && self.is_flushed && !self.has_in_flight()
    }

    /// Whether requests are still being read off the transport; the read
    /// loop of a tick runs while this holds.
    pub fn is_receiving(&self) -> (b: bool)
        ensures
            b == self@.run,
    {
        self.run
    }

    /// Process an incoming message: a request is handed back to be consumed
    /// by the handler; the end of the request stream stops the reading.
    pub fn process_incoming<M>(&mut self, req: Option<M>) -> (to_consume: Option<M>)
        ensures
            to_consume == req,
            final(self)@.run == (old(self)@.run && req is Some),
            final(self)@.is_flushed == old(self)@.is_flushed,
            final(self)@.handler == old(self)@.handler,
    {
        match req {
            Some(message) => Some(message),
            None => {
                self.run = false;
                None
            },
        }
    }

    /// Decide on what the handler produced: a ready response is handed back
    /// to be sent (and the loop goes on); the end of the responses stops the
    /// connection; nothing ready ends the loop for this tick.
    pub fn send_outgoing<M>(&mut self, produced: Produced<M>) -> (to_send: Option<M>)
        ensures
            to_send == (match produced {
                Produced::Ready(m) => m,
                Produced::Pending => None,
            }),
            final(self)@.run == (old(self)@.run && !(produced == Produced::<M>::Ready(None))),
            final(self)@.is_flushed == old(self)@.is_flushed,
            final(self)@.handler == old(self)@.handler,
    {
        match produced {
            Produced::Ready(Some(message)) => Some(message),
            Produced::Ready(None) => {
                self.run = false;
                None
            },
            Produced::Pending => None,
        }
    }

    /// Record whether the last flush of the transport completed.
    pub fn flush(&mut self, flushed: bool)
        ensures
            final(self)@.is_flushed == flushed,
            final(self)@.run == old(self)@.run,
            final(self)@.handler == old(self)@.handler,
    {
        self.is_flushed = flushed;
    }

    /// The handler, for the caller to poll its transport and service.
    pub fn handler_mut(&mut self) -> (h: &mut T)
        ensures
            *h == old(self)@.handler,
            final(self)@.handler == *final(h),
            final(self)@.run == old(self)@.run,
            final(self)@.is_flushed == old(self)@.is_flushed,
    {
        &mut self.handler
    }

    /// The handler.
    pub fn handler(&self) -> (h: &T)
        ensures
            *h == self@.handler,
    {
        &self.handler
    }

    /// RPCs currently in flight in the handler.
    pub fn has_in_flight(&self) -> (b: bool)
        ensures
            b == self@.handler.spec_has_in_flight(),
    {
        self.handler.has_in_flight()
    }
}

} // verus!
