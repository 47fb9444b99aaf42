//! Pipelined request/response RPC over a message transport.

pub mod driver;
pub mod server;

use vstd::prelude::*;

verus! {

/// What the RPC driver needs to know of the object that glues it to a
/// service: whether requests are still being answered.
pub trait Handler {
    /// Whether some request has been taken in and its response not yet
    /// handed back.
    spec fn spec_has_in_flight(&self) -> bool;

    /// RPCs currently in flight.
    fn has_in_flight(&self) -> (b: bool)
        ensures
            b == self.spec_has_in_flight(),
    ;
}

} // verus!
