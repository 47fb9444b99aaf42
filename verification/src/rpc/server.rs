//! The server side of the RPC: the first-in first-out queue of responses
//! that are still being computed or wait to be sent.
//!
//! Each request taken in puts the future of its response at the back of the
//! queue. Polling the futures turns entries into finished responses in
//! place; a response is handed out only from the head of the queue, so
//! responses leave in the order their requests came in.

use vstd::prelude::*;
use super::Handler;
use super::driver::Driver;
use std::collections::VecDeque;

verus! {

/// A response in flight: still being computed by its future, or finished.
pub enum InFlight<F, R> {
    /// The future that computes the response.
    Active(F),
    /// The finished response.
    Done(R),
}

impl<F, R> InFlight<F, R> {
    /// Record the outcome of polling the future of this entry: a ready
    /// response (`Some`) finishes an active entry; a finished entry, or a
    /// poll that is still pending (`None`), leaves the entry as it is.
    pub fn poll(&mut self, outcome: Option<R>)
        ensures
            *final(self) == (match (*old(self), outcome) {
                (InFlight::Active(_), Some(r)) => InFlight::Done(r),
                (e, _) => e,
            }),
    {
        if let InFlight::Active(_) = self {
            if let Some(r) = outcome {
                *self = InFlight::Done(r);
            }
        }
    }
}

/// Handing out a response from a queue: when the head is finished, its
/// response and the rest of the queue; otherwise nothing, and the queue as
/// it is.
pub open spec fn spec_produce<F, R>(q: Seq<InFlight<F, R>>) -> (Option<R>, Seq<InFlight<F, R>>) {
    if q.len() > 0 && q[0] is Done {
        (Some(q[0]->Done_0), q.drop_first())
    } else {
        (None, q)
    }
}

/// A request taken in after others never overtakes them: handing out a
/// response from a nonempty queue gives the same response, and leaves the
/// new entry at the back, whether or not the new entry was queued first.
pub proof fn law_new_request_never_overtakes<F, R>(q: Seq<InFlight<F, R>>, x: InFlight<F, R>)
    requires
        q.len() > 0,
    ensures
        spec_produce(q.push(x)).0 == spec_produce(q).0,
        spec_produce(q.push(x)).1 == spec_produce(q).1.push(x),
{
    if q[0] is Done {
        assert(q.push(x).drop_first() =~= q.drop_first().push(x));
    }
}

/// An operation on the queue of responses in flight: a request taken in
/// (`consume`), the entry at a position polled (taken out with
/// `take_in_flight`, its future polled, and put back with
/// `restore_in_flight`: the entry put back is recorded), or a hand-out
/// (`produce`).
pub enum QueueOp<F, R> {
    Consume(F),
    Poll(nat, InFlight<F, R>),
    Produce,
}

/// What polling an entry makes of it, given the entry put back: an active
/// entry becomes the one put back (its future, further along, or the
/// response it finished with); a finished entry stays as it is.
pub open spec fn polled_to<F, R>(e: InFlight<F, R>, back: InFlight<F, R>) -> InFlight<F, R> {
    if e is Active {
        back
    } else {
        e
    }
}

/// The history of a queue that starts empty: the queue, the responses
/// handed out so far in order, and for each request taken in so far (in
/// order) the response its future finished with, if it has finished.
pub open spec fn run_queue<F, R>(ops: Seq<QueueOp<F, R>>) -> (
    Seq<InFlight<F, R>>,
    Seq<R>,
    Seq<Option<R>>,
)
    decreases ops.len(),
{
    if ops.len() == 0 {
        (Seq::empty(), Seq::empty(), Seq::empty())
    } else {
        let (q, out, log) = run_queue(ops.drop_last());
        match ops.last() {
            QueueOp::Consume(f) => (q.push(InFlight::Active(f)), out, log.push(None)),
            QueueOp::Poll(i, back) => if i < q.len() {
                let e = polled_to(q[i as int], back);
                let log2 = if q[i as int] is Active && back is Done {
                    log.update((out.len() + i) as int, Some(back->Done_0))
                } else {
                    log
                };
                (q.update(i as int, e), out, log2)
            } else {
                (q, out, log)
            },
            QueueOp::Produce => match spec_produce(q).0 {
                Some(r) => (spec_produce(q).1, out.push(r), log),
                None => (q, out, log),
            },
        }
    }
}

/// Responses leave in request order, each once, whatever order their
/// futures finish in: over any run of operations, the `k`-th response
/// handed out is the one the `k`-th request's future finished with; every
/// request taken in is either answered or still in the queue, in order; and
/// an entry of the queue is finished exactly when its request's future has
/// finished, with that response.
pub proof fn law_responses_in_request_order<F, R>(ops: Seq<QueueOp<F, R>>)
    ensures
        ({
            let (q, out, log) = run_queue(ops);
            &&& log.len() == out.len() + q.len()
            &&& forall|k: int| 0 <= k < out.len() ==> log[k] == Some(#[trigger] out[k])
            &&& forall|j: int|
                0 <= j < q.len() ==> match #[trigger] q[j] {
                    InFlight::Done(v) => log[out.len() + j] == Some(v),
                    InFlight::Active(_) => log[out.len() + j] is None,
                }
        }),
    decreases ops.len(),
{
    if ops.len() > 0 {
        law_responses_in_request_order(ops.drop_last());
        let (q, out, log) = run_queue(ops.drop_last());
        match ops.last() {
            QueueOp::Consume(f) => {
                let q2 = q.push(InFlight::Active(f));
                let log2 = log.push(None);
                assert forall|j: int| 0 <= j < q2.len() implies match #[trigger] q2[j] {
                    InFlight::Done(v) => log2[out.len() + j] == Some(v),
                    InFlight::Active(_) => log2[out.len() + j] is None,
                } by {
                    if j < q.len() {
                        assert(q2[j] == q[j]);
                    }
                }
                assert forall|k: int| 0 <= k < out.len() implies log2[k] == Some(#[trigger] out[k]) by {
                }
            },
            QueueOp::Poll(i, back) => {
                if i < q.len() {
                    let e = polled_to(q[i as int], back);
                    let q2 = q.update(i as int, e);
                    let log2 = if q[i as int] is Active && back is Done {
                        log.update((out.len() + i) as int, Some(back->Done_0))
                    } else {
                        log
                    };
                    assert forall|j: int| 0 <= j < q2.len() implies match #[trigger] q2[j] {
                        InFlight::Done(v) => log2[out.len() + j] == Some(v),
                        InFlight::Active(_) => log2[out.len() + j] is None,
                    } by {
                        if j != i {
                            assert(q2[j] == q[j]);
                            match q[j] {
                                InFlight::Done(v) => {},
                                InFlight::Active(_) => {},
                            }
                        } else {
                            match q[j] {
                                InFlight::Done(v) => {},
                                InFlight::Active(_) => {
                                    match back {
                                        InFlight::Done(v) => {},
                                        InFlight::Active(_) => {},
                                    }
                                },
                            }
                        }
                    }
                    assert forall|k: int| 0 <= k < out.len() implies log2[k] == Some(#[trigger] out[k]) by {
                    }
                }
            },
            QueueOp::Produce => {
                match spec_produce(q).0 {
                    Some(r) => {
                        let q2 = spec_produce(q).1;
                        let out2 = out.push(r);
                        match q[0] {
                            InFlight::Done(v) => {},
                            InFlight::Active(_) => {},
                        }
                        assert(log[out.len() as int] == Some(r));
                        assert forall|j: int| 0 <= j < q2.len() implies match #[trigger] q2[j] {
                            InFlight::Done(v) => log[out2.len() + j] == Some(v),
                            InFlight::Active(_) => log[out2.len() + j] is None,
                        } by {
                            assert(q2[j] == q[j + 1]);
                            match q[j + 1] {
                                InFlight::Done(v) => {},
                                InFlight::Active(_) => {},
                            }
                        }
                        assert forall|k: int| 0 <= k < out2.len() implies log[k] == Some(#[trigger] out2[k]) by {
                            if k < out.len() {
                                assert(out2[k] == out[k]);
                            }
                        }
                    },
                    None => {},
                }
            },
        }
    }
}

/// Responses leave a handler in request order, each once: at every point of
/// any run of its methods, the queue in flight is the queue its history
/// builds; the `k`-th response handed out is the one the `k`-th request's
/// future finished with; and every request taken in is either answered or
/// still in flight, in order, finished exactly when its future has finished.
pub proof fn law_handler_answers_in_request_order<S, T, F, R>(h: ServerHandlerView<S, T, F, R>)
    requires
        h.wf(),
        h.taken is None,
    ensures
        ({
            let (q, out, log) = run_queue(h.ops);
            &&& q == h.in_flight
            &&& out == h.answered()
            &&& log.len() == out.len() + q.len()
            &&& forall|k: int| 0 <= k < out.len() ==> log[k] == Some(#[trigger] out[k])
            &&& forall|j: int|
                0 <= j < q.len() ==> match #[trigger] q[j] {
                    InFlight::Done(v) => log[out.len() + j] == Some(v),
                    InFlight::Active(_) => log[out.len() + j] is None,
                }
        }),
{
    law_responses_in_request_order(h.ops);
}

/// The contents of a server handler, as the contracts speak of them.
pub struct ServerHandlerView<S, T, F, R> {
    pub server: S,
    pub transport: T,
    /// The responses in flight, oldest request first.
    pub in_flight: Seq<InFlight<F, R>>,
    /// The operations on the queue since the handler was made, in order.
    pub ops: Seq<QueueOp<F, R>>,
    /// The entry taken out to be polled, with its position, if one is out.
    pub taken: Option<(nat, InFlight<F, R>)>,
}

impl<S, T, F, R> ServerHandlerView<S, T, F, R> {
    /// The handler agrees with its history: replaying the operations from
    /// an empty queue gives the queue in flight, with the entry taken out,
    /// if any, back in its place.
    pub open spec fn wf(self) -> bool {
        match self.taken {
            None => run_queue(self.ops).0 == self.in_flight,
            Some((i, e)) => i <= self.in_flight.len() && run_queue(self.ops).0
                == self.in_flight.insert(i as int, e),
        }
    }

    /// The responses handed out so far, in order.
    pub open spec fn answered(self) -> Seq<R> {
        run_queue(self.ops).1
    }
}

/// Glue between a service and the RPC driver: the service, its transport
/// and the queue of responses in flight.
pub struct ServerHandler<S, T, F, R> {
    server: S,
    transport: T,
    in_flight: VecDeque<InFlight<F, R>>,
    ops: Ghost<Seq<QueueOp<F, R>>>,
    taken: Ghost<Option<(nat, InFlight<F, R>)>>,
}

impl<S, T, F, R> View for ServerHandler<S, T, F, R> {
    type V = ServerHandlerView<S, T, F, R>;

    closed spec fn view(&self) -> ServerHandlerView<S, T, F, R> {
        ServerHandlerView {
            server: self.server,
            transport: self.transport,
            in_flight: self.in_flight@,
            ops: self.ops@,
            taken: self.taken@,
        }
    }
}

impl<S, T, F, R> ServerHandler<S, T, F, R> {
    /// A handler with nothing in flight.
    pub fn new(server: S, transport: T) -> (h: Self)
        ensures
            h@.server == server,
            h@.transport == transport,
            h@.in_flight == Seq::<InFlight<F, R>>::empty(),
            h@.ops == Seq::<QueueOp<F, R>>::empty(),
            h@.taken is None,
            h@.wf(),
    {
        ServerHandler {
            server,
            transport,
            in_flight: VecDeque::with_capacity(32),
            ops: Ghost(Seq::empty()),
            taken: Ghost(None),
        }
    }

    /// Consume a request: the future computing its response (what the
    /// service's `process` returned for it) joins the back of the queue.
    pub fn consume(&mut self, response: F)
        ensures
            final(self)@.in_flight == old(self)@.in_flight.push(InFlight::Active(response)),
            final(self)@.server == old(self)@.server,
            final(self)@.transport == old(self)@.transport,
            final(self)@.ops == old(self)@.ops.push(QueueOp::Consume(response)),
            final(self)@.taken == old(self)@.taken,
            old(self)@.wf() ==> final(self)@.wf(),
    {
        let ghost f = response;
        self.in_flight.push_back(InFlight::Active(response));
        self.ops = Ghost(self.ops@.push(QueueOp::Consume(f)));
        proof {
            let ops = final(self)@.ops;
            assert(ops.drop_last() =~= old(self)@.ops);
            if let Some((i, e)) = old(self)@.taken {
                if old(self)@.wf() {
                    assert(old(self)@.in_flight.insert(i as int, e).push(InFlight::Active(f))
                        =~= final(self)@.in_flight.insert(i as int, e));
                }
            }
        }
    }

    /// Produce a message: the response at the head of the queue, when it is
    /// finished, leaves the queue and is handed back; otherwise nothing is
    /// ready and the queue stays as it is.
    pub fn produce(&mut self) -> (res: Option<R>)
        requires
            old(self)@.taken is None,
        ensures
            (res, final(self)@.in_flight) == spec_produce(old(self)@.in_flight),
            final(self)@.ops == old(self)@.ops.push(QueueOp::Produce),
            final(self)@.taken is None,
            old(self)@.wf() ==> final(self)@.wf(),
            old(self)@.wf() ==> final(self)@.answered() == match res {
                Some(r) => old(self)@.answered().push(r),
                None => old(self)@.answered(),
            },
            match res {
                Some(r) => {
                    &&& old(self)@.in_flight.len() > 0
                    &&& old(self)@.in_flight[0] == InFlight::<F, R>::Done(r)
                    &&& final(self)@.in_flight == old(self)@.in_flight.drop_first()
                },
                None => {
                    &&& (old(self)@.in_flight.len() == 0 || old(self)@.in_flight[0] is Active)
                    &&& final(self)@.in_flight == old(self)@.in_flight
                },
            },
            final(self)@.server == old(self)@.server,
            final(self)@.transport == old(self)@.transport,
    {
        self.ops = Ghost(self.ops@.push(QueueOp::Produce));
        assert(self@.ops.drop_last() =~= old(self)@.ops);
        if self.in_flight.len() == 0 {
            return None;
        }
        match &self.in_flight[0] {
            InFlight::Done(_) => {},
            InFlight::Active(_) => {
                return None;
            },
        }
        match self.in_flight.pop_front() {
            Some(InFlight::Done(r)) => Some(r),
            _ => {
                proof {
                    assert(false);
                }
                None
            },
        }
    }

    /// The number of responses in flight.
    pub fn in_flight_len(&self) -> (n: usize)
        ensures
            n == self@.in_flight.len(),
    {
        self.in_flight.len()
    }

    /// Take the entry at position `i` out of the queue, for the caller to
    /// poll its future; `restore_in_flight` puts it back in its place.
    pub fn take_in_flight(&mut self, i: usize) -> (e: InFlight<F, R>)
        requires
            i < old(self)@.in_flight.len(),
            old(self)@.taken is None,
        ensures
            e == old(self)@.in_flight[i as int],
            final(self)@.in_flight == old(self)@.in_flight.remove(i as int),
            final(self)@.server == old(self)@.server,
            final(self)@.transport == old(self)@.transport,
            final(self)@.ops == old(self)@.ops,
            final(self)@.taken == Some((i as nat, e)),
            old(self)@.wf() ==> final(self)@.wf(),
    {
        let e = self.in_flight.remove(i).unwrap();
        self.taken = Ghost(Some((i as nat, e)));
        assert(final(self)@.in_flight.insert(i as int, e) =~= old(self)@.in_flight);
        e
    }

    /// Put the entry taken out at position `i` back in its place, after its
    /// future was polled: an active entry may come back further along or
    /// finished; a finished one comes back as it was.
    pub fn restore_in_flight(&mut self, i: usize, e: InFlight<F, R>)
        requires
            i <= old(self)@.in_flight.len(),
            old(self)@.taken is Some,
            old(self)@.taken.unwrap().0 == i,
            old(self)@.taken.unwrap().1 is Done ==> e == old(self)@.taken.unwrap().1,
        ensures
            final(self)@.in_flight == old(self)@.in_flight.insert(i as int, e),
            final(self)@.server == old(self)@.server,
            final(self)@.transport == old(self)@.transport,
            final(self)@.ops == old(self)@.ops.push(QueueOp::Poll(i as nat, e)),
            final(self)@.taken is None,
            old(self)@.wf() ==> final(self)@.wf(),
    {
        let ghost e0 = self.taken@.unwrap().1;
        let ghost e2 = e;
        self.in_flight.insert(i, e);
        self.ops = Ghost(self.ops@.push(QueueOp::Poll(i as nat, e2)));
        self.taken = Ghost(None);
        proof {
            assert(final(self)@.ops.drop_last() =~= old(self)@.ops);
            if old(self)@.wf() {
                let q = old(self)@.in_flight.insert(i as int, e0);
                assert(q.update(i as int, polled_to(e0, e2)) =~= final(self)@.in_flight);
            }
        }
    }

    /// The service.
    pub fn server_mut(&mut self) -> (s: &mut S)
        ensures
            *s == old(self)@.server,
            final(self)@.server == *final(s),
            final(self)@.transport == old(self)@.transport,
            final(self)@.in_flight == old(self)@.in_flight,
            final(self)@.ops == old(self)@.ops,
            final(self)@.taken == old(self)@.taken,
    {
        &mut self.server
    }

    /// The transport responsible for sending and receiving messages.
    pub fn transport_mut(&mut self) -> (t: &mut T)
        ensures
            *t == old(self)@.transport,
            final(self)@.transport == *final(t),
            final(self)@.server == old(self)@.server,
            final(self)@.in_flight == old(self)@.in_flight,
            final(self)@.ops == old(self)@.ops,
            final(self)@.taken == old(self)@.taken,
    {
        &mut self.transport
    }

    /// Drop every response in flight, when the handler goes away.
    pub fn clear_in_flight(&mut self)
        ensures
            final(self)@.in_flight == Seq::<InFlight<F, R>>::empty(),
            final(self)@.server == old(self)@.server,
            final(self)@.transport == old(self)@.transport,
    {
        self.in_flight.clear();
    }
}

impl<S, T, F, R> Handler for ServerHandler<S, T, F, R> {
    open spec fn spec_has_in_flight(&self) -> bool {
        self@.in_flight.len() > 0
    }

    fn has_in_flight(&self) -> (b: bool)
        ensures
            b == (self@.in_flight.len() > 0),
    {
        self.in_flight.len() != 0
    }
}

/// A handler has requests in flight exactly when its queue is nonempty:
/// every request taken in counts, whatever state its entry or any other is
/// in, until `produce` hands its response out.
pub proof fn law_in_flight_when_queue_nonempty<S, T, F, R>(h: ServerHandler<S, T, F, R>)
    ensures
        h.spec_has_in_flight() <==> h@.in_flight.len() > 0,
        h@.in_flight.len() > 0 ==> h.spec_has_in_flight(),
{
}

/// Bind a transport to a server: a driver over a handler with nothing in
/// flight, ready to read requests.
pub fn bind_server<S, T, F, R>(transport: T, server: S) -> (d: Driver<ServerHandler<S, T, F, R>>)
    ensures
        d@.handler@.server == server,
        d@.handler@.transport == transport,
        d@.handler@.in_flight == Seq::<InFlight<F, R>>::empty(),
        d@.handler@.ops == Seq::<QueueOp<F, R>>::empty(),
        d@.handler@.taken is None,
        d@.handler@.wf(),
        d@.run,
        d@.is_flushed,
{
    let handler = ServerHandler::new(server, transport);
    Driver::new(handler)
}

} // verus!
