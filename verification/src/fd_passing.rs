//! A framed transport that passes platform handles (file descriptors) along
//! with messages.
//!
//! Outgoing messages gather in a write buffer; a message that carries
//! descriptors closes the frame it ends, so that the descriptors travel with
//! that frame. Frames are sent in order; a frame sent only in part stays at
//! the head of the queue with what remains, and its descriptors, which went
//! out with the first part, are not sent again.

use vstd::prelude::*;
use bytes::{Bytes, BytesMut};
use std::collections::VecDeque;
use crate::buf::{
    bytes_clone, bytes_len, bytes_mut_reserve, bytes_mut_freeze, bytes_mut_is_empty,
    bytes_mut_len, bytes_mut_split, bytes_mut_unsplit, bytes_mut_view, bytes_mut_with_capacity,
    bytes_new, bytes_split_to, bytes_view, bytes_as_slice, bytes_mut_clone,
};
use crate::frame::{replay, queued_by, law_bytes_written_once_in_order, ReadState, SendStep, INITIAL_CAPACITY};
use crate::cmsg::{align_up, cmsg_space, groups_view, parse_rights, parse_rights_msgs, CmsgLayout};

verus! {

/// Above this many buffered bytes, the sink flushes before accepting more.
pub const BACKPRESSURE_THRESHOLD: usize = 4 * INITIAL_CAPACITY;

/// The number of descriptor triples the receive buffer is sized for.
pub const FDS_CAPACITY: usize = 16;

/// One unit of sending: message bytes and, possibly, the control message
/// that carries descriptors with them.
pub struct Frame {
    /// The message bytes.
    pub msgs: Bytes,
    /// The control message with the descriptors, if any.
    pub fds: Option<Bytes>,
}

/// The message bytes of a sequence of frames, one after the other.
pub open spec fn frames_bytes(frames: Seq<Frame>) -> Seq<u8>
    decreases frames.len(),
{
    if frames.len() == 0 {
        Seq::empty()
    } else {
        bytes_view(frames[0].msgs) + frames_bytes(frames.drop_first())
    }
}

/// Putting a frame in front of others puts its bytes in front.
pub proof fn lemma_frames_bytes_cons(f: Frame, rest: Seq<Frame>)
    ensures
        frames_bytes(seq![f] + rest) == bytes_view(f.msgs) + frames_bytes(rest),
{
    assert((seq![f] + rest).drop_first() =~= rest);
}

/// Appending a frame appends its bytes.
pub proof fn lemma_frames_bytes_push(frames: Seq<Frame>, f: Frame)
    ensures
        frames_bytes(frames.push(f)) == frames_bytes(frames) + bytes_view(f.msgs),
    decreases frames.len(),
{
    if frames.len() == 0 {
        assert(frames.push(f).drop_first() =~= Seq::<Frame>::empty());
        assert(frames_bytes(Seq::<Frame>::empty()) =~= Seq::<u8>::empty());
        assert(frames_bytes(frames.push(f)) =~= bytes_view(f.msgs));
    } else {
        assert(frames.push(f).drop_first() =~= frames.drop_first().push(f));
        lemma_frames_bytes_push(frames.drop_first(), f);
        assert(frames_bytes(frames.push(f)) =~= frames_bytes(frames) + bytes_view(f.msgs));
    }
}

/// The sending side of a descriptor-passing transport.
pub struct FrameQueue {
    frames: VecDeque<Frame>,
    write_buf: BytesMut,
    steps: Ghost<Seq<SendStep>>,
}

impl FrameQueue {
    /// The frames waiting to be sent, the next one first.
    pub closed spec fn frames(self) -> Seq<Frame> {
        self.frames@
    }

    /// The bytes encoded and not yet moved into a frame.
    pub closed spec fn buffered(self) -> Seq<u8> {
        bytes_mut_view(self.write_buf)
    }

    /// Everything encoded and not yet sent, in order.
    pub open spec fn pending(self) -> Seq<u8> {
        frames_bytes(self.frames()) + self.buffered()
    }

    /// The steps taken since the queue was made: each message queued by
    /// `start_send` and each send recorded by `sent`, in order.
    pub closed spec fn history(self) -> Seq<SendStep> {
        self.steps@
    }

    /// The queue agrees with its history: replaying the history from
    /// nothing leaves exactly what is pending.
    pub open spec fn wf(self) -> bool {
        match replay(Seq::empty(), self.history()) {
            Some((_, rest)) => rest == self.pending(),
            None => false,
        }
    }

    /// The bytes sent so far, in the order in which they went out.
    pub open spec fn written(self) -> Seq<u8> {
        replay(Seq::empty(), self.history()).unwrap().0
    }

    /// A queue with nothing to send.
    pub fn new() -> (q: FrameQueue)
        ensures
            q.frames() == Seq::<Frame>::empty(),
            q.buffered() == Seq::<u8>::empty(),
            q.history() == Seq::<SendStep>::empty(),
            q.wf(),
    {
        let q = FrameQueue {
            frames: VecDeque::new(),
            write_buf: bytes_mut_with_capacity(INITIAL_CAPACITY),
            steps: Ghost(Seq::empty()),
        };
        assert(q.pending() =~= Seq::<u8>::empty());
        q
    }

    /// The number of bytes buffered and not yet moved into a frame.
    pub fn buffered_len(&self) -> (n: usize)
        ensures
            n == self.buffered().len(),
    {
        bytes_mut_len(&self.write_buf)
    }

    /// Whether `start_send` takes `encoded`, with descriptors when `has_fds`:
    /// the buffer must stay within what an allocation can hold, and a
    /// message with descriptors must leave some bytes to carry them.
    pub fn accepts(&self, encoded: &BytesMut, has_fds: bool) -> (b: bool)
        ensures
            b == (self.buffered().len() + bytes_mut_view(*encoded).len() <= isize::MAX && (has_fds
                ==> self.buffered().len() + bytes_mut_view(*encoded).len() > 0)),
    {
        let a = bytes_mut_len(&self.write_buf) as u128;
        let e = bytes_mut_len(encoded) as u128;
        a + e <= isize::MAX as u128 && (!has_fds || a + e > 0)
    }

    /// The number of message bytes of the frame at the head of the queue.
    pub fn front_len(&self) -> (n: Option<usize>)
        ensures
            self.frames().len() > 0 ==> n is Some && n.unwrap() == bytes_view(
                self.frames()[0].msgs,
            ).len(),
            self.frames().len() == 0 ==> n is None,
    {
        if self.frames.len() == 0 {
            None
        } else {
            Some(bytes_len(&self.frames[0].msgs))
        }
    }

    /// Whether the buffer has grown past the backpressure threshold, so that
    /// the sink must flush before it reports itself ready.
    pub fn over_backpressure_threshold(&self) -> (b: bool)
        ensures
            b == (self.buffered().len() > BACKPRESSURE_THRESHOLD),
    {
        bytes_mut_len(&self.write_buf) > BACKPRESSURE_THRESHOLD
    }

    /// Close a frame: the buffered bytes become a frame at the back of the
    /// queue, with the given descriptors. With nothing buffered nothing
    /// happens, and then there must be no descriptors either.
    pub fn set_frame(&mut self, fds: Option<Bytes>)
        requires
            old(self).buffered().len() == 0 ==> fds is None,
        ensures
            final(self).history() == old(self).history(),
            old(self).wf() ==> final(self).wf(),
            old(self).buffered().len() == 0 ==> final(self).frames() == old(self).frames()
                && final(self).buffered() == old(self).buffered(),
            old(self).buffered().len() > 0 ==> {
                &&& final(self).buffered() == Seq::<u8>::empty()
                &&& final(self).frames().len() == old(self).frames().len() + 1
                &&& final(self).frames().drop_last() == old(self).frames()
                &&& bytes_view(final(self).frames().last().msgs) == old(self).buffered()
                &&& final(self).frames().last().fds == fds
            },
            final(self).pending() == old(self).pending(),
    {
        if bytes_mut_is_empty(&self.write_buf) {
            return;
        }
        let split = bytes_mut_split(&mut self.write_buf);
        let msgs = bytes_mut_freeze(split);
        let ghost f = Frame { msgs, fds };
        self.frames.push_back(Frame { msgs, fds });
        proof {
            lemma_frames_bytes_push(old(self).frames(), f);
            assert(final(self).frames().drop_last() =~= old(self).frames());
            assert(final(self).pending() =~= old(self).pending());
        }
    }

    /// Queue an encoded message; when it carries descriptors (`fds`, their
    /// control message), the message ends a frame of its own that carries
    /// them.
    pub fn start_send(&mut self, encoded: BytesMut, fds: Option<Bytes>)
        requires
            old(self).wf(),
            old(self).buffered().len() + bytes_mut_view(encoded).len() <= isize::MAX,
            fds is Some ==> old(self).buffered().len() + bytes_mut_view(encoded).len() > 0,
        ensures
            final(self).wf(),
            final(self).history() == old(self).history().push(
                SendStep::Queue(bytes_mut_view(encoded)),
            ),
            final(self).written() == old(self).written(),
            final(self).pending() == old(self).pending() + bytes_mut_view(encoded),
            fds is None ==> final(self).frames() == old(self).frames(),
            fds is Some ==> {
                &&& final(self).buffered() == Seq::<u8>::empty()
                &&& final(self).frames().drop_last() == old(self).frames()
                &&& final(self).frames().last().fds == fds
            },
    {
        let ghost e = bytes_mut_view(encoded);
        bytes_mut_unsplit(&mut self.write_buf, encoded);
        self.steps = Ghost(self.steps@.push(SendStep::Queue(e)));
        assert(self.pending() =~= old(self).pending() + e);
        assert(self.history().drop_last() =~= old(self).history());
        if fds.is_some() {
            self.set_frame(fds);
        }
    }

    /// Before sending: any buffered bytes become a frame without
    /// descriptors.
    pub fn begin_write(&mut self)
        ensures
            final(self).history() == old(self).history(),
            old(self).wf() ==> final(self).wf(),
            final(self).pending() == old(self).pending(),
            final(self).buffered() == Seq::<u8>::empty(),
            old(self).buffered().len() == 0 ==> final(self).frames() == old(self).frames(),
            old(self).buffered().len() > 0 ==> {
                &&& final(self).frames().len() == old(self).frames().len() + 1
                &&& final(self).frames().drop_last() == old(self).frames()
                &&& final(self).frames().last().fds is None
                &&& bytes_view(final(self).frames().last().msgs) == old(self).buffered()
            },
    {
        if !bytes_mut_is_empty(&self.write_buf) {
            self.set_frame(None);
        }
    }

    /// What to send next: the message bytes of the frame at the head of the
    /// queue, and its control message (empty when it carries no
    /// descriptors). `None` when no frame is pending.
    pub fn next_send(&self) -> (next: Option<(Bytes, Bytes)>)
        ensures
            match next {
                Some((msgs, cmsg)) => {
                    &&& self.frames().len() > 0
                    &&& bytes_view(msgs) == bytes_view(self.frames()[0].msgs)
                    &&& bytes_view(cmsg) == (match self.frames()[0].fds {
                        Some(f) => bytes_view(f),
                        None => Seq::<u8>::empty(),
                    })
                },
                None => self.frames().len() == 0,
            },
    {
        if self.frames.len() == 0 {
            return None;
        }
        let frame = &self.frames[0];
        let msgs = bytes_clone(&frame.msgs);
        let fds = match &frame.fds {
            Some(fds) => bytes_clone(fds),
            None => bytes_new(),
        };
        Some((msgs, fds))
    }

    /// `n` bytes of the frame at the head went out. The frame leaves the
    /// queue and its descriptors are handed back to be closed. When only
    /// part of it went out, the rest goes back to the head of the queue,
    /// without the descriptors, which went out with the first part, and is
    /// sent next.
    pub fn sent(&mut self, n: usize) -> (closed: Option<Bytes>)
        requires
            old(self).wf(),
            old(self).frames().len() > 0,
            n <= bytes_view(old(self).frames()[0].msgs).len(),
        ensures
            final(self).wf(),
            final(self).history() == old(self).history().push(SendStep::Wrote(n as nat)),
            final(self).written() == old(self).written() + bytes_view(
                old(self).frames()[0].msgs,
            ).take(n as int),
            final(self).pending() == old(self).pending().skip(n as int),
            bytes_view(old(self).frames()[0].msgs).take(n as int) == old(self).pending().take(
                n as int,
            ),
            final(self).buffered() == old(self).buffered(),
            closed == old(self).frames()[0].fds,
            n == bytes_view(old(self).frames()[0].msgs).len() ==> final(self).frames() == old(
                self,
            ).frames().drop_first(),
            n < bytes_view(old(self).frames()[0].msgs).len() ==> {
                &&& final(self).frames().len() == old(self).frames().len()
                &&& final(self).frames().drop_first() == old(self).frames().drop_first()
                &&& final(self).frames()[0].fds is None
                &&& bytes_view(final(self).frames()[0].msgs) == bytes_view(
                    old(self).frames()[0].msgs,
                ).skip(n as int)
            },
    {
        let ghost old_frames = self.frames@;
        proof {
            assert(old_frames =~= seq![old_frames[0]] + old_frames.drop_first());
            lemma_frames_bytes_cons(old_frames[0], old_frames.drop_first());
        }
        let popped = self.frames.pop_front();
        let mut frame = match popped {
            Some(f) => f,
            None => {
                proof {
                    assert(false);
                }
                return None;
            },
        };
        self.steps = Ghost(self.steps@.push(SendStep::Wrote(n as nat)));
        proof {
            assert(self.history().drop_last() =~= old(self).history());
        }
        let closed = frame.fds.take();
        let len = bytes_len(&frame.msgs);
        if n != len {
            let _sent_part = bytes_split_to(&mut frame.msgs, n);
            let ghost nf = frame;
            self.frames.push_front(frame);
            proof {
                lemma_frames_bytes_cons(nf, old_frames.drop_first());
                assert(self.frames@ =~= seq![nf] + old_frames.drop_first());
                let a = bytes_view(old_frames[0].msgs);
                let b = frames_bytes(old_frames.drop_first());
                let c = bytes_mut_view(self.write_buf);
                assert((a + b + c).skip(n as int) =~= a.skip(n as int) + b + c);
                assert(a.take(n as int) =~= (a + b + c).take(n as int));
                assert(self.frames@.drop_first() =~= old_frames.drop_first());
            }
            closed
        } else {
            proof {
                let a = bytes_view(old_frames[0].msgs);
                let b = frames_bytes(old_frames.drop_first());
                let c = bytes_mut_view(self.write_buf);
                assert((a + b + c).skip(n as int) =~= b + c);
                assert(a.take(n as int) =~= (a + b + c).take(n as int));
            }
            closed
        }
    }
}

/// No byte is skipped, sent twice or reordered: at every point of any run
/// of a queue's methods, the bytes sent so far followed by those still
/// pending are exactly the messages queued by `start_send`, in order.
pub proof fn law_queue_sends_once_in_order(q: FrameQueue)
    requires
        q.wf(),
    ensures
        q.written() + q.pending() == queued_by(q.history()),
{
    law_bytes_written_once_in_order(Seq::empty(), q.history());
    assert(Seq::<u8>::empty() + queued_by(q.history()) =~= queued_by(q.history()));
}

/// Descriptors received alongside messages: the raw control messages, and
/// the descriptor groups parsed out of them and not yet handed out.
pub struct IncomingFds {
    cmsg: BytesMut,
    recv_fds: Option<VecDeque<Vec<i32>>>,
    layout: CmsgLayout,
    cmsg_space: usize,
    parsed: Ghost<Seq<Seq<i32>>>,
    handed: Ghost<Seq<Seq<i32>>>,
}

/// Copy a slice of three descriptors into an array.
pub fn clone_into_array(slice: &[i32]) -> (a: [i32; 3])
    requires
        slice@.len() == 3,
    ensures
        a@ == slice@,
{
    let a = [slice[0], slice[1], slice[2]];
    assert(a@ =~= slice@);
    a
}

/// The room one control message with a descriptor triple takes.
pub open spec fn triple_space(l: CmsgLayout) -> int {
    align_up(l.hdr() + 12, l.align as int)
}

impl IncomingFds {
    /// The control message bytes received and not yet parsed.
    pub closed spec fn buffered(self) -> Seq<u8> {
        bytes_mut_view(self.cmsg)
    }

    /// The descriptor groups parsed and not yet handed out, in order.
    pub closed spec fn queued(self) -> Seq<Seq<i32>> {
        match self.recv_fds {
            Some(q) => Seq::new(q@.len(), |i: int| q@[i]@),
            None => Seq::empty(),
        }
    }

    /// The control message layout.
    pub closed spec fn layout(self) -> CmsgLayout {
        self.layout
    }

    /// The room reserved in the buffer before each receive.
    pub closed spec fn room(self) -> usize {
        self.cmsg_space
    }

    /// Every descriptor group parsed out of the received control messages
    /// so far, in the order received.
    pub closed spec fn parsed(self) -> Seq<Seq<i32>> {
        self.parsed@
    }

    /// Every descriptor group handed out by `take_fds` so far, in order.
    pub closed spec fn handed(self) -> Seq<Seq<i32>> {
        self.handed@
    }

    /// The store agrees with its history: the groups handed out, followed
    /// by those waiting, are the groups parsed.
    pub open spec fn wf(self) -> bool {
        self.handed() + self.queued() == self.parsed()
    }

    /// The group `take_fds` hands out next, if any: the oldest parsed one,
    /// or else the first one in the buffered control messages.
    pub open spec fn next_group(self) -> Option<Seq<i32>> {
        if self.queued().len() > 0 {
            Some(self.queued()[0])
        } else if parse_rights(self.layout(), self.buffered()).len() > 0 {
            Some(parse_rights(self.layout(), self.buffered())[0])
        } else {
            None
        }
    }

    /// An empty store, its buffer sized for `c` control messages that each
    /// pass a descriptor triple in `layout`.
    pub fn new(c: usize, layout: CmsgLayout) -> (s: IncomingFds)
        requires
            layout.wf(),
            c * triple_space(layout) <= isize::MAX,
        ensures
            s.layout() == layout,
            s.room() == triple_space(layout),
            s.buffered() == Seq::<u8>::empty(),
            s.queued() == Seq::<Seq<i32>>::empty(),
            s.parsed() == Seq::<Seq<i32>>::empty(),
            s.handed() == Seq::<Seq<i32>>::empty(),
            s.wf(),
    {
        let cmsg_space = cmsg_space(&layout, 12);
        let capacity = c * cmsg_space;
        let s = IncomingFds {
            cmsg: bytes_mut_with_capacity(capacity),
            recv_fds: None,
            layout,
            cmsg_space,
            parsed: Ghost(Seq::empty()),
            handed: Ghost(Seq::empty()),
        };
        assert(s.handed() + s.queued() =~= s.parsed());
        s
    }

    /// The control message layout.
    pub fn cmsg_layout(&self) -> (l: CmsgLayout)
        ensures
            l == self.layout(),
    {
        self.layout
    }

    /// The room reserved in the buffer before each receive.
    pub fn cmsg_room(&self) -> (n: usize)
        ensures
            n == self.room(),
    {
        self.cmsg_space
    }

    /// The number of control message bytes received and not yet parsed.
    pub fn buffered_len(&self) -> (n: usize)
        ensures
            n == self.buffered().len(),
    {
        bytes_mut_len(&self.cmsg)
    }

    /// The number of descriptor groups parsed and not yet handed out.
    pub fn queued_len(&self) -> (n: usize)
        ensures
            n == self.queued().len(),
    {
        match &self.recv_fds {
            Some(q) => q.len(),
            None => 0,
        }
    }

    /// Whether the group `take_fds` hands out next, if there is one, holds
    /// three descriptors, as `take_fds` needs.
    pub fn next_group_is_triple(&self) -> (ok: bool)
        requires
            self.layout().wf(),
        ensures
            ok == (self.next_group() is None || self.next_group().unwrap().len() == 3),
    {
        if let Some(q) = &self.recv_fds {
            if q.len() > 0 {
                assert(self.queued()[0] == q@[0]@);
                return q[0].len() == 3;
            }
        }
        let frozen = bytes_mut_freeze(bytes_mut_clone(&self.cmsg));
        let groups = parse_rights_msgs(&self.layout, bytes_as_slice(&frozen));
        if groups.len() == 0 {
            true
        } else {
            assert(groups_view(groups@)[0] == groups@[0]@);
            groups[0].len() == 3
        }
    }

    /// The control message buffer, with room reserved for one more control
    /// message with a descriptor triple, for received control messages to
    /// be appended to.
    pub fn cmsg(&mut self) -> (b: &mut BytesMut)
        requires
            old(self).buffered().len() + old(self).room() <= isize::MAX,
        ensures
            bytes_mut_view(*b) == old(self).buffered(),
            final(self).buffered() == bytes_mut_view(*final(b)),
            final(self).queued() == old(self).queued(),
            final(self).room() == old(self).room(),
            final(self).layout() == old(self).layout(),
            final(self).parsed() == old(self).parsed(),
            final(self).handed() == old(self).handed(),
    {
        bytes_mut_reserve(&mut self.cmsg, self.cmsg_space);
        &mut self.cmsg
    }

    /// Hand out the oldest parsed group as a triple, if there is one.
    fn pop_triple(&mut self) -> (a: Option<[i32; 3]>)
        requires
            old(self).queued().len() > 0 ==> old(self).queued()[0].len() == 3,
        ensures
            final(self).buffered() == old(self).buffered(),
            final(self).room() == old(self).room(),
            final(self).layout() == old(self).layout(),
            final(self).parsed() == old(self).parsed(),
            match a {
                Some(t) => {
                    &&& old(self).queued().len() > 0
                    &&& t@ == old(self).queued()[0]
                    &&& final(self).queued() == old(self).queued().drop_first()
                    &&& final(self).handed() == old(self).handed().push(t@)
                },
                None => {
                    &&& old(self).queued().len() == 0
                    &&& final(self).queued() == old(self).queued()
                    &&& final(self).handed() == old(self).handed()
                },
            },
    {
        let r = match &mut self.recv_fds {
            Some(q) => q.pop_front(),
            None => None,
        };
        match r {
            Some(g) => {
                proof {
                    assert(g@ == old(self).queued()[0]);
                    assert(self.queued() =~= old(self).queued().drop_first());
                }
                self.handed = Ghost(self.handed@.push(g@));
                Some(clone_into_array(g.as_slice()))
            },
            None => None,
        }
    }

    /// The next received descriptor triple: the oldest one parsed and not
    /// yet handed out; when none is left, the buffered control messages are
    /// parsed, and the first group found in them is handed out. `None`
    /// when no descriptors were received that have not been handed out.
    pub fn take_fds(&mut self) -> (r: Option<[i32; 3]>)
        requires
            old(self).layout().wf(),
            old(self).next_group() is Some ==> old(self).next_group().unwrap().len() == 3,
        ensures
            final(self).room() == old(self).room(),
            final(self).layout() == old(self).layout(),
            old(self).wf() ==> final(self).wf(),
            match r {
                Some(t) => {
                    &&& old(self).next_group() == Some(t@)
                    &&& final(self).handed() == old(self).handed().push(t@)
                },
                None => {
                    &&& old(self).next_group() is None
                    &&& final(self).handed() == old(self).handed()
                },
            },
            old(self).queued().len() > 0 ==> final(self).parsed() == old(self).parsed(),
            old(self).queued().len() == 0 ==> final(self).parsed() == old(self).parsed()
                + parse_rights(old(self).layout(), old(self).buffered()),
            old(self).queued().len() > 0 ==> {
                &&& final(self).queued() == old(self).queued().drop_first()
                &&& final(self).buffered() == old(self).buffered()
            },
            old(self).queued().len() == 0 ==> {
                let g = parse_rights(old(self).layout(), old(self).buffered());
                &&& final(self).buffered() == Seq::<u8>::empty()
                &&& g.len() == 0 ==> final(self).queued() == Seq::<Seq<i32>>::empty()
                &&& g.len() > 0 ==> final(self).queued() == g.drop_first()
            },
    {
        let first = self.pop_triple();
        if first.is_some() {
            proof {
                if old(self).wf() {
                    let t = old(self).queued()[0];
                    assert(old(self).queued() =~= seq![t] + old(self).queued().drop_first());
                    assert(self.handed() + self.queued() =~= old(self).handed() + old(
                        self,
                    ).queued());
                }
            }
            return first;
        }
        if bytes_mut_is_empty(&self.cmsg) {
            proof {
                assert(parse_rights(old(self).layout(), old(self).buffered()) == Seq::<
                    Seq<i32>,
                >::empty());
                assert(self.parsed() =~= old(self).parsed() + Seq::<Seq<i32>>::empty());
            }
            return None;
        }
        let taken = bytes_mut_split(&mut self.cmsg);
        let frozen = bytes_mut_freeze(taken);
        let groups = parse_rights_msgs(&self.layout, bytes_as_slice(&frozen));
        let ghost gv = groups_view(groups@);
        let mut q: VecDeque<Vec<i32>> = VecDeque::new();
        let mut groups = groups;
        // Keep the groups in order: reverse them, then move each to the back
        // of the queue.
        let mut rev: Vec<Vec<i32>> = Vec::new();
        while groups.len() > 0
            invariant
                groups_view(groups@) + groups_view(rev@).reverse() == gv,
            decreases groups@.len(),
        {
            let g = groups.pop().unwrap();
            let ghost before = rev@;
            rev.push(g);
            proof {
                assert(groups_view(groups@) + groups_view(rev@).reverse() =~= gv) by {
                    assert(groups_view(rev@).reverse() =~= seq![g@] + groups_view(before).reverse());
                }
            }
        }
        while rev.len() > 0
            invariant
                Seq::new(q@.len(), |j: int| q@[j]@) + groups_view(rev@).reverse() == gv,
            decreases rev@.len(),
        {
            let g = rev.pop().unwrap();
            let ghost before = q@;
            q.push_back(g);
            proof {
                assert(Seq::new(q@.len(), |j: int| q@[j]@) =~= Seq::new(before.len(), |j: int|
                    before[j]@).push(g@));
            }
        }
        assert(Seq::new(q@.len(), |j: int| q@[j]@) =~= gv);
        self.recv_fds = Some(q);
        self.parsed = Ghost(self.parsed@ + gv);
        let ghost mid_handed = self.handed@;
        let r = self.pop_triple();
        proof {
            if old(self).wf() && gv.len() > 0 {
                assert(old(self).queued() =~= Seq::<Seq<i32>>::empty());
                assert(old(self).handed() =~= old(self).parsed());
                assert(gv =~= seq![gv[0]] + gv.drop_first());
                assert(self.handed() + self.queued() =~= self.parsed());
            }
            if old(self).wf() && gv.len() == 0 {
                assert(old(self).handed() =~= old(self).parsed());
                assert(self.handed() + self.queued() =~= self.parsed());
            }
        }
        r
    }
}

/// Descriptors are handed out in the order they were received, each once:
/// at every point of any run of a store's methods, the groups handed out by
/// `take_fds`, followed by those waiting, are exactly the groups parsed out
/// of the received control messages, in order; so the next group handed
/// out, while some wait, is the first parsed one not handed out yet.
pub proof fn law_fds_handed_out_in_order(s: IncomingFds)
    requires
        s.wf(),
    ensures
        s.handed() + s.queued() == s.parsed(),
        s.handed().len() <= s.parsed().len(),
        s.handed() == s.parsed().take(s.handed().len() as int),
        s.queued().len() > 0 ==> s.next_group() == Some(s.parsed()[s.handed().len() as int]),
{
    assert(s.parsed().take(s.handed().len() as int) =~= s.handed());
    if s.queued().len() > 0 {
        assert(s.parsed()[s.handed().len() as int] == s.queued()[0]);
    }
}

/// A unified stream and sink over an I/O object that passes platform
/// handles, using a codec to encode and decode the payload.
pub struct FramedWithPlatformHandles<A, C> {
    /// The I/O object.
    pub io: A,
    /// The codec.
    pub codec: C,
    /// The bytes read and not yet decoded.
    pub read_buf: BytesMut,
    /// The descriptors received.
    pub incoming_fds: IncomingFds,
    /// The state of the reading side.
    pub reader: ReadState,
    /// The frames to send.
    pub writer: FrameQueue,
    /// The buffer in which control messages for outgoing descriptors are
    /// built.
    pub outgoing_fds: BytesMut,
}

impl<A, C> FramedWithPlatformHandles<A, C> {
    /// Whether the sink must flush before it is ready to accept a message:
    /// when more than the backpressure threshold is buffered.
    pub fn poll_ready_needs_flush(&self) -> (b: bool)
        ensures
            b == (self.writer.buffered().len() > BACKPRESSURE_THRESHOLD),
    {
        self.writer.over_backpressure_threshold()
    }
}

/// A descriptor-passing framed transport over `io` with `codec`, with empty
/// buffers, nothing read and nothing to send; control messages are in
/// `layout`.
pub fn framed_with_platformhandles<A, C>(io: A, codec: C, layout: CmsgLayout) -> (f:
    FramedWithPlatformHandles<A, C>)
    requires
        layout.wf(),
    ensures
        f.io == io,
        f.codec == codec,
        bytes_mut_view(f.read_buf) == Seq::<u8>::empty(),
        f.incoming_fds.buffered() == Seq::<u8>::empty(),
        f.incoming_fds.queued() == Seq::<Seq<i32>>::empty(),
        f.incoming_fds.layout() == layout,
        f.incoming_fds.parsed() == Seq::<Seq<i32>>::empty(),
        f.incoming_fds.handed() == Seq::<Seq<i32>>::empty(),
        f.incoming_fds.wf(),
        f.incoming_fds.room() == triple_space(layout),
        !f.reader.readable(),
        !f.reader.at_eof(),
        !f.reader.has_ended(),
        f.writer.frames() == Seq::<Frame>::empty(),
        f.writer.buffered() == Seq::<u8>::empty(),
        f.writer.history() == Seq::<SendStep>::empty(),
        f.writer.wf(),
        bytes_mut_view(f.outgoing_fds) == Seq::<u8>::empty(),
{
    let space = cmsg_space(&layout, 12);
    FramedWithPlatformHandles {
        io,
        codec,
        read_buf: bytes_mut_with_capacity(INITIAL_CAPACITY),
        incoming_fds: IncomingFds::new(FDS_CAPACITY, layout),
        reader: ReadState::new(),
        writer: FrameQueue::new(),
        outgoing_fds: bytes_mut_with_capacity(FDS_CAPACITY * space),
    }
}

} // verus!
