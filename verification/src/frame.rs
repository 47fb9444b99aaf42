//! A framed transport over an I/O object: outgoing messages are encoded into
//! a write buffer and written out as frames; incoming bytes are gathered in a
//! read buffer and decoded into messages.
//!
//! The I/O object and the codec are driven by the caller; this module holds
//! the buffers and decides, from what each I/O call returned, what happens
//! next.

use vstd::prelude::*;
use bytes::{Bytes, BytesMut};
use crate::buf::{
    bytes_clone, bytes_len, bytes_split_to, bytes_mut_freeze, bytes_mut_len, bytes_mut_is_empty, bytes_mut_split,
    bytes_mut_unsplit, bytes_mut_view, bytes_mut_with_capacity, bytes_view,
};

verus! {

/// Capacity with which the read and write buffers start out.
pub const INITIAL_CAPACITY: usize = 1024;

/// What the reading side of a framed transport does next.
pub enum ReadAction {
    /// The input has ended: decode a remaining message with `decode_eof`.
    DecodeEof,
    /// Try to decode a message from the bytes read so far.
    Decode,
    /// Nothing more can be decoded: read more bytes from the I/O object.
    Read,
    /// The input has ended and nothing more could be decoded: the stream is
    /// terminated.
    Ended,
}

/// The state of the reading side of a framed transport.
///
/// "Readable" means that the decoder has not yet reported that it needs more
/// bytes. Once the I/O object has reported the end of its input, the state
/// stays readable, so the decoder is never asked for more input after the
/// end; once `decode_eof` finds nothing more, the stream has ended for good.
pub struct ReadState {
    is_readable: bool,
    eof: bool,
    ended: bool,
}

impl ReadState {
    #[verifier::type_invariant]
    spec fn wf(self) -> bool {
        &&& self.eof ==> self.is_readable
        &&& self.ended ==> self.eof
    }

    /// Whether the decoder may still have a message in the bytes read.
    pub closed spec fn readable(self) -> bool {
        self.is_readable
    }

    /// Whether the I/O object has reported the end of its input.
    pub closed spec fn at_eof(self) -> bool {
        self.eof
    }

    /// Whether the stream has ended.
    pub closed spec fn has_ended(self) -> bool {
        self.ended
    }

    /// The action that the current state calls for.
    pub open spec fn spec_next_action(self) -> ReadAction {
        if self.has_ended() {
            ReadAction::Ended
        } else if self.readable() && self.at_eof() {
            ReadAction::DecodeEof
        } else if self.readable() {
            ReadAction::Decode
        } else {
            ReadAction::Read
        }
    }

    /// A transport that has read nothing yet.
    pub fn new() -> (s: ReadState)
        ensures
            !s.readable(),
            !s.at_eof(),
            !s.has_ended(),
    {
        ReadState { is_readable: false, eof: false, ended: false }
    }

    /// Repeatedly decode as long as the state is readable, with
    /// `decode_eof` once the input has ended, until that finds nothing more;
    /// otherwise read more.
    pub fn next_action(&self) -> (a: ReadAction)
        ensures
            a == self.spec_next_action(),
            a is Read ==> !self.at_eof(),
            self.at_eof() ==> (a is DecodeEof || a is Ended),
            self.has_ended() <==> a is Ended,
            self.has_ended() ==> self.at_eof(),
            self.at_eof() ==> self.readable(),
    {
        proof {
            use_type_invariant(self);
        }
        if self.ended {
            ReadAction::Ended
        } else if self.is_readable {
            if self.eof {
                ReadAction::DecodeEof
            } else {
                ReadAction::Decode
            }
        } else {
            ReadAction::Read
        }
    }

    /// The decoder found no complete message in the bytes read: the next
    /// action is to read more.
    pub fn decoded_nothing(&mut self)
        requires
            old(self).spec_next_action() is Decode,
        ensures
            final(self).spec_next_action() is Read,
            !final(self).readable(),
            !final(self).at_eof(),
            !final(self).has_ended(),
    {
        proof {
            use_type_invariant(&*self);
        }
        *self = ReadState { is_readable: false, eof: false, ended: false };
    }

    /// After the end of the input, `decode_eof` found nothing more: the
    /// stream has ended, and every later action is `Ended`.
    pub fn decoded_nothing_at_eof(&mut self)
        requires
            old(self).spec_next_action() is DecodeEof,
        ensures
            final(self).spec_next_action() is Ended,
            final(self).has_ended(),
            final(self).at_eof(),
    {
        proof {
            use_type_invariant(&*self);
        }
        *self = ReadState { is_readable: true, eof: true, ended: true };
    }

    /// A read completed with `n` bytes; zero bytes means the end of the
    /// input. Either way the decoder gets to look at the buffer again.
    pub fn read_completed(&mut self, n: usize)
        requires
            old(self).spec_next_action() is Read,
        ensures
            final(self).readable(),
            final(self).at_eof() == (n == 0),
            !final(self).has_ended(),
            final(self).spec_next_action() == (if n == 0 {
                ReadAction::DecodeEof
            } else {
                ReadAction::Decode
            }),
    {
        proof {
            use_type_invariant(&*self);
        }
        *self = ReadState { is_readable: true, eof: n == 0, ended: false };
    }
}

/// Once ended, a stream stays ended: no step applies to an ended state
/// (each requires another action), so its action is `Ended` on every later
/// poll.
pub proof fn law_end_is_final(s: ReadState)
    requires
        s.has_ended(),
    ensures
        s.spec_next_action() is Ended,
        !(s.spec_next_action() is Decode),
        !(s.spec_next_action() is DecodeEof),
        !(s.spec_next_action() is Read),
{
}

/// The writing side of a framed transport: encoded messages gather in the
/// write buffer; the frame is the chunk of it currently being written.
pub struct FrameWriter {
    write_buf: BytesMut,
    frame: Option<Bytes>,
    steps: Ghost<Seq<SendStep>>,
}

impl FrameWriter {
    /// The bytes encoded and not yet moved into a frame.
    pub closed spec fn buffered(self) -> Seq<u8> {
        bytes_mut_view(self.write_buf)
    }

    /// The bytes of the frame being written, if there is one.
    pub closed spec fn current_frame(self) -> Option<Seq<u8>> {
        match self.frame {
            Some(f) => Some(bytes_view(f)),
            None => None,
        }
    }

    /// Everything encoded and not yet done with, in order: the frame being
    /// written, then the buffered bytes.
    pub open spec fn pending(self) -> Seq<u8> {
        match self.current_frame() {
            Some(f) => f + self.buffered(),
            None => self.buffered(),
        }
    }

    /// The steps taken since the writer was made: each message queued by
    /// `start_send` and each write recorded by `frame_written`, in order.
    pub closed spec fn history(self) -> Seq<SendStep> {
        self.steps@
    }

    /// The writer agrees with its history: replaying the history from
    /// nothing leaves exactly what is pending.
    pub open spec fn wf(self) -> bool {
        match replay(Seq::empty(), self.history()) {
            Some((_, rest)) => rest == self.pending(),
            None => false,
        }
    }

    /// The bytes written so far, in the order in which they went out.
    pub open spec fn written(self) -> Seq<u8> {
        replay(Seq::empty(), self.history()).unwrap().0
    }

    /// A writer with nothing to write.
    pub fn new() -> (w: FrameWriter)
        ensures
            w.buffered() == Seq::<u8>::empty(),
            w.current_frame() is None,
            w.history() == Seq::<SendStep>::empty(),
            w.wf(),
    {
        FrameWriter {
            write_buf: bytes_mut_with_capacity(INITIAL_CAPACITY),
            frame: None,
            steps: Ghost(Seq::empty()),
        }
    }

    /// The number of bytes buffered and not yet moved into a frame.
    pub fn buffered_len(&self) -> (n: usize)
        ensures
            n == self.buffered().len(),
    {
        bytes_mut_len(&self.write_buf)
    }

    /// Queue an encoded message behind what is already buffered.
    pub fn start_send(&mut self, encoded: BytesMut)
        requires
            old(self).wf(),
            old(self).buffered().len() + bytes_mut_view(encoded).len() <= isize::MAX,
        ensures
            final(self).wf(),
            final(self).history() == old(self).history().push(
                SendStep::Queue(bytes_mut_view(encoded)),
            ),
            final(self).written() == old(self).written(),
            final(self).buffered() == old(self).buffered() + bytes_mut_view(encoded),
            final(self).current_frame() == old(self).current_frame(),
            final(self).pending() == old(self).pending() + bytes_mut_view(encoded),
    {
        let ghost e = bytes_mut_view(encoded);
        bytes_mut_unsplit(&mut self.write_buf, encoded);
        self.steps = Ghost(self.steps@.push(SendStep::Queue(e)));
        proof {
            assert(self.history().drop_last() =~= old(self).history());
            if let Some(f) = old(self).current_frame() {
                assert(f + (old(self).buffered() + bytes_mut_view(encoded)) =~= (f
                    + old(self).buffered()) + bytes_mut_view(encoded));
            }
        }
    }

    /// Move the buffered bytes, if any, into the frame to write.
    fn set_frame(&mut self)
        requires
            old(self).current_frame() is None,
        ensures
            final(self).history() == old(self).history(),
            old(self).buffered().len() == 0 ==> *final(self) == *old(self),
            old(self).buffered().len() > 0 ==> {
                &&& final(self).current_frame() == Some(old(self).buffered())
                &&& final(self).buffered() == Seq::<u8>::empty()
            },
    {
        if bytes_mut_is_empty(&self.write_buf) {
            return;
        }
        let msgs = bytes_mut_split(&mut self.write_buf);
        self.frame = Some(bytes_mut_freeze(msgs));
    }

    /// The frame to write next: when there is none, the buffered bytes
    /// become one. `None` means that nothing is left to write.
    pub fn next_frame(&mut self) -> (f: Option<Bytes>)
        ensures
            final(self).history() == old(self).history(),
            old(self).wf() ==> final(self).wf(),
            final(self).pending() == old(self).pending(),
            old(self).current_frame() is Some ==> {
                &&& *final(self) == *old(self)
                &&& f is Some
                &&& Some(bytes_view(f.unwrap())) == old(self).current_frame()
            },
            old(self).current_frame() is None && old(self).buffered().len() > 0 ==> {
                &&& f is Some
                &&& bytes_view(f.unwrap()) == old(self).buffered()
                &&& final(self).current_frame() == Some(old(self).buffered())
                &&& final(self).buffered() == Seq::<u8>::empty()
            },
            old(self).current_frame() is None && old(self).buffered().len() == 0 ==> {
                &&& f is None
                &&& *final(self) == *old(self)
            },
    {
        if self.frame.is_none() {
            self.set_frame();
            proof {
                assert(final(self).pending() =~= old(self).pending());
            }
        }
        match &self.frame {
            Some(frame) => Some(bytes_clone(frame)),
            None => None,
        }
    }

    /// The length of the frame being written, if there is one.
    pub fn current_frame_len(&self) -> (n: Option<usize>)
        ensures
            match self.current_frame() {
                Some(f) => n is Some && n.unwrap() == f.len(),
                None => n is None,
            },
    {
        match &self.frame {
            Some(frame) => Some(bytes_len(frame)),
            None => None,
        }
    }

    /// Whether `encoded` can be queued behind the buffered bytes without
    /// the buffer outgrowing what an allocation can hold.
    pub fn fits(&self, encoded: &BytesMut) -> (b: bool)
        ensures
            b == (self.buffered().len() + bytes_mut_view(*encoded).len() <= isize::MAX),
    {
        let a = bytes_mut_len(&self.write_buf);
        let e = bytes_mut_len(encoded);
        a as u128 + e as u128 <= isize::MAX as u128
    }

    /// A write of `n` bytes of the current frame completed: those bytes are
    /// done with and the rest of the frame is written next; once nothing of
    /// it remains, there is no current frame.
    pub fn frame_written(&mut self, n: usize)
        requires
            old(self).wf(),
            old(self).current_frame() is Some,
            n <= old(self).current_frame().unwrap().len(),
        ensures
            final(self).wf(),
            final(self).history() == old(self).history().push(SendStep::Wrote(n as nat)),
            final(self).written() == old(self).written() + old(self).current_frame().unwrap().take(
                n as int,
            ),
            final(self).buffered() == old(self).buffered(),
            n == old(self).current_frame().unwrap().len() ==> final(self).current_frame() is None,
            n < old(self).current_frame().unwrap().len() ==> final(self).current_frame() == Some(
                old(self).current_frame().unwrap().skip(n as int),
            ),
            final(self).pending() == old(self).pending().skip(n as int),
            old(self).current_frame().unwrap().take(n as int) == old(self).pending().take(n as int),
    {
        let mut frame: Option<Bytes> = None;
        std::mem::swap(&mut frame, &mut self.frame);
        self.steps = Ghost(self.steps@.push(SendStep::Wrote(n as nat)));
        assert(self.history().drop_last() =~= old(self).history());
        match frame {
            Some(mut f) => {
                let _written = bytes_split_to(&mut f, n);
                if bytes_len(&f) > 0 {
                    self.frame = Some(f);
                }
                proof {
                    let of = old(self).current_frame().unwrap();
                    let bb = old(self).buffered();
                    assert((of + bb).skip(n as int) =~= of.skip(n as int) + bb);
                    assert(of.take(n as int) =~= (of + bb).take(n as int));
                    if n == of.len() {
                        assert(of.skip(n as int) =~= Seq::<u8>::empty());
                        assert(final(self).pending() =~= old(self).pending().skip(n as int));
                    }
                }
            },
            None => {},
        }
    }
}

/// A step of a sending side, as it changes what is pending: encoded bytes
/// queued behind the rest, or `n` bytes written out from the front.
pub enum SendStep {
    Queue(Seq<u8>),
    Wrote(nat),
}

/// Replay steps from `pending`: the bytes written out, in order, and what
/// is left pending; `None` when some step writes more than is pending.
pub open spec fn replay(pending: Seq<u8>, steps: Seq<SendStep>) -> Option<(Seq<u8>, Seq<u8>)>
    decreases steps.len(),
{
    if steps.len() == 0 {
        Some((Seq::empty(), pending))
    } else {
        match replay(pending, steps.drop_last()) {
            None => None,
            Some((out, rest)) => match steps.last() {
                SendStep::Queue(e) => Some((out, rest + e)),
                SendStep::Wrote(n) => if n <= rest.len() {
                    Some((out + rest.take(n as int), rest.skip(n as int)))
                } else {
                    None
                },
            },
        }
    }
}

/// Everything the steps queue, in order.
pub open spec fn queued_by(steps: Seq<SendStep>) -> Seq<u8>
    decreases steps.len(),
{
    if steps.len() == 0 {
        Seq::empty()
    } else {
        queued_by(steps.drop_last()) + match steps.last() {
            SendStep::Queue(e) => e,
            SendStep::Wrote(_) => Seq::empty(),
        }
    }
}

/// No byte is skipped, written twice or reordered: over any run of queueing
/// and writing, the bytes written so far followed by those still pending are
/// the bytes pending at the start followed by everything queued, in order.
pub proof fn law_bytes_written_once_in_order(pending: Seq<u8>, steps: Seq<SendStep>)
    requires
        replay(pending, steps) is Some,
    ensures
        replay(pending, steps).unwrap().0 + replay(pending, steps).unwrap().1 == pending
            + queued_by(steps),
    decreases steps.len(),
{
    if steps.len() == 0 {
        assert(pending + Seq::<u8>::empty() =~= pending);
        assert(Seq::<u8>::empty() + pending =~= pending);
    } else {
        law_bytes_written_once_in_order(pending, steps.drop_last());
        let (out, rest) = replay(pending, steps.drop_last()).unwrap();
        match steps.last() {
            SendStep::Queue(e) => {
                assert(out + (rest + e) =~= (out + rest) + e);
                assert(pending + queued_by(steps) =~= (pending + queued_by(steps.drop_last()))
                    + e);
            },
            SendStep::Wrote(n) => {
                assert((out + rest.take(n as int)) + rest.skip(n as int) =~= out + rest);
                assert(queued_by(steps) =~= queued_by(steps.drop_last()));
            },
        }
    }
}

/// No byte is skipped, written twice or reordered: at every point of any run
/// of a writer's methods, the bytes written so far followed by those still
/// pending are exactly the messages queued by `start_send`, in order.
pub proof fn law_writer_writes_once_in_order(w: FrameWriter)
    requires
        w.wf(),
    ensures
        w.written() + w.pending() == queued_by(w.history()),
{
    law_bytes_written_once_in_order(Seq::empty(), w.history());
    assert(Seq::<u8>::empty() + queued_by(w.history()) =~= queued_by(w.history()));
}

/// A unified stream and sink over an I/O object, using a codec to encode and
/// decode the payload.
pub struct Framed<A, C> {
    /// The I/O object.
    pub io: A,
    /// The codec.
    pub codec: C,
    /// The bytes read and not yet decoded.
    pub read_buf: BytesMut,
    /// The state of the reading side.
    pub reader: ReadState,
    /// The writing side.
    pub writer: FrameWriter,
}

/// A framed transport over `io` with `codec`, with empty buffers and
/// nothing read yet.
pub fn framed<A, C>(io: A, codec: C) -> (f: Framed<A, C>)
    ensures
        f.io == io,
        f.codec == codec,
        bytes_mut_view(f.read_buf) == Seq::<u8>::empty(),
        !f.reader.readable(),
        !f.reader.at_eof(),
        !f.reader.has_ended(),
        f.writer.pending() == Seq::<u8>::empty(),
        f.writer.current_frame() is None,
        f.writer.history() == Seq::<SendStep>::empty(),
        f.writer.wf(),
{
    Framed {
        io,
        codec,
        read_buf: bytes_mut_with_capacity(INITIAL_CAPACITY),
        reader: ReadState::new(),
        writer: FrameWriter::new(),
    }
}

} // verus!
