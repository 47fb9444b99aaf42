//! Decisions of the asynchronous Unix-socket stream: what a nonblocking
//! system call's result means for the poll that made it, and the future that
//! resolves to a connected stream.

use vstd::prelude::*;

verus! {

/// What a nonblocking I/O attempt comes to.
pub enum IoOutcome<T, E> {
    /// The call completed with this value.
    Ready(T),
    /// The call failed with this error.
    Failed(E),
    /// The object was not ready after all: its readiness is cleared and the
    /// poll is pending.
    Retry,
}

/// The outcome of a call that returned `r`, where a failure that would
/// block (`would_block`, for the error of an `Err`) means "try again later".
pub fn io_outcome<T, E>(r: Result<T, E>, would_block: bool) -> (o: IoOutcome<T, E>)
    ensures
        o == (match r {
            Ok(t) => IoOutcome::Ready(t),
            Err(e) => if would_block {
                IoOutcome::Retry
            } else {
                IoOutcome::Failed(e)
            },
        }),
{
    match r {
        Ok(t) => IoOutcome::Ready(t),
        Err(e) => {
            if would_block {
                IoOutcome::Retry
            } else {
                IoOutcome::Failed(e)
            }
        },
    }
}

/// The outcome of a `readv`/`writev` that returned `r` (`-1` on failure,
/// else the number of bytes transferred); `would_block` tells whether the
/// failure's `errno` means that the call would block.
pub fn syscall_outcome(r: isize, would_block: bool) -> (o: IoOutcome<usize, ()>)
    requires
        r >= -1,
    ensures
        r == -1 && would_block ==> o == IoOutcome::<usize, ()>::Retry,
        r == -1 && !would_block ==> o == IoOutcome::<usize, ()>::Failed(()),
        r >= 0 ==> o == IoOutcome::<usize, ()>::Ready(r as usize),
{
    if r == -1 {
        if would_block {
            IoOutcome::Retry
        } else {
            IoOutcome::Failed(())
        }
    } else {
        IoOutcome::Ready(r as usize)
    }
}

/// Where a connection attempt stands.
pub enum ConnectState<S, E> {
    /// The stream is connecting.
    Waiting(S),
    /// Starting the connection failed.
    Error(E),
    /// The future has resolved.
    Empty,
}

/// What a poll of the write-readiness of a connecting stream found.
pub enum WriteReadiness<E> {
    /// Not writable yet.
    Pending,
    /// Polling the readiness, or reading the socket's error, failed.
    Failed(E),
    /// Writable; the socket's pending error, if any.
    Ready(Option<E>),
}

/// What a poll of a connect future returns.
pub enum ConnectPoll<S, E> {
    /// Not connected yet.
    Pending,
    /// The connected stream, or why the connection failed.
    Ready(Result<S, E>),
}

/// Future that resolves to a stream when it is connected.
pub struct ConnectFuture<S, E> {
    inner: ConnectState<S, E>,
}

impl<S, E> View for ConnectFuture<S, E> {
    type V = ConnectState<S, E>;

    closed spec fn view(&self) -> ConnectState<S, E> {
        self.inner
    }
}

impl<S, E> ConnectFuture<S, E> {
    /// The future of a connection that was started (`Ok`, the stream) or
    /// could not be started (`Err`).
    pub fn new(started: Result<S, E>) -> (f: Self)
        ensures
            f@ == (match started {
                Ok(s) => ConnectState::Waiting(s),
                Err(e) => ConnectState::<S, E>::Error(e),
            }),
    {
        match started {
            Ok(stream) => ConnectFuture { inner: ConnectState::Waiting(stream) },
            Err(e) => ConnectFuture { inner: ConnectState::Error(e) },
        }
    }

    /// Whether the future has resolved and must not be polled again.
    pub fn is_resolved(&self) -> (b: bool)
        ensures
            b == (self@ is Empty),
    {
        match &self.inner {
            ConnectState::Empty => true,
            _ => false,
        }
    }

    /// The stream being connected, for its readiness to be polled.
    pub fn stream(&self) -> (s: Option<&S>)
        ensures
            match self@ {
                ConnectState::Waiting(w) => s == Some(&w),
                _ => s is None,
            },
    {
        match &self.inner {
            ConnectState::Waiting(stream) => Some(stream),
            _ => None,
        }
    }

    /// Poll the future. While connecting, the write-readiness of the stream
    /// decides: not writable yet is pending; a failure, or an error pending
    /// on the socket, resolves to that error and leaves the future
    /// connecting; writable without error resolves to the stream. A failed
    /// start resolves to its error. Either resolution with the stream or
    /// the start error empties the future, which must not be polled again.
    /// The readiness is only consulted while connecting.
    pub fn poll(&mut self, readiness: WriteReadiness<E>) -> (p: ConnectPoll<S, E>)
        requires
            !(old(self)@ is Empty),
        ensures
            match old(self)@ {
                ConnectState::Waiting(s) => match readiness {
                    WriteReadiness::Pending => p == ConnectPoll::<S, E>::Pending && final(self)@
                        == old(self)@,
                    WriteReadiness::Failed(e) => p == ConnectPoll::<S, E>::Ready(Err(e))
                        && final(self)@ == old(self)@,
                    WriteReadiness::Ready(Some(e)) => p == ConnectPoll::<S, E>::Ready(Err(e))
                        && final(self)@ == old(self)@,
                    WriteReadiness::Ready(None) => p == ConnectPoll::<S, E>::Ready(Ok(s))
                        && final(self)@ is Empty,
                },
                ConnectState::Error(e) => p == ConnectPoll::<S, E>::Ready(Err(e))
                    && final(self)@ is Empty,
                ConnectState::Empty => false,
            },
    {
        let mut state = ConnectState::Empty;
        std::mem::swap(&mut state, &mut self.inner);
        match state {
            ConnectState::Waiting(stream) => {
                match readiness {
                    WriteReadiness::Pending => {
                        self.inner = ConnectState::Waiting(stream);
                        ConnectPoll::Pending
                    },
                    WriteReadiness::Failed(e) => {
                        self.inner = ConnectState::Waiting(stream);
                        ConnectPoll::Ready(Err(e))
                    },
                    WriteReadiness::Ready(Some(e)) => {
                        self.inner = ConnectState::Waiting(stream);
                        ConnectPoll::Ready(Err(e))
                    },
                    WriteReadiness::Ready(None) => ConnectPoll::Ready(Ok(stream)),
                }
            },
            ConnectState::Error(e) => ConnectPoll::Ready(Err(e)),
            ConnectState::Empty => {
                proof {
                    assert(false);
                }
                ConnectPoll::Pending
            },
        }
    }
}

} // verus!
