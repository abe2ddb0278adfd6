//! Frontend states for bodies that end with the connection. EOF framing has
//! no on-the-wire terminator; both [`Finish`] and [`Abort`] consume and
//! drop the underlying writer so the caller cannot accidentally hold the
//! connection open past the body.
use vstd::prelude::*;

use crate::body::error::{BodyError, BodyResult};
use crate::body::writer::eof;
use crate::body::writer::eof::{AbortView, FinishView, OpenView, WriteView};
use crate::transport::{Context, Poll};

verus! {

/// Idle state.
#[derive(Debug)]
pub struct Ready<I> {
    inner: eof::Ready<I>,
}

impl<I> Ready<I> {
    /// The connection.
    pub closed spec fn io(&self) -> I {
        self.inner.io()
    }

    /// A body of which nothing has been written.
    pub fn new(inner: eof::Ready<I>) -> (r: Self)
        ensures
            r.io() == inner.io(),
    {
        Self { inner }
    }

    /// Begin a new chunk of `length` bytes. EOF framing has no upper
    /// bound on body size, so this is infallible.
    pub fn open(self, length: u64) -> (r: Open<I>)
        ensures
            r@ == (OpenView { writer: self.io(), chunk_length: length }),
    {
        let Self { inner } = self;
        Open { inner: inner.open(length) }
    }

    /// Terminate the body cleanly.
    pub fn finish(self) -> (r: Finish<I>)
        ensures
            r@ == (FinishView { writer: self.io(), flushed: false }),
    {
        let Self { inner } = self;
        Finish { inner: inner.finish() }
    }

    /// Terminate the body abnormally.
    pub fn abort(self) -> (r: Abort<I>)
        ensures
            r@ == (AbortView { writer: self.io(), flushed: false }),
    {
        let Self { inner } = self;
        Abort { inner: inner.abort() }
    }
}

/// Open state.
#[derive(Debug)]
pub struct Open<I> {
    inner: eof::Open<I>,
}

impl<I> View for Open<I> {
    type V = OpenView<I>;

    closed spec fn view(&self) -> OpenView<I> {
        self.inner@
    }
}

impl<I> Open<I> {
    /// Nothing is to be written.
    pub fn poll_open(&mut self, cx: &mut Context) -> (r: Poll<BodyResult<()>>)
        ensures
            *final(self) == *old(self),
            *final(cx) == *old(cx),
            r matches Poll::Ready(Ok(())),
    {
        self.inner.poll_open(cx)
    }

    /// Transition to [`Write`].
    pub fn into_write(self) -> (r: BodyResult<Write<I>>)
        ensures
            r matches Ok(w) && w@ == (WriteView {
                writer: self@.writer,
                chunk_length: self@.chunk_length,
                chunk_offset: 0,
            }),
    {
        let Self { inner } = self;
        match inner.into_write() {
            Ok(inner) => Ok(Write { inner }),
            Err(e) => Err(e),
        }
    }
}

/// Write state.
#[derive(Debug)]
pub struct Write<I> {
    inner: eof::Write<I>,
}

impl<I> View for Write<I> {
    type V = WriteView<I>;

    closed spec fn view(&self) -> WriteView<I> {
        self.inner@
    }
}

impl<I> Write<I> {
    /// The number of bytes yet to be written into this chunk.
    pub fn chunk_remaining(&self) -> (n: u64)
        ensures
            n == self@.chunk_length - self@.chunk_offset,
    {
        self.inner.chunk_remaining()
    }

    /// Finish the chunk and move to the next state. Errors if not all bytes
    /// have been written.
    pub fn into_close(self) -> (r: BodyResult<Close<I>>)
        ensures
            match r {
                Ok(c) => self@.chunk_offset == self@.chunk_length && c.io() == self@.writer,
                Err(e) => self@.chunk_offset < self@.chunk_length && e == (
                BodyError::IncompleteBody {
                    expected: self@.chunk_length,
                    actual: self@.chunk_offset,
                }),
            },
    {
        let Self { inner } = self;
        match inner.into_close() {
            Ok(inner) => Ok(Close { inner }),
            Err(e) => Err(e),
        }
    }

    /// Write some prefix of `buffer`.
    pub fn poll_write(&mut self, cx: &mut Context, buffer: &[u8]) -> (r: Poll<BodyResult<usize>>)
        ensures
            (final(self)@, final(cx)@, r) == old(self)@.poll_write(old(cx)@, buffer@),
    {
        self.inner.poll_write(cx, buffer)
    }

    /// Write all of `buffer` but its first `written` bytes.
    pub fn poll_write_all(&mut self, cx: &mut Context, buffer: &[u8], written: &mut usize) -> (r:
        Poll<BodyResult<()>>)
        ensures
            (final(self)@, final(cx)@, *final(written) as nat, r) == old(self)@.poll_write_all(
                old(cx)@,
                buffer@,
                *old(written) as nat,
            ),
    {
        self.inner.poll_write_all(cx, buffer, written)
    }
}

/// Close state.
#[derive(Debug)]
pub struct Close<I> {
    inner: eof::Close<I>,
}

impl<I> Close<I> {
    /// The connection.
    pub closed spec fn io(&self) -> I {
        self.inner.io()
    }

    /// Nothing is to be written.
    pub fn poll_close(&mut self, cx: &mut Context) -> (r: Poll<BodyResult<()>>)
        ensures
            *final(self) == *old(self),
            *final(cx) == *old(cx),
            r matches Poll::Ready(Ok(())),
    {
        self.inner.poll_close(cx)
    }

    /// Transition back to [`Ready`].
    pub fn into_ready(self) -> (r: BodyResult<Ready<I>>)
        ensures
            r matches Ok(ready) && ready.io() == self.io(),
    {
        let Self { inner } = self;
        match inner.into_ready() {
            Ok(inner) => Ok(Ready { inner }),
            Err(e) => Err(e),
        }
    }
}

/// Finish (terminal) state. Consumes and drops the underlying writer;
/// EOF framing has no on-the-wire terminator and the receiver detects
/// end-of-body by the connection closing.
#[derive(Debug)]
pub struct Finish<I> {
    inner: eof::Finish<I>,
}

impl<I> View for Finish<I> {
    type V = FinishView<I>;

    closed spec fn view(&self) -> FinishView<I> {
        self.inner@
    }
}

impl<I> Finish<I> {
    /// Consume the finish, dropping the underlying writer. Errors if it has not
    /// been flushed.
    pub fn discard(self) -> (r: BodyResult<()>)
        ensures
            match r {
                Ok(()) => self@.flushed,
                Err(e) => !self@.flushed && e == BodyError::UnflushedFinish,
            },
    {
        let Self { inner } = self;
        inner.discard()
    }

    /// Flush.
    pub fn poll_finish(&mut self, cx: &mut Context) -> (r: Poll<BodyResult<()>>)
        ensures
            (final(self)@, final(cx)@, r) == old(self)@.poll_finish(old(cx)@),
    {
        self.inner.poll_finish(cx)
    }
}

/// Abort (terminal) state. Consumes and drops the underlying writer
/// after flushing any buffered bytes; EOF framing has no in-band poison.
#[derive(Debug)]
pub struct Abort<I> {
    inner: eof::Abort<I>,
}

impl<I> View for Abort<I> {
    type V = AbortView<I>;

    closed spec fn view(&self) -> AbortView<I> {
        self.inner@
    }
}

impl<I> Abort<I> {
    /// Consume the abort, dropping the underlying writer. Errors if it has not
    /// been flushed.
    pub fn discard(self) -> (r: BodyResult<()>)
        ensures
            match r {
                Ok(()) => self@.flushed,
                Err(e) => !self@.flushed && e == BodyError::UnflushedAbort,
            },
    {
        let Self { inner } = self;
        inner.discard()
    }

    /// Flush.
    pub fn poll_abort(&mut self, cx: &mut Context) -> (r: Poll<BodyResult<()>>)
        ensures
            (final(self)@, final(cx)@, r) == old(self)@.poll_abort(old(cx)@),
    {
        self.inner.poll_abort(cx)
    }
}

/// A chunk of any length can be opened; it is closed exactly where all of it is written. The
/// connection stays the same, and never comes back: it ends with the body.
pub proof fn chunks_go_through_their_states<I>(
    ready: Ready<I>,
    length: u64,
    o: Open<I>,
    w: Write<I>,
    c: Close<I>,
    f: Finish<I>,
    opening: Open<I>,
    opened: BodyResult<Write<I>>,
    closing: BodyResult<Close<I>>,
    closed: BodyResult<Ready<I>>,
    finishing: Finish<I>,
    done: BodyResult<()>,
)
    requires
        call_ensures(Ready::<I>::open, (ready, length), opening),
        call_ensures(Open::<I>::into_write, (o,), opened),
        call_ensures(Write::<I>::into_close, (w,), closing),
        call_ensures(Close::<I>::into_ready, (c,), closed),
        call_ensures(Ready::<I>::finish, (ready,), finishing),
        call_ensures(Finish::<I>::discard, (f,), done),
    ensures
        opening@.writer == ready.io() && opening@.chunk_length == length,
        opened matches Ok(next) && next@.writer == o@.writer && next@.chunk_length
            == o@.chunk_length && next@.chunk_offset == 0,
        match closing {
            Ok(next) => w@.chunk_offset == w@.chunk_length && next.io() == w@.writer,
            Err(BodyError::IncompleteBody { expected, actual }) => {
                actual == w@.chunk_offset && expected == w@.chunk_length && actual < expected
            },
            Err(_) => false,
        },
        closed matches Ok(next) && next.io() == c.io(),
        finishing@.writer == ready.io() && !finishing@.flushed,
        match done {
            Ok(()) => f@.flushed,
            Err(e) => !f@.flushed && e == BodyError::UnflushedFinish,
        },
{
}

/// A poll does what the poll of the state of the body does, and comes to the same.
pub proof fn polls_are_those_of_the_body<I>(
    o: &mut Open<I>,
    ocx: &mut Context,
    opened: Poll<BodyResult<()>>,
    w: &mut Write<I>,
    wcx: &mut Context,
    buffer: &[u8],
    wrote: Poll<BodyResult<usize>>,
    v: &mut Write<I>,
    vcx: &mut Context,
    written: &mut usize,
    put: Poll<BodyResult<()>>,
    c: &mut Close<I>,
    ccx: &mut Context,
    closed: Poll<BodyResult<()>>,
    f: &mut Finish<I>,
    fcx: &mut Context,
    finished: Poll<BodyResult<()>>,
    a: &mut Abort<I>,
    acx: &mut Context,
    aborted: Poll<BodyResult<()>>,
)
    requires
        call_ensures(Open::<I>::poll_open, (o, ocx), opened),
        call_ensures(Write::<I>::poll_write, (w, wcx, buffer), wrote),
        call_ensures(Write::<I>::poll_write_all, (v, vcx, buffer, written), put),
        call_ensures(Close::<I>::poll_close, (c, ccx), closed),
        call_ensures(Finish::<I>::poll_finish, (f, fcx), finished),
        call_ensures(Abort::<I>::poll_abort, (a, acx), aborted),
    ensures
        *final(o) == *old(o) && *final(ocx) == *old(ocx) && (opened matches Poll::Ready(Ok(()))),
        *final(c) == *old(c) && *final(ccx) == *old(ccx) && (closed matches Poll::Ready(Ok(()))),
        (final(w)@, final(wcx)@, wrote) == old(w)@.poll_write(old(wcx)@, buffer@),
        (final(v)@, final(vcx)@, *final(written) as nat, put) == old(v)@.poll_write_all(
            old(vcx)@,
            buffer@,
            *old(written) as nat,
        ),
        (final(f)@, final(fcx)@, finished) == old(f)@.poll_finish(old(fcx)@),
        (final(a)@, final(acx)@, aborted) == old(a)@.poll_abort(old(acx)@),
{
}

} // verus!
