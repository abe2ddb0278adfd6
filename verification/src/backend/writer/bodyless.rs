//! Backend states for messages without a body. Each state is a thin newtype over
//! the state of [`crate::body::writer::bodyless`] of the same name.
use vstd::prelude::*;

use crate::body::error::{BodyError, BodyResult};
use crate::body::writer::bodyless;
use crate::body::writer::bodyless::{AbortView, FinishView};
use crate::body::writer::{bounded_put, bounded_write};
use crate::backend::writer::BackendWriter;
use crate::transport::{Context, Poll};

verus! {

/// Idle state.
#[derive(Debug)]
pub struct Ready<I> {
    inner: bodyless::Ready<I>,
}

impl<I> Ready<I> {
    /// The connection.
    pub closed spec fn io(&self) -> I {
        self.inner.io()
    }

    /// A body of which nothing has been written.
    pub fn new(inner: bodyless::Ready<I>) -> (r: Self)
        ensures
            r.io() == inner.io(),
    {
        Self { inner }
    }

    /// Begin a chunk. There is no room for data: any length but zero is an
    /// overflow.
    pub fn open(self, length: u64) -> (r: BodyResult<Open<I>>)
        ensures
            match r {
                Ok(o) => length == 0 && o.io() == self.io(),
                Err(e) => length > 0 && e == BodyError::BodyOverflow(length),
            },
    {
        let Self { inner } = self;
        match inner.open(length) {
            Ok(inner) => Ok(Open { inner }),
            Err(e) => Err(e),
        }
    }

    /// Terminate the body cleanly.
    pub fn finish(self) -> (r: Finish<I>)
        ensures
            r@ == (FinishView { writer: self.io(), flushed: false }),
    {
        let Self { inner } = self;
        Finish { inner: inner.finish() }
    }

    /// Terminate the body abnormally.
    pub fn abort(self) -> (r: Abort<I>)
        ensures
            r@ == (AbortView { writer: self.io(), flushed: false }),
    {
        let Self { inner } = self;
        Abort { inner: inner.abort() }
    }
}

/// Open state.
#[derive(Debug)]
pub struct Open<I> {
    inner: bodyless::Open<I>,
}

impl<I> Open<I> {
    /// The connection.
    pub closed spec fn io(&self) -> I {
        self.inner.io()
    }

    /// Nothing is to be written.
    pub fn poll_open(&mut self, cx: &mut Context) -> (r: Poll<BodyResult<()>>)
        ensures
            *final(self) == *old(self),
            *final(cx) == *old(cx),
            r matches Poll::Ready(Ok(())),
    {
        self.inner.poll_open(cx)
    }

    /// Transition to [`Write`].
    pub fn into_write(self) -> (r: BodyResult<Write<I>>)
        ensures
            r matches Ok(w) && w.io() == self.io(),
    {
        let Self { inner } = self;
        match inner.into_write() {
            Ok(inner) => Ok(Write { inner }),
            Err(e) => Err(e),
        }
    }
}

/// Write state.
#[derive(Debug)]
pub struct Write<I> {
    inner: bodyless::Write<I>,
}

impl<I> Write<I> {
    /// The connection.
    pub closed spec fn io(&self) -> I {
        self.inner.io()
    }

    /// The number of bytes yet to be written: none.
    pub fn chunk_remaining(&self) -> (n: u64)
        ensures
            n == 0,
    {
        self.inner.chunk_remaining()
    }

    /// Transition to [`Close`].
    pub fn into_close(self) -> (r: BodyResult<Close<I>>)
        ensures
            r matches Ok(c) && c.io() == self.io(),
    {
        let Self { inner } = self;
        match inner.into_close() {
            Ok(inner) => Ok(Close { inner }),
            Err(e) => Err(e),
        }
    }

    /// Write some prefix of `buffer`, which has to be empty.
    pub fn poll_write(&mut self, cx: &mut Context, buffer: &[u8]) -> (r: Poll<BodyResult<usize>>)
        ensures
            *final(self) == *old(self),
            final(cx)@ == bounded_write(old(cx)@, 0, 0, buffer@).0,
            r == bounded_write(old(cx)@, 0, 0, buffer@).2,
    {
        self.inner.poll_write(cx, buffer)
    }

    /// Write all of `buffer` but its first `written` bytes.
    pub fn poll_write_all(&mut self, cx: &mut Context, buffer: &[u8], written: &mut usize) -> (r:
        Poll<BodyResult<()>>)
        ensures
            *final(self) == *old(self),
            ({
                let (cx2, _, now, p) = bounded_put(
                    old(cx)@,
                    0,
                    0,
                    buffer@,
                    *old(written) as nat,
                );
                final(cx)@ == cx2 && *final(written) == now && r == p
            }),
    {
        self.inner.poll_write_all(cx, buffer, written)
    }
}

/// Close state.
#[derive(Debug)]
pub struct Close<I> {
    inner: bodyless::Close<I>,
}

impl<I> Close<I> {
    /// The connection.
    pub closed spec fn io(&self) -> I {
        self.inner.io()
    }

    /// Nothing is to be written.
    pub fn poll_close(&mut self, cx: &mut Context) -> (r: Poll<BodyResult<()>>)
        ensures
            *final(self) == *old(self),
            *final(cx) == *old(cx),
            r matches Poll::Ready(Ok(())),
    {
        self.inner.poll_close(cx)
    }

    /// Transition back to [`Ready`].
    pub fn into_ready(self) -> (r: BodyResult<Ready<I>>)
        ensures
            r matches Ok(ready) && ready.io() == self.io(),
    {
        let Self { inner } = self;
        match inner.into_ready() {
            Ok(inner) => Ok(Ready { inner }),
            Err(e) => Err(e),
        }
    }
}

/// Finish (terminal) state. Yields a [`BackendWriter`] ready for the
/// next message once the underlying writer is flushed.
#[derive(Debug)]
pub struct Finish<I> {
    inner: bodyless::Finish<I>,
}

impl<I> View for Finish<I> {
    type V = FinishView<I>;

    closed spec fn view(&self) -> FinishView<I> {
        self.inner@
    }
}

impl<I> Finish<I> {
    /// Yield the writer. Errors if it has not been flushed.
    pub fn into_writer(self) -> (r: BodyResult<BackendWriter<I>>)
        ensures
            match r {
                Ok(w) => self@.flushed && w.io() == self@.writer,
                Err(e) => !self@.flushed && e == BodyError::UnflushedFinish,
            },
    {
        let Self { inner } = self;
        match inner.into_writer() {
            Ok(writer) => Ok(BackendWriter::new(writer)),
            Err(e) => Err(e),
        }
    }

    /// Flush.
    pub fn poll_finish(&mut self, cx: &mut Context) -> (r: Poll<BodyResult<()>>)
        ensures
            (final(self)@, final(cx)@, r) == old(self)@.poll_finish(old(cx)@),
    {
        self.inner.poll_finish(cx)
    }
}

/// Abort (terminal) state. Consumes the writer after flushing it.
#[derive(Debug)]
pub struct Abort<I> {
    inner: bodyless::Abort<I>,
}

impl<I> View for Abort<I> {
    type V = AbortView<I>;

    closed spec fn view(&self) -> AbortView<I> {
        self.inner@
    }
}

impl<I> Abort<I> {
    /// Consume the abort, dropping the underlying writer. Errors if it has not
    /// been flushed.
    pub fn discard(self) -> (r: BodyResult<()>)
        ensures
            match r {
                Ok(()) => self@.flushed,
                Err(e) => !self@.flushed && e == BodyError::UnflushedAbort,
            },
    {
        let Self { inner } = self;
        inner.discard()
    }

    /// Flush.
    pub fn poll_abort(&mut self, cx: &mut Context) -> (r: Poll<BodyResult<()>>)
        ensures
            (final(self)@, final(cx)@, r) == old(self)@.poll_abort(old(cx)@),
    {
        self.inner.poll_abort(cx)
    }
}

/// The states follow each other freely, with the same connection, which comes back once it
/// has been flushed.
pub proof fn states_keep_the_connection<I>(
    ready: Ready<I>,
    o: Open<I>,
    w: Write<I>,
    c: Close<I>,
    f: Finish<I>,
    opened: BodyResult<Write<I>>,
    closing: BodyResult<Close<I>>,
    closed: BodyResult<Ready<I>>,
    finishing: Finish<I>,
    back: BodyResult<BackendWriter<I>>,
)
    requires
        call_ensures(Open::<I>::into_write, (o,), opened),
        call_ensures(Write::<I>::into_close, (w,), closing),
        call_ensures(Close::<I>::into_ready, (c,), closed),
        call_ensures(Ready::<I>::finish, (ready,), finishing),
        call_ensures(Finish::<I>::into_writer, (f,), back),
    ensures
        opened matches Ok(next) && next.io() == o.io(),
        closing matches Ok(next) && next.io() == w.io(),
        closed matches Ok(next) && next.io() == c.io(),
        finishing@.writer == ready.io() && !finishing@.flushed,
        match back {
            Ok(to) => f@.flushed && to.io() == f@.writer,
            Err(e) => !f@.flushed && e == BodyError::UnflushedFinish,
        },
{
}

/// Where there is no body, no chunk with data can be opened.
pub proof fn no_chunk_with_data_is_opened<I>(
    ready: Ready<I>,
    length: u64,
    opening: BodyResult<Open<I>>,
)
    requires
        call_ensures(Ready::<I>::open, (ready, length), opening),
    ensures
        match opening {
            Ok(next) => length == 0 && next.io() == ready.io(),
            Err(e) => length > 0 && e == BodyError::BodyOverflow(length),
        },
{
}

/// A poll does what the poll of the state of the body does, and comes to the same.
pub proof fn polls_are_those_of_the_body<I>(
    o: &mut Open<I>,
    ocx: &mut Context,
    opened: Poll<BodyResult<()>>,
    w: &mut Write<I>,
    wcx: &mut Context,
    buffer: &[u8],
    wrote: Poll<BodyResult<usize>>,
    v: &mut Write<I>,
    vcx: &mut Context,
    written: &mut usize,
    put: Poll<BodyResult<()>>,
    c: &mut Close<I>,
    ccx: &mut Context,
    closed: Poll<BodyResult<()>>,
    f: &mut Finish<I>,
    fcx: &mut Context,
    finished: Poll<BodyResult<()>>,
    a: &mut Abort<I>,
    acx: &mut Context,
    aborted: Poll<BodyResult<()>>,
)
    requires
        call_ensures(Open::<I>::poll_open, (o, ocx), opened),
        call_ensures(Write::<I>::poll_write, (w, wcx, buffer), wrote),
        call_ensures(Write::<I>::poll_write_all, (v, vcx, buffer, written), put),
        call_ensures(Close::<I>::poll_close, (c, ccx), closed),
        call_ensures(Finish::<I>::poll_finish, (f, fcx), finished),
        call_ensures(Abort::<I>::poll_abort, (a, acx), aborted),
    ensures
        *final(o) == *old(o) && *final(ocx) == *old(ocx) && (opened matches Poll::Ready(Ok(()))),
        *final(c) == *old(c) && *final(ccx) == *old(ccx) && (closed matches Poll::Ready(Ok(()))),
        buffer@.len() > 0 ==> final(wcx)@ == old(wcx)@ && (wrote matches Poll::Ready(
            Err(BodyError::BodyOverflow(_)),
        )),
        *old(written) < buffer@.len() ==> final(vcx)@ == old(vcx)@ && *final(written) == *old(
            written,
        ) && (put matches Poll::Ready(Err(BodyError::BodyOverflow(_)))),
        *old(written) >= buffer@.len() ==> final(vcx)@ == old(vcx)@ && (put matches Poll::Ready(
            Ok(()),
        )),
        (final(f)@, final(fcx)@, finished) == old(f)@.poll_finish(old(fcx)@),
        (final(a)@, final(acx)@, aborted) == old(a)@.poll_abort(old(acx)@),
{
}

} // verus!
