//! Writers for messages without a body.
//!
//! The states have the shape of those of the other encodings; no chunk with
//! data can be opened, and nothing is ever put on the wire.
use vstd::prelude::*;

use crate::body::error::{BodyError, BodyResult};
use crate::body::writer::{bounded_put, bounded_write, flush_step, poll_flush, poll_write_all_bounded, poll_write_bounded};
use crate::transport::{Context, Cx, Poll};

verus! {

/// The writer of a body that is not there.
#[derive(Debug)]
pub struct BodylessBodyWriter<I>(I);

impl<I> BodylessBodyWriter<I> {
    /// The connection.
    pub closed spec fn io(&self) -> I {
        self.0
    }

    /// A writer behind a head without a body.
    pub fn new(writer: I) -> (r: Self)
        ensures
            r.io() == writer,
    {
        Self(writer)
    }

    /// Give back the connection.
    pub fn finish(self) -> (writer: I)
        ensures
            writer == self.io(),
    {
        let Self(writer) = self;
        writer
    }
}

/// Idle state.
#[derive(Debug)]
pub struct Ready<I> {
    writer: I,
}

impl<I> Ready<I> {
    /// The connection.
    pub closed spec fn io(&self) -> I {
        self.writer
    }

    /// A writer behind a head without a body.
    pub fn new(writer: I) -> (r: Self)
        ensures
            r.io() == writer,
    {
        Self { writer }
    }

    /// Begin a chunk. There is no room for data: any length but zero is an
    /// overflow.
    pub fn open(self, length: u64) -> (r: BodyResult<Open<I>>)
        ensures
            match r {
                Ok(o) => length == 0 && o.io() == self.io(),
                Err(e) => length > 0 && e == BodyError::BodyOverflow(length),
            },
    {
        let Self { writer } = self;
        if length > 0 {
            return Err(BodyError::BodyOverflow(length));
        }
        Ok(Open { writer })
    }

    /// Terminate the body cleanly.
    pub fn finish(self) -> (r: Finish<I>)
        ensures
            r@ == (FinishView { writer: self.io(), flushed: false }),
    {
        let Self { writer } = self;
        Finish { writer, flushed: false }
    }

    /// Terminate the body abnormally.
    pub fn abort(self) -> (r: Abort<I>)
        ensures
            r@ == (AbortView { writer: self.io(), flushed: false }),
    {
        let Self { writer } = self;
        Abort { writer, flushed: false }
    }
}

/// Open state. No header is written.
#[derive(Debug)]
pub struct Open<I> {
    writer: I,
}

impl<I> Open<I> {
    /// The connection.
    pub closed spec fn io(&self) -> I {
        self.writer
    }

    /// Nothing is to be written.
    pub fn poll_open(&mut self, _cx: &mut Context) -> (r: Poll<BodyResult<()>>)
        ensures
            *final(self) == *old(self),
            *final(_cx) == *old(_cx),
            r matches Poll::Ready(Ok(())),
    {
        Poll::Ready(Ok(()))
    }

    /// Transition to [`Write`].
    pub fn into_write(self) -> (r: BodyResult<Write<I>>)
        ensures
            r matches Ok(w) && w.io() == self.io(),
    {
        let Self { writer } = self;
        Ok(Write { writer })
    }
}

/// Write state. There is no room for data.
#[derive(Debug)]
pub struct Write<I> {
    writer: I,
}

impl<I> Write<I> {
    /// The connection.
    pub closed spec fn io(&self) -> I {
        self.writer
    }

    /// The number of bytes yet to be written: none.
    pub fn chunk_remaining(&self) -> (n: u64)
        ensures
            n == 0,
    {
        0
    }

    /// Transition to [`Close`].
    pub fn into_close(self) -> (r: BodyResult<Close<I>>)
        ensures
            r matches Ok(c) && c.io() == self.io(),
    {
        let Self { writer } = self;
        Ok(Close { writer })
    }

    /// Write some prefix of `buffer`, which has to be empty.
    pub fn poll_write(&mut self, cx: &mut Context, buffer: &[u8]) -> (r: Poll<BodyResult<usize>>)
        ensures
            *final(self) == *old(self),
            final(cx)@ == bounded_write(old(cx)@, 0, 0, buffer@).0,
            r == bounded_write(old(cx)@, 0, 0, buffer@).2,
    {
        let mut offset: u64 = 0;
        poll_write_bounded(cx, 0, &mut offset, buffer)
    }

    /// Write all of `buffer` but its first `written` bytes.
    pub fn poll_write_all(&mut self, cx: &mut Context, buffer: &[u8], written: &mut usize) -> (r:
        Poll<BodyResult<()>>)
        ensures
            *final(self) == *old(self),
            ({
                let (cx2, _, now, p) = bounded_put(
                    old(cx)@,
                    0,
                    0,
                    buffer@,
                    *old(written) as nat,
                );
                final(cx)@ == cx2 && *final(written) == now && r == p
            }),
    {
        let mut offset: u64 = 0;
        poll_write_all_bounded(cx, 0, &mut offset, buffer, written)
    }
}

/// Close state. No footer is written.
#[derive(Debug)]
pub struct Close<I> {
    writer: I,
}

impl<I> Close<I> {
    /// The connection.
    pub closed spec fn io(&self) -> I {
        self.writer
    }

    /// Nothing is to be written.
    pub fn poll_close(&mut self, _cx: &mut Context) -> (r: Poll<BodyResult<()>>)
        ensures
            *final(self) == *old(self),
            *final(_cx) == *old(_cx),
            r matches Poll::Ready(Ok(())),
    {
        Poll::Ready(Ok(()))
    }

    /// Transition back to [`Ready`].
    pub fn into_ready(self) -> (r: BodyResult<Ready<I>>)
        ensures
            r matches Ok(ready) && ready.io() == self.io(),
    {
        let Self { writer } = self;
        Ok(Ready { writer })
    }
}

/// Finish (terminal) state. Flushes the head.
#[derive(Debug)]
pub struct Finish<I> {
    writer: I,
    flushed: bool,
}

/// The model of a [`Finish`].
pub struct FinishView<I> {
    pub writer: I,
    pub flushed: bool,
}

impl<I> FinishView<I> {
    /// What was written is flushed.
    pub open spec fn poll_finish(self, cx: Cx) -> (Self, Cx, Poll<BodyResult<()>>) {
        let (cx, flushed, p) = flush_step(cx, self.flushed);
        (FinishView { flushed, ..self }, cx, p)
    }
}

impl<I> View for Finish<I> {
    type V = FinishView<I>;

    closed spec fn view(&self) -> FinishView<I> {
        FinishView { writer: self.writer, flushed: self.flushed }
    }
}

impl<I> Finish<I> {
    /// Yield the underlying writer. Errors with
    /// [`BodyError::UnflushedFinish`] if it has not been flushed.
    pub fn into_writer(self) -> (r: BodyResult<I>)
        ensures
            match r {
                Ok(w) => self@.flushed && w == self@.writer,
                Err(e) => !self@.flushed && e == BodyError::UnflushedFinish,
            },
    {
        let Self { writer, flushed } = self;
        if !flushed {
            return Err(BodyError::UnflushedFinish);
        }
        Ok(writer)
    }

    /// Flush.
    pub fn poll_finish(&mut self, cx: &mut Context) -> (r: Poll<BodyResult<()>>)
        ensures
            (final(self)@, final(cx)@, r) == old(self)@.poll_finish(old(cx)@),
    {
        let (flushed, p) = poll_flush(cx, self.flushed);
        self.flushed = flushed;
        p
    }
}

/// Abort (terminal) state. Flushes; the writer is consumed and dropped along
/// with `Abort`.
#[derive(Debug)]
pub struct Abort<I> {
    writer: I,
    flushed: bool,
}

/// The model of an [`Abort`].
pub struct AbortView<I> {
    pub writer: I,
    pub flushed: bool,
}

impl<I> AbortView<I> {
    /// What was written is flushed.
    pub open spec fn poll_abort(self, cx: Cx) -> (Self, Cx, Poll<BodyResult<()>>) {
        let (cx, flushed, p) = flush_step(cx, self.flushed);
        (AbortView { flushed, ..self }, cx, p)
    }
}

impl<I> View for Abort<I> {
    type V = AbortView<I>;

    closed spec fn view(&self) -> AbortView<I> {
        AbortView { writer: self.writer, flushed: self.flushed }
    }
}

impl<I> Abort<I> {
    /// Consume the abort, dropping the underlying writer. Errors with
    /// [`BodyError::UnflushedAbort`] if it has not been flushed.
    pub fn discard(self) -> (r: BodyResult<()>)
        ensures
            match r {
                Ok(()) => self@.flushed,
                Err(e) => !self@.flushed && e == BodyError::UnflushedAbort,
            },
    {
        let Self { writer: _, flushed } = self;
        if !flushed {
            return Err(BodyError::UnflushedAbort);
        }
        Ok(())
    }

    /// Flush.
    pub fn poll_abort(&mut self, cx: &mut Context) -> (r: Poll<BodyResult<()>>)
        ensures
            (final(self)@, final(cx)@, r) == old(self)@.poll_abort(old(cx)@),
    {
        let (flushed, p) = poll_flush(cx, self.flushed);
        self.flushed = flushed;
        p
    }
}

/// To finish or to abort such a body puts nothing on the wire; it is done exactly where a
/// flush has been.
pub proof fn ends_are_flushed<I>(f: FinishView<I>, a: AbortView<I>, cx: Cx)
    ensures
        ({
            let (t, cx2, p) = f.poll_finish(cx);
            &&& t.writer == f.writer
            &&& cx2.wire == cx.wire && cx2.read == cx.read && cx2.write == cx.write
            &&& cx2.flush is None
            &&& t.flushed == (f.flushed || (p is Ready && p->Ready_0 is Ok))
            &&& match cx.flush {
                None => p is Pending,
                Some(r) => p is Ready && (p->Ready_0 is Ok) == (r is Ok),
            }
        }),
        ({
            let (t, cx2, p) = a.poll_abort(cx);
            &&& t.writer == a.writer
            &&& cx2.wire == cx.wire && cx2.read == cx.read && cx2.write == cx.write
            &&& cx2.flush is None
            &&& t.flushed == (a.flushed || (p is Ready && p->Ready_0 is Ok))
            &&& match cx.flush {
                None => p is Pending,
                Some(r) => p is Ready && (p->Ready_0 is Ok) == (r is Ok),
            }
        }),
{
}

/// Where there is no body, no chunk with data can be opened, and none can be written: a write
/// of data is refused, and puts nothing on the wire.
pub proof fn no_data_is_taken<I>(
    ready: Ready<I>,
    length: u64,
    opening: BodyResult<Open<I>>,
    w: &mut Write<I>,
    cx: &mut Context,
    buffer: &[u8],
    r: Poll<BodyResult<usize>>,
)
    requires
        call_ensures(Ready::<I>::open, (ready, length), opening),
        call_ensures(Write::<I>::poll_write, (w, cx, buffer), r),
    ensures
        match opening {
            Ok(next) => length == 0 && next.io() == ready.io(),
            Err(e) => length > 0 && e == BodyError::BodyOverflow(length),
        },
        buffer@.len() > 0 ==> final(cx)@ == old(cx)@ && (r matches Poll::Ready(Err(e)) && e
            == BodyError::BodyOverflow(0)),
        final(cx)@.wire == old(cx)@.wire,
{
    crate::body::writer::bounded_write_keeps_bytes(cx@, 0, 0, buffer@);
    assert(buffer@.take(0) =~= Seq::empty());
}

/// The states follow each other freely, with the same connection, which comes back once it
/// has been flushed.
pub proof fn states_keep_the_connection<I>(
    ready: Ready<I>,
    o: Open<I>,
    w: Write<I>,
    c: Close<I>,
    f: Finish<I>,
    opened: BodyResult<Write<I>>,
    closing: BodyResult<Close<I>>,
    closed: BodyResult<Ready<I>>,
    finishing: Finish<I>,
    back: BodyResult<I>,
)
    requires
        call_ensures(Open::<I>::into_write, (o,), opened),
        call_ensures(Write::<I>::into_close, (w,), closing),
        call_ensures(Close::<I>::into_ready, (c,), closed),
        call_ensures(Ready::<I>::finish, (ready,), finishing),
        call_ensures(Finish::<I>::into_writer, (f,), back),
    ensures
        opened matches Ok(next) && next.io() == o.io(),
        closing matches Ok(next) && next.io() == w.io(),
        closed matches Ok(next) && next.io() == c.io(),
        finishing@.writer == ready.io() && !finishing@.flushed,
        match back {
            Ok(io) => f@.flushed && io == f@.writer,
            Err(e) => !f@.flushed && e == BodyError::UnflushedFinish,
        },
{
}

} // verus!
