//! Frontend states for chunked bodies. Each state is a thin newtype over the state
//! of [`crate::body::writer::chunked`] of the same name.
use vstd::prelude::*;

use crate::body::chunk_coding::encode_end;
use crate::body::error::{BodyError, BodyResult};
use crate::body::writer::chunked;
use crate::body::writer::chunked::{close_bytes, open_bytes, AbortView, CloseView, FinishView, OpenView, WriteView};
use crate::frontend::writer::FrontendWriter;
use crate::http_message::header::Headers;
use crate::transport::{Context, Poll};

verus! {

/// Idle state.
#[derive(Debug)]
pub struct Ready<I> {
    inner: chunked::Ready<I>,
}

impl<I> Ready<I> {
    /// The connection.
    pub closed spec fn io(&self) -> I {
        self.inner.io()
    }

    /// A body of which nothing has been written.
    pub fn new(inner: chunked::Ready<I>) -> (r: Self)
        ensures
            r.io() == inner.io(),
    {
        Self { inner }
    }

    /// Begin a new chunk of `length` bytes. Chunked encoding has no upper
    /// bound on body size, so this is infallible.
    pub fn open(self, length: u64) -> (r: Open<I>)
        ensures
            r@ == (OpenView { writer: self.io(), chunk_length: length, written: 0 }),
    {
        let Self { inner } = self;
        Open { inner: inner.open(length) }
    }

    /// Terminate the body cleanly with no trailers.
    pub fn finish(self) -> (r: Finish<I>)
        ensures
            r@ == (FinishView {
                writer: self.io(),
                data: encode_end(Seq::empty()),
                written: 0,
                flushed: false,
            }),
    {
        let Self { inner } = self;
        Finish { inner: inner.finish() }
    }

    /// Terminate the body cleanly with trailer fields.
    pub fn finish_with_trailers(self, trailers: &Headers) -> (r: Finish<I>)
        ensures
            r@ == (FinishView {
                writer: self.io(),
                data: encode_end(trailers@),
                written: 0,
                flushed: false,
            }),
    {
        let Self { inner } = self;
        Finish { inner: inner.finish_with_trailers(trailers) }
    }

    /// Terminate the body abnormally.
    pub fn abort(self) -> (r: Abort<I>)
        ensures
            r@ == (AbortView { writer: self.io(), written: false, flushed: false }),
    {
        let Self { inner } = self;
        Abort { inner: inner.abort() }
    }
}

/// Open state. Drives the chunk-size header (`{N:x}\r\n`).
#[derive(Debug)]
pub struct Open<I> {
    inner: chunked::Open<I>,
}

impl<I> View for Open<I> {
    type V = OpenView<I>;

    closed spec fn view(&self) -> OpenView<I> {
        self.inner@
    }
}

impl<I> Open<I> {
    /// Write the rest of the header.
    pub fn poll_open(&mut self, cx: &mut Context) -> (r: Poll<BodyResult<()>>)
        ensures
            (final(self)@, final(cx)@, r) == old(self)@.poll_open(old(cx)@),
            (r matches Poll::Ready(Ok(()))) <==> final(self)@.written == open_bytes(
                final(self)@.chunk_length,
            ).len(),
    {
        self.inner.poll_open(cx)
    }

    /// Transition to [`Write`]. Errors if the header has not been written to its
    /// end.
    pub fn into_write(self) -> (r: BodyResult<Write<I>>)
        ensures
            match r {
                Ok(w) => self@.written == open_bytes(self@.chunk_length).len() && w@ == (
                WriteView {
                    writer: self@.writer,
                    chunk_length: self@.chunk_length,
                    chunk_offset: 0,
                }),
                Err(e) => self@.written < open_bytes(self@.chunk_length).len() && e == (
                BodyError::IncompleteChunkHeader {
                    expected: open_bytes(self@.chunk_length).len() as u64,
                    actual: self@.written as u64,
                }),
            },
    {
        let Self { inner } = self;
        match inner.into_write() {
            Ok(inner) => Ok(Write { inner }),
            Err(e) => Err(e),
        }
    }
}

/// Write state.
#[derive(Debug)]
pub struct Write<I> {
    inner: chunked::Write<I>,
}

impl<I> View for Write<I> {
    type V = WriteView<I>;

    closed spec fn view(&self) -> WriteView<I> {
        self.inner@
    }
}

impl<I> Write<I> {
    /// The number of bytes yet to be written into this chunk.
    pub fn chunk_remaining(&self) -> (n: u64)
        ensures
            n == self@.chunk_length - self@.chunk_offset,
    {
        self.inner.chunk_remaining()
    }

    /// Finish the chunk and move to the next state. Errors if not all bytes
    /// have been written.
    pub fn into_close(self) -> (r: BodyResult<Close<I>>)
        ensures
            match r {
                Ok(c) => self@.chunk_offset == self@.chunk_length && c@ == (CloseView {
                    writer: self@.writer,
                    footer: close_bytes(self@.chunk_length),
                    written: 0,
                }),
                Err(e) => self@.chunk_offset < self@.chunk_length && e == (
                BodyError::IncompleteBody {
                    expected: self@.chunk_length,
                    actual: self@.chunk_offset,
                }),
            },
    {
        let Self { inner } = self;
        match inner.into_close() {
            Ok(inner) => Ok(Close { inner }),
            Err(e) => Err(e),
        }
    }

    /// Write some prefix of `buffer`.
    pub fn poll_write(&mut self, cx: &mut Context, buffer: &[u8]) -> (r: Poll<BodyResult<usize>>)
        ensures
            (final(self)@, final(cx)@, r) == old(self)@.poll_write(old(cx)@, buffer@),
    {
        self.inner.poll_write(cx, buffer)
    }

    /// Write all of `buffer` but its first `written` bytes.
    pub fn poll_write_all(&mut self, cx: &mut Context, buffer: &[u8], written: &mut usize) -> (r:
        Poll<BodyResult<()>>)
        ensures
            (final(self)@, final(cx)@, *final(written) as nat, r) == old(self)@.poll_write_all(
                old(cx)@,
                buffer@,
                *old(written) as nat,
            ),
    {
        self.inner.poll_write_all(cx, buffer, written)
    }
}

/// Close state. Drives the trailing `\r\n` for non-empty chunks.
#[derive(Debug)]
pub struct Close<I> {
    inner: chunked::Close<I>,
}

impl<I> View for Close<I> {
    type V = CloseView<I>;

    closed spec fn view(&self) -> CloseView<I> {
        self.inner@
    }
}

impl<I> Close<I> {
    /// Write the rest of the footer.
    pub fn poll_close(&mut self, cx: &mut Context) -> (r: Poll<BodyResult<()>>)
        ensures
            (final(self)@, final(cx)@, r) == old(self)@.poll_close(old(cx)@),
            (r matches Poll::Ready(Ok(()))) <==> final(self)@.written == final(self)@.footer.len(),
    {
        self.inner.poll_close(cx)
    }

    /// Transition back to [`Ready`]. Errors if the footer has not been written
    /// to its end.
    pub fn into_ready(self) -> (r: BodyResult<Ready<I>>)
        ensures
            match r {
                Ok(ready) => self@.written == self@.footer.len() && ready.io() == self@.writer,
                Err(e) => self@.written < self@.footer.len() && e == (
                BodyError::IncompleteChunkFooter {
                    expected: self@.footer.len() as u64,
                    actual: self@.written as u64,
                }),
            },
    {
        let Self { inner } = self;
        match inner.into_ready() {
            Ok(inner) => Ok(Ready { inner }),
            Err(e) => Err(e),
        }
    }
}

/// Finish (terminal) state. Drives `0\r\n{trailers}\r\n` and the final
/// flush, yielding a [`FrontendWriter`] ready for the next message.
#[derive(Debug)]
pub struct Finish<I> {
    inner: chunked::Finish<I>,
}

impl<I> View for Finish<I> {
    type V = FinishView<I>;

    closed spec fn view(&self) -> FinishView<I> {
        self.inner@
    }
}

impl<I> Finish<I> {
    /// Yield the writer. Errors if the terminal bytes have not been written to
    /// their end, or not been flushed.
    pub fn into_writer(self) -> (r: BodyResult<FrontendWriter<I>>)
        ensures
            match r {
                Ok(w) => self@.written == self@.data.len() && self@.flushed && w.io()
                    == self@.writer,
                Err(e) => if self@.written < self@.data.len() {
                    e == (BodyError::IncompleteFinish {
                        expected: self@.data.len() as u64,
                        actual: self@.written as u64,
                    })
                } else {
                    !self@.flushed && e == BodyError::UnflushedFinish
                },
            },
    {
        let Self { inner } = self;
        match inner.into_writer() {
            Ok(writer) => Ok(FrontendWriter::new(writer)),
            Err(e) => Err(e),
        }
    }

    /// Write the rest of the terminal bytes, and flush.
    pub fn poll_finish(&mut self, cx: &mut Context) -> (r: Poll<BodyResult<()>>)
        ensures
            (final(self)@, final(cx)@, r) == old(self)@.poll_finish(old(cx)@),
            (r matches Poll::Ready(Ok(()))) ==> final(self)@.written == final(self)@.data.len()
                && final(self)@.flushed,
    {
        self.inner.poll_finish(cx)
    }
}

/// Abort (terminal) state. Writes an invalid chunk header byte and
/// flushes; the writer is consumed and dropped.
#[derive(Debug)]
pub struct Abort<I> {
    inner: chunked::Abort<I>,
}

impl<I> View for Abort<I> {
    type V = AbortView<I>;

    closed spec fn view(&self) -> AbortView<I> {
        self.inner@
    }
}

impl<I> Abort<I> {
    /// Consume the abort, dropping the underlying writer. Errors if it has not
    /// been flushed.
    pub fn discard(self) -> (r: BodyResult<()>)
        ensures
            match r {
                Ok(()) => self@.flushed,
                Err(e) => !self@.flushed && e == BodyError::UnflushedAbort,
            },
    {
        let Self { inner } = self;
        inner.discard()
    }

    /// Write the poison, and flush.
    pub fn poll_abort(&mut self, cx: &mut Context) -> (r: Poll<BodyResult<()>>)
        ensures
            (final(self)@, final(cx)@, r) == old(self)@.poll_abort(old(cx)@),
    {
        self.inner.poll_abort(cx)
    }
}

/// A chunk goes from one state to the next exactly where what the state has to write is
/// written; otherwise it is told how much of it is. Only a body whose end has been written
/// and flushed gives back the connection; and it is the one that the body was written to.
pub proof fn chunks_go_through_their_states<I>(
    o: Open<I>,
    w: Write<I>,
    c: Close<I>,
    f: Finish<I>,
    opened: BodyResult<Write<I>>,
    closing: BodyResult<Close<I>>,
    closed: BodyResult<Ready<I>>,
    back: BodyResult<FrontendWriter<I>>,
)
    requires
        call_ensures(Open::<I>::into_write, (o,), opened),
        call_ensures(Write::<I>::into_close, (w,), closing),
        call_ensures(Close::<I>::into_ready, (c,), closed),
        call_ensures(Finish::<I>::into_writer, (f,), back),
    ensures
        match opened {
            Ok(next) => {
                &&& o@.pending().len() == 0
                &&& next@.writer == o@.writer
                &&& next@.chunk_length == o@.chunk_length
                &&& next@.chunk_offset == 0
            },
            Err(BodyError::IncompleteChunkHeader { expected, actual }) => {
                actual == o@.written as u64 && o@.written < open_bytes(o@.chunk_length).len()
                    && expected == open_bytes(o@.chunk_length).len() as u64
            },
            Err(_) => false,
        },
        match closing {
            Ok(next) => {
                &&& w@.chunk_offset == w@.chunk_length
                &&& next@.writer == w@.writer
                &&& next@.footer == close_bytes(w@.chunk_length)
                &&& next@.written == 0
            },
            Err(BodyError::IncompleteBody { expected, actual }) => {
                actual == w@.chunk_offset && expected == w@.chunk_length && actual < expected
            },
            Err(_) => false,
        },
        match closed {
            Ok(next) => c@.pending().len() == 0 && next.io() == c@.writer,
            Err(BodyError::IncompleteChunkFooter { expected, actual }) => {
                actual == c@.written as u64 && c@.written < c@.footer.len() && expected
                    == c@.footer.len() as u64
            },
            Err(_) => false,
        },
        match back {
            Ok(to) => f@.pending().len() == 0 && f@.flushed && to.io() == f@.writer,
            Err(BodyError::IncompleteFinish { expected, actual }) => {
                actual == f@.written as u64 && f@.written < f@.data.len() && expected
                    == f@.data.len() as u64
            },
            Err(BodyError::UnflushedFinish) => f@.written >= f@.data.len() && !f@.flushed,
            Err(_) => false,
        },
{
}

/// A body between chunks can open a chunk of any length, be finished with trailers, or be
/// aborted; what has to be written for that starts with nothing written.
pub proof fn bodies_between_chunks_can_go_anywhere<I>(
    r: Ready<I>,
    length: u64,
    trailers: &Headers,
    o: Open<I>,
    f: Finish<I>,
    plain: Finish<I>,
    a: Abort<I>,
)
    requires
        call_ensures(Ready::<I>::open, (r, length), o),
        call_ensures(Ready::<I>::finish_with_trailers, (r, trailers), f),
        call_ensures(Ready::<I>::finish, (r,), plain),
        call_ensures(Ready::<I>::abort, (r,), a),
    ensures
        o@.writer == r.io() && o@.chunk_length == length && o@.written == 0,
        f@.writer == r.io() && f@.written == 0 && !f@.flushed,
        f@.data == seq!['0' as u8, 13u8, 10u8] + crate::http_message::raw::field_lines(
            trailers@,
        ) + seq![13u8, 10u8],
        plain@.writer == r.io() && plain@.written == 0 && !plain@.flushed,
        plain@.data == seq!['0' as u8, 13u8, 10u8, 13u8, 10u8],
        a@.writer == r.io() && !a@.written && !a@.flushed,
        a@.pending() == seq!['x' as u8],
{
    crate::body::chunk_coding::chunks_are_written_with_their_length(
        Seq::empty(),
        Seq::empty(),
        trailers@,
    );
    crate::body::chunk_coding::chunks_are_written_with_their_length(
        Seq::empty(),
        Seq::empty(),
        Seq::empty(),
    );
    assert(crate::http_message::raw::field_lines(Seq::empty()) =~= Seq::empty());
    assert(plain@.data =~= seq!['0' as u8, 13u8, 10u8, 13u8, 10u8]);
}

/// An abort is over exactly where it has been flushed.
pub proof fn aborts_are_flushed<I>(a: Abort<I>, r: BodyResult<()>)
    requires
        call_ensures(Abort::<I>::discard, (a,), r),
    ensures
        r is Ok <==> a@.flushed,
        r matches Err(e) ==> e == BodyError::UnflushedAbort,
{
}

/// A poll does what the poll of the state of the body does, and comes to the same.
pub proof fn polls_are_those_of_the_body<I>(
    o: &mut Open<I>,
    ocx: &mut Context,
    opened: Poll<BodyResult<()>>,
    w: &mut Write<I>,
    wcx: &mut Context,
    buffer: &[u8],
    wrote: Poll<BodyResult<usize>>,
    v: &mut Write<I>,
    vcx: &mut Context,
    written: &mut usize,
    put: Poll<BodyResult<()>>,
    c: &mut Close<I>,
    ccx: &mut Context,
    closed: Poll<BodyResult<()>>,
    f: &mut Finish<I>,
    fcx: &mut Context,
    finished: Poll<BodyResult<()>>,
    a: &mut Abort<I>,
    acx: &mut Context,
    aborted: Poll<BodyResult<()>>,
)
    requires
        call_ensures(Open::<I>::poll_open, (o, ocx), opened),
        call_ensures(Write::<I>::poll_write, (w, wcx, buffer), wrote),
        call_ensures(Write::<I>::poll_write_all, (v, vcx, buffer, written), put),
        call_ensures(Close::<I>::poll_close, (c, ccx), closed),
        call_ensures(Finish::<I>::poll_finish, (f, fcx), finished),
        call_ensures(Abort::<I>::poll_abort, (a, acx), aborted),
    ensures
        (final(o)@, final(ocx)@, opened) == old(o)@.poll_open(old(ocx)@),
        (final(c)@, final(ccx)@, closed) == old(c)@.poll_close(old(ccx)@),
        (final(w)@, final(wcx)@, wrote) == old(w)@.poll_write(old(wcx)@, buffer@),
        (final(v)@, final(vcx)@, *final(written) as nat, put) == old(v)@.poll_write_all(
            old(vcx)@,
            buffer@,
            *old(written) as nat,
        ),
        (final(f)@, final(fcx)@, finished) == old(f)@.poll_finish(old(fcx)@),
        (final(a)@, final(acx)@, aborted) == old(a)@.poll_abort(old(acx)@),
{
}

} // verus!
