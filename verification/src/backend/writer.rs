//! Tools for writing requests to a HTTP/1.x backend.
//!
//! A [`BackendWriter`] writes a stream of requests: each of its `send_as_*`
//! methods frames a request head, and once the head is sent gives a writer for
//! the body; finishing the body gives back a [`BackendWriter`] for the next
//! request.
use vstd::prelude::*;

use crate::body::chunk_coding::encode_end;
use crate::body::error::BodyError;
use crate::body::writer::bodyless::BodylessBodyWriter;
use crate::body::writer::chunked::{Abort, AbortView, Finish, FinishView};
use crate::body::writer::chunked_body::{
    write_keeps_bytes, ChunkStateView, ChunkedBodyWriter, ChunkedWriterView,
};
use crate::body::writer::content_length::{ContentLengthBodyWriter, ContentLengthWriterView};
use crate::body::writer::flush_step;
use crate::backend::error::{map_write, write_result, BackendError, BackendResult};
use crate::http_message::framing::WriteFraming;
use crate::http_message::head::{request_head, write_request_to, HeadWrite, HeadWriteView};
use crate::http_message::header::Headers;
use crate::http_message::message::{Request, RequestView};
use crate::transport::{Context, Cx, Poll, WriteFailure};

pub mod bodyless;
pub mod body;
pub mod chunked;
pub mod content_length;

verus! {

/// Writes a request to a backend.
#[derive(Debug)]
pub struct BackendWriter<I> {
    writer: I,
}

/// A request head that is being sent. What is to follow it is given out once it
/// has been sent.
pub struct BackendSend<B> {
    head: HeadWrite,
    next: B,
}

impl<B> BackendSend<B> {
    /// The head.
    pub closed spec fn head(&self) -> HeadWriteView {
        self.head@
    }

    /// What is to follow the head.
    pub closed spec fn next(&self) -> B {
        self.next
    }

    /// A head that starts to be sent.
    pub open spec fn starts(&self, req: RequestView, framing: WriteFraming) -> bool {
        self.head() == (HeadWriteView {
            data: request_head(req, framing),
            written: 0,
            flushed: false,
        })
    }

    fn new(req: &Request, framing: WriteFraming, next: B) -> (r: Self)
        ensures
            r.starts(req@, framing),
            r.next() == next,
    {
        Self { head: HeadWrite::new(write_request_to(req, framing)), next }
    }

    /// Send the rest of the head.
    pub fn poll_send(&mut self, cx: &mut Context) -> (r: Poll<BackendResult<()>>)
        ensures
            ({
                let (t, cx2, p) = old(self).head().poll_send(old(cx)@);
                final(self).head() == t && final(cx)@ == cx2 && r == sent_result(p)
            }),
            final(self).next() == old(self).next(),
            final(cx)@.wire + final(self).head().pending() == old(cx)@.wire
                + old(self).head().pending(),
            (r matches Poll::Ready(Ok(()))) ==> final(self).head().is_sent(),
    {
        match self.head.poll_send(cx) {
            Poll::Pending => Poll::Pending,
            Poll::Ready(Ok(())) => Poll::Ready(Ok(())),
            Poll::Ready(Err(e)) => Poll::Ready(Err(BackendError::WriteError(e))),
        }
    }

    /// What follows the head, which has to have been sent.
    pub fn into_next(self) -> (next: B)
        requires
            self.head().is_sent(),
        ensures
            next == self.next(),
    {
        let Self { head: _, next } = self;
        next
    }
}

/// An outcome of writing to the connection, as an outcome of the backend.
pub open spec fn sent_result(p: Poll<Result<(), WriteFailure>>) -> Poll<BackendResult<()>> {
    match p {
        Poll::Pending => Poll::Pending,
        Poll::Ready(Ok(())) => Poll::Ready(Ok(())),
        Poll::Ready(Err(e)) => Poll::Ready(Err(BackendError::WriteError(e))),
    }
}

impl<I> BackendWriter<I> {
    /// The connection.
    pub closed spec fn io(&self) -> I {
        self.writer
    }

    /// Give back the connection.
    pub fn into_inner(self) -> (io: I)
        ensures
            io == self.io(),
    {
        let Self { writer } = self;
        writer
    }

    /// Create a new backend writer that will write requests into the
    /// specified `io`.
    pub fn new(writer: I) -> (r: Self)
        ensures
            r.io() == writer,
    {
        Self { writer }
    }

    /// Send the specified request with a chunked request body.
    pub fn send_as_chunked(self, request: &Request) -> (r: BackendSend<BackendBodyWriter<I>>)
        ensures
            r.starts(request@, WriteFraming::Chunked),
            r.next()@ == BackendBodyView::TE(
                ChunkedWriterView(Some(ChunkStateView::Idle(self.io()))),
            ),
    {
        let Self { writer } = self;
        BackendSend::new(
            request,
            WriteFraming::Chunked,
            BackendBodyWriter::TE(
                BackendChunkedBodyWriter { inner: ChunkedBodyWriter::new(writer) },
            ),
        )
    }

    /// Send the specified request with a content-length delimited request
    /// body. The [`BackendBodyWriter`] will only accept the specified number
    /// of bytes.
    pub fn send_as_content_length(self, request: &Request, body_len: u64) -> (r: BackendSend<
        BackendBodyWriter<I>,
    >)
        ensures
            r.starts(request@, WriteFraming::Length(body_len)),
            r.next()@ == BackendBodyView::CL(
                ContentLengthWriterView { length: body_len, offset: 0, writer: self.io() },
            ),
    {
        let Self { writer } = self;
        BackendSend::new(
            request,
            WriteFraming::Length(body_len),
            BackendBodyWriter::CL(
                BackendContentLengthBodyWriter {
                    inner: ContentLengthBodyWriter::new(body_len, writer),
                },
            ),
        )
    }

    /// Send the request to the backend as bodyless. There's no mechanism for
    /// specifying `content-length` or `transfer-encoding: chunked` on a
    /// request, so in this case, we just elide any framing headers.
    pub fn send_as_bodyless(self, request: &Request) -> (r: BackendSend<BackendBodyWriter<I>>)
        ensures
            r.starts(request@, WriteFraming::PreserveFraming),
            r.next()@ == BackendBodyView::Bodyless(self.io()),
    {
        let Self { writer } = self;
        BackendSend::new(
            request,
            WriteFraming::PreserveFraming,
            BackendBodyWriter::Bodyless(
                BackendBodylessBodyWriter { inner: BodylessBodyWriter::new(writer) },
            ),
        )
    }
}

/// Backend wrapper for [`BodylessBodyWriter`].
pub struct BackendBodylessBodyWriter<I> {
    inner: BodylessBodyWriter<I>,
}

impl<I> BackendBodylessBodyWriter<I> {
    /// The connection.
    pub closed spec fn io(&self) -> I {
        self.inner.io()
    }

    /// The writer for the next request.
    pub fn finish(self) -> (r: BackendResult<BackendWriter<I>>)
        ensures
            r matches Ok(w) && w.io() == self.io(),
    {
        let Self { inner } = self;
        Ok(BackendWriter { writer: inner.finish() })
    }
}

/// Backend wrapper for [`ContentLengthBodyWriter`].
pub struct BackendContentLengthBodyWriter<I> {
    inner: ContentLengthBodyWriter<I>,
}

impl<I> View for BackendContentLengthBodyWriter<I> {
    type V = ContentLengthWriterView<I>;

    closed spec fn view(&self) -> ContentLengthWriterView<I> {
        self.inner@
    }
}

impl<I> BackendContentLengthBodyWriter<I> {
    /// Write some prefix of `buf`.
    pub fn poll_write(&mut self, cx: &mut Context, buf: &[u8]) -> (r: Poll<BackendResult<usize>>)
        ensures
            ({
                let (t, cx2, p) = old(self)@.poll_write(old(cx)@, buf@);
                final(self)@ == t && final(cx)@ == cx2 && r == write_result(p)
            }),
    {
        map_write(self.inner.poll_write(cx, buf))
    }

    /// Flush what was written.
    pub fn poll_flush(&mut self, cx: &mut Context) -> (r: Poll<BackendResult<()>>)
        ensures
            final(self)@ == old(self)@,
            final(cx)@ == flush_step(old(cx)@, false).0,
            r == write_result(flush_step(old(cx)@, false).2),
    {
        map_write(self.inner.poll_flush(cx))
    }

    /// Write all of `buf` but its first `written` bytes.
    pub fn poll_write_all(&mut self, cx: &mut Context, buf: &[u8], written: &mut usize) -> (r: Poll<
        BackendResult<()>,
    >)
        ensures
            ({
                let (t, cx2, now, p) = old(self)@.poll_write_all(
                    old(cx)@,
                    buf@,
                    *old(written) as nat,
                );
                final(self)@ == t && final(cx)@ == cx2 && *final(written) == now && r
                    == write_result(p)
            }),
    {
        map_write(self.inner.poll_write_all(cx, buf, written))
    }

    /// The writer for the next request. Errors where the body has not been
    /// written to its end.
    pub fn into_writer(self) -> (r: BackendResult<BackendWriter<I>>)
        ensures
            match r {
                Ok(w) => self@.offset == self@.length && w.io() == self@.writer,
                Err(e) => self@.offset < self@.length && e == BackendError::BodyWriteError(
                    self@.incomplete(),
                ),
            },
    {
        let Self { inner } = self;
        match inner.into_writer() {
            Ok(writer) => Ok(BackendWriter { writer }),
            Err(e) => Err(BackendError::BodyWriteError(e)),
        }
    }
}

/// Backend wrapper for a chunked body writer. Finishing it with trailers
/// forwards them to the backend as chunked trailer fields.
pub struct BackendChunkedBodyWriter<I> {
    inner: ChunkedBodyWriter<I>,
}

impl<I> View for BackendChunkedBodyWriter<I> {
    type V = ChunkedWriterView<I>;

    closed spec fn view(&self) -> ChunkedWriterView<I> {
        self.inner@
    }
}

impl<I> BackendChunkedBodyWriter<I> {
    /// Consume the writer and return a [`BackendChunkedBodyFinisher`] that
    /// writes the terminal chunk and trailers. Returns an error if the writer
    /// is not at a chunk boundary (i.e. not in the idle state).
    pub fn into_finisher(self, trailers: &Headers) -> (r: BackendResult<
        BackendChunkedBodyFinisher<I>,
    >)
        ensures
            match self@.0 {
                Some(ChunkStateView::Idle(writer)) => r matches Ok(f) && f@ == Some(
                    FinishView {
                        writer,
                        data: encode_end(trailers@),
                        written: 0,
                        flushed: false,
                    },
                ),
                _ => r matches Err(e) && e == BackendError::BodyWriteError(
                    BodyError::WriteAfterError,
                ),
            },
    {
        let Self { inner } = self;
        match inner.into_finish(trailers) {
            Ok(finish) => Ok(BackendChunkedBodyFinisher { inner: Some(finish) }),
            Err(e) => Err(BackendError::BodyWriteError(e)),
        }
    }

    /// Write `buf` as one chunk; nothing is written for no data. While the write
    /// is pending, the same buffer has to be given again.
    pub fn poll_write(&mut self, cx: &mut Context, buf: &[u8]) -> (r: Poll<BackendResult<()>>)
        requires
            old(self)@.written() <= buf@.len(),
        ensures
            ({
                let (t, cx2, p) = old(self)@.poll_write(old(cx)@, buf@);
                &&& final(self)@ == t
                &&& final(cx)@ == cx2
                &&& r == write_result(p)
                &&& buf@.len() > 0 && old(self)@.is_writing(buf@) ==> write_keeps_bytes(
                    old(self)@,
                    old(cx)@,
                    t,
                    cx2,
                    p,
                    buf@,
                )
            }),
    {
        map_write(self.inner.poll_write(cx, buf))
    }

    /// Poison the body. Only between chunks there is a byte to write: inside a
    /// chunk, the partial write already leaves framing broken - which is the
    /// goal.
    pub fn into_abort(self) -> (r: Option<Abort<I>>)
        ensures
            match self@.0 {
                Some(ChunkStateView::Idle(writer)) => r matches Some(a) && a@ == (AbortView {
                    writer,
                    written: false,
                    flushed: false,
                }),
                _ => r is None,
            },
    {
        let Self { inner } = self;
        inner.into_abort()
    }
}

/// Writes the terminal chunk and trailers for a chunked backend request.
/// Obtained from [`BackendChunkedBodyWriter::into_finisher`].
pub struct BackendChunkedBodyFinisher<I> {
    inner: Option<Finish<I>>,
}

impl<I> View for BackendChunkedBodyFinisher<I> {
    type V = Option<FinishView<I>>;

    closed spec fn view(&self) -> Option<FinishView<I>> {
        match self.inner {
            None => None,
            Some(f) => Some(f@),
        }
    }
}

impl<I> BackendChunkedBodyFinisher<I> {
    /// Write the rest of the terminal chunk, and flush. Gives the writer for the
    /// next request; once it has been given, every further poll fails.
    pub fn poll_finish(&mut self, cx: &mut Context) -> (r: Poll<BackendResult<BackendWriter<I>>>)
        ensures
            match old(self)@ {
                None => final(self)@ is None && final(cx)@ == old(cx)@ && (r matches Poll::Ready(
                    Err(e),
                ) && e == BackendError::BodyWriteError(BodyError::WriteAfterError)),
                Some(f) => {
                    let (t, cx2, p) = f.poll_finish(old(cx)@);
                    &&& final(cx)@ == cx2
                    &&& match p {
                        Poll::Pending => r is Pending && final(self)@ == Some(t),
                        Poll::Ready(Err(e)) => (r matches Poll::Ready(Err(g)) && g
                            == BackendError::BodyWriteError(e)) && final(self)@ == Some(t),
                        Poll::Ready(Ok(())) => (r matches Poll::Ready(Ok(w)) && w.io() == f.writer)
                            && final(self)@ is None,
                    }
                },
            },
    {
        match self.inner.take() {
            None => Poll::Ready(Err(BackendError::BodyWriteError(BodyError::WriteAfterError))),
            Some(mut finish) => match finish.poll_finish(cx) {
                Poll::Pending => {
                    self.inner = Some(finish);
                    Poll::Pending
                },
                Poll::Ready(Err(e)) => {
                    self.inner = Some(finish);
                    Poll::Ready(Err(BackendError::BodyWriteError(e)))
                },
                Poll::Ready(Ok(())) => match finish.into_writer() {
                    Ok(writer) => Poll::Ready(Ok(BackendWriter { writer })),
                    Err(e) => Poll::Ready(Err(BackendError::BodyWriteError(e))),
                },
            },
        }
    }
}

/// The body writer for a backend connection; it is typed so that finishing,
/// can produce a [`BackendWriter`] without exposing raw IO.
pub enum BackendBodyWriter<I> {
    Bodyless(BackendBodylessBodyWriter<I>),
    CL(BackendContentLengthBodyWriter<I>),
    TE(BackendChunkedBodyWriter<I>),
}

/// The model of a [`BackendBodyWriter`].
pub enum BackendBodyView<I> {
    Bodyless(I),
    CL(ContentLengthWriterView<I>),
    TE(ChunkedWriterView<I>),
}

impl<I> BackendBodyView<I> {
    /// `buf` is written to the body, but for its first `written` bytes. There
    /// is no body that anything could be written to where there is none.
    pub open spec fn poll_write(self, cx: Cx, buf: Seq<u8>, written: nat) -> (
        Self,
        Cx,
        nat,
        Poll<BackendResult<()>>,
    ) {
        match self {
            BackendBodyView::Bodyless(_) => (
                self,
                cx,
                written,
                Poll::Ready(
                    Err(BackendError::BodyWriteError(BodyError::BodyOverflow(buf.len() as u64))),
                ),
            ),
            BackendBodyView::CL(w) => {
                let (w, cx, now, p) = w.poll_write_all(cx, buf, written);
                (BackendBodyView::CL(w), cx, now, write_result(p))
            },
            BackendBodyView::TE(w) => {
                let (w, cx, p) = w.poll_write(cx, buf);
                (BackendBodyView::TE(w), cx, written, write_result(p))
            },
        }
    }
}

impl<I> View for BackendBodyWriter<I> {
    type V = BackendBodyView<I>;

    open spec fn view(&self) -> BackendBodyView<I> {
        match *self {
            BackendBodyWriter::Bodyless(w) => BackendBodyView::Bodyless(w.io()),
            BackendBodyWriter::CL(w) => BackendBodyView::CL(w@),
            BackendBodyWriter::TE(w) => BackendBodyView::TE(w@),
        }
    }
}

/// The end of a body that is being written, by kind.
enum BackendFinishing<I> {
    Bodyless(BackendBodylessBodyWriter<I>),
    CL(BackendContentLengthBodyWriter<I>),
    TE(BackendChunkedBodyFinisher<I>),
}

/// The model of the end of a body that is being written.
pub enum BackendFinishView<I> {
    Bodyless(I),
    CL(ContentLengthWriterView<I>),
    TE(FinishView<I>),
}

impl<I> BackendFinishView<I> {
    /// The end of the body is written. Gives the connection.
    pub open spec fn poll_finish(self, cx: Cx) -> (
        Option<Self>,
        Cx,
        Poll<BackendResult<I>>,
    ) {
        match self {
            BackendFinishView::Bodyless(io) => (None, cx, Poll::Ready(Ok(io))),
            BackendFinishView::CL(w) => {
                let (cx, _, p) = flush_step(cx, false);
                match p {
                    Poll::Pending => (Some(self), cx, Poll::Pending),
                    Poll::Ready(Err(e)) => (
                        None,
                        cx,
                        Poll::Ready(Err(BackendError::BodyWriteError(e))),
                    ),
                    Poll::Ready(Ok(())) => (
                        None,
                        cx,
                        if w.offset < w.length {
                            Poll::Ready(Err(BackendError::BodyWriteError(w.incomplete())))
                        } else {
                            Poll::Ready(Ok(w.writer))
                        },
                    ),
                }
            },
            BackendFinishView::TE(f) => {
                let (f, cx, p) = f.poll_finish(cx);
                match p {
                    Poll::Pending => (Some(BackendFinishView::TE(f)), cx, Poll::Pending),
                    Poll::Ready(Err(e)) => (
                        None,
                        cx,
                        Poll::Ready(Err(BackendError::BodyWriteError(e))),
                    ),
                    Poll::Ready(Ok(())) => (None, cx, Poll::Ready(Ok(f.writer))),
                }
            },
        }
    }
}

/// Writes the end of a body, whichever way the body ends.
pub struct BackendBodyFinisher<I> {
    state: Option<BackendFinishing<I>>,
}

impl<I> View for BackendBodyFinisher<I> {
    type V = Option<BackendFinishView<I>>;

    closed spec fn view(&self) -> Option<BackendFinishView<I>> {
        match self.state {
            None => None,
            Some(BackendFinishing::Bodyless(w)) => Some(BackendFinishView::Bodyless(w.io())),
            Some(BackendFinishing::CL(w)) => Some(BackendFinishView::CL(w@)),
            Some(BackendFinishing::TE(f)) => match f@ {
                None => None,
                Some(f) => Some(BackendFinishView::TE(f)),
            },
        }
    }
}

/// The connection of a writer that is given back.
pub open spec fn finished_view<I>(r: Poll<BackendResult<BackendWriter<I>>>) -> Poll<
    BackendResult<I>,
> {
    match r {
        Poll::Pending => Poll::Pending,
        Poll::Ready(Err(e)) => Poll::Ready(Err(e)),
        Poll::Ready(Ok(w)) => Poll::Ready(Ok(w.io())),
    }
}

impl<I> BackendBodyFinisher<I> {
    /// Write the rest of the end of the body. Gives the writer for the next
    /// request; once this is done or has failed, every further poll fails.
    pub fn poll_finish(&mut self, cx: &mut Context) -> (r: Poll<
        BackendResult<BackendWriter<I>>,
    >)
        ensures
            (final(self)@, final(cx)@, finished_view(r)) == (match old(self)@ {
                None => (
                    None,
                    old(cx)@,
                    Poll::Ready(Err(BackendError::BodyWriteError(BodyError::WriteAfterError))),
                ),
                Some(f) => f.poll_finish(old(cx)@),
            }),
    {
        match self.state.take() {
            None => Poll::Ready(Err(BackendError::BodyWriteError(BodyError::WriteAfterError))),
            Some(BackendFinishing::Bodyless(w)) => match w.finish() {
                Ok(w) => Poll::Ready(Ok(w)),
                Err(e) => Poll::Ready(Err(e)),
            },
            Some(BackendFinishing::CL(mut w)) => match w.poll_flush(cx) {
                Poll::Pending => {
                    self.state = Some(BackendFinishing::CL(w));
                    Poll::Pending
                },
                Poll::Ready(Err(e)) => Poll::Ready(Err(e)),
                Poll::Ready(Ok(())) => match w.into_writer() {
                    Ok(w) => Poll::Ready(Ok(w)),
                    Err(e) => Poll::Ready(Err(e)),
                },
            },
            Some(BackendFinishing::TE(mut f)) => match f.poll_finish(cx) {
                Poll::Pending => {
                    self.state = Some(BackendFinishing::TE(f));
                    Poll::Pending
                },
                Poll::Ready(Err(e)) => Poll::Ready(Err(e)),
                Poll::Ready(Ok(w)) => Poll::Ready(Ok(w)),
            },
        }
    }
}

impl<I> BackendBodyWriter<I> {
    /// Write `buf` to the body, but for its first `written` bytes, which is kept
    /// up to date across polls. While the write is pending, the same buffer has
    /// to be given again.
    pub fn poll_write(&mut self, cx: &mut Context, buf: &[u8], written: &mut usize) -> (r: Poll<
        BackendResult<()>,
    >)
        requires
            old(self)@ matches BackendBodyView::TE(w) ==> w.written() <= buf@.len(),
        ensures
            (final(self)@, final(cx)@, *final(written) as nat, r) == old(self)@.poll_write(
                old(cx)@,
                buf@,
                *old(written) as nat,
            ),
    {
        match self {
            BackendBodyWriter::Bodyless(_) => Poll::Ready(
                Err(BackendError::BodyWriteError(BodyError::BodyOverflow(buf.len() as u64))),
            ),
            BackendBodyWriter::CL(w) => w.poll_write_all(cx, buf, written),
            BackendBodyWriter::TE(w) => w.poll_write(cx, buf),
        }
    }

    /// End the body. Errors where a chunk has not been written to its end.
    pub fn into_finisher(self) -> (r: BackendResult<BackendBodyFinisher<I>>)
        ensures
            match self@ {
                BackendBodyView::Bodyless(io) => r matches Ok(f) && f@ == Some(
                    BackendFinishView::Bodyless(io),
                ),
                BackendBodyView::CL(w) => r matches Ok(f) && f@ == Some(BackendFinishView::CL(w)),
                BackendBodyView::TE(ChunkedWriterView(Some(ChunkStateView::Idle(writer)))) => {
                    r matches Ok(f) && f@ == Some(
                        BackendFinishView::TE(
                            FinishView {
                                writer,
                                data: encode_end(Seq::empty()),
                                written: 0,
                                flushed: false,
                            },
                        ),
                    )
                },
                BackendBodyView::TE(_) => r matches Err(e) && e == BackendError::BodyWriteError(
                    BodyError::WriteAfterError,
                ),
            },
    {
        let state = match self {
            BackendBodyWriter::Bodyless(w) => BackendFinishing::Bodyless(w),
            BackendBodyWriter::CL(w) => BackendFinishing::CL(w),
            BackendBodyWriter::TE(w) => match w.into_finisher(&Headers::default()) {
                Ok(f) => BackendFinishing::TE(f),
                Err(e) => return Err(e),
            },
        };
        Ok(BackendBodyFinisher { state: Some(state) })
    }

    /// Poison the body, as far as there is anything to write for that.
    pub fn into_abort(self) -> (r: Option<Abort<I>>)
        ensures
            match self@ {
                BackendBodyView::TE(ChunkedWriterView(Some(ChunkStateView::Idle(writer)))) => {
                    r matches Some(a) && a@ == (AbortView {
                        writer,
                        written: false,
                        flushed: false,
                    })
                },
                _ => r is None,
            },
    {
        match self {
            BackendBodyWriter::TE(w) => w.into_abort(),
            _ => None,
        }
    }
}

/// A write of a buffer to a body puts on the wire just what is left of it, in order and once,
/// and says so in `written`; it is done exactly where nothing is left, however long the buffer
/// is. A body of stated length takes no more than that, and counts what it took; where there
/// is no body, every write is refused, and puts nothing on the wire.
pub proof fn writes_put_the_buffer_on_the_wire<I>(
    w: &mut BackendBodyWriter<I>,
    cx: &mut Context,
    buf: &[u8],
    written: &mut usize,
    r: Poll<BackendResult<()>>,
)
    requires
        call_ensures(BackendBodyWriter::<I>::poll_write, (w, cx, buf, written), r),
        *old(written) <= buf@.len(),
        old(w)@ matches BackendBodyView::CL(c) ==> c.offset <= c.length,
    ensures
        ({
            let before = *old(written);
            let now = *final(written);
            match old(w)@ {
                BackendBodyView::Bodyless(_) => {
                    &&& final(w)@ == old(w)@
                    &&& final(cx)@ == old(cx)@
                    &&& now == before
                    &&& r matches Poll::Ready(Err(BackendError::BodyWriteError(e))) && e
                        == BodyError::BodyOverflow(buf@.len() as u64)
                },
                BackendBodyView::CL(c) => {
                    &&& final(w)@ matches BackendBodyView::CL(d) && d.length == c.length && d.writer
                        == c.writer && d.offset - c.offset == now - before && d.offset <= d.length
                    &&& before <= now <= buf@.len()
                    &&& final(cx)@.wire + buf@.skip(now as int) == old(cx)@.wire + buf@.skip(
                        before as int,
                    )
                    &&& (r is Ready && r->Ready_0 is Ok) == (now == buf@.len())
                    &&& c.offset + (buf@.len() - before) > c.length ==> final(cx)@ == old(cx)@ && (
                    r matches Poll::Ready(Err(BackendError::BodyWriteError(e))) && e
                        == BodyError::BodyOverflow(c.length))
                    &&& c.offset + (buf@.len() - before) <= c.length && before < buf@.len() ==> (
                    match old(cx)@.write {
                        None => r is Pending && now == before,
                        Some(Err(e)) => (r matches Poll::Ready(Err(BackendError::BodyWriteError(f)))
                            && f == BodyError::BodyWriteError(WriteFailure::Io(e))) && now == before,
                        Some(Ok(0)) => (r matches Poll::Ready(Err(BackendError::BodyWriteError(f)))
                            && f == BodyError::BodyWriteError(WriteFailure::WriteZero)) && now
                            == before,
                        Some(Ok(n)) => now == (if before + n <= buf@.len() {
                            before + n
                        } else {
                            buf@.len() as int
                        }),
                    })
                },
                BackendBodyView::TE(c) => {
                    let (d, cx2, p) = c.poll_write(old(cx)@, buf@);
                    &&& final(w)@ == BackendBodyView::TE(d)
                    &&& final(cx)@ == cx2
                    &&& now == before
                    &&& match p {
                        Poll::Pending => r is Pending,
                        Poll::Ready(Ok(())) => r is Ready && r->Ready_0 is Ok,
                        Poll::Ready(Err(e)) => r matches Poll::Ready(
                            Err(BackendError::BodyWriteError(f)),
                        ) && f == e,
                    }
                },
            }
        }),
{
    let before = *old(written) as nat;
    assert(buf.len() == buf@.len());
    crate::transport::puts_go_on_where_they_were_left(old(cx)@, buf@, before);
    if let BackendBodyView::CL(c) = old(w)@ {
        crate::body::writer::bounded_put_keeps_bytes(
            old(cx)@,
            c.length,
            c.offset,
            buf@,
            before,
        );
        crate::body::writer::put_failures_are_those_of_the_wire(old(cx)@, buf@, before);
    }
}

/// The end of a body is written, and flushed, before the connection comes back. A body of
/// stated length that is not complete is refused, and told how much of it is missing; and
/// where there is no body, the connection comes back at once.
pub proof fn ends_are_flushed_first<I>(f: BackendFinishView<I>, cx: Cx)
    ensures
        ({
            let (t, cx2, p) = f.poll_finish(cx);
            &&& p is Pending <==> t is Some
            &&& match f {
                BackendFinishView::Bodyless(io) => cx2 == cx && p == Poll::Ready(
                    Ok::<_, BackendError>(io),
                ),
                BackendFinishView::CL(w) => cx2.wire == cx.wire && cx2.flush is None && (
                match cx.flush {
                    None => p is Pending && t == Some(f),
                    Some(Err(e)) => p matches Poll::Ready(
                        Err(BackendError::BodyWriteError(BodyError::BodyWriteError(g))),
                    ) && g == WriteFailure::Io(e),
                    Some(Ok(())) => if w.offset < w.length {
                        p matches Poll::Ready(
                            Err(
                                BackendError::BodyWriteError(
                                    BodyError::IncompleteBody { expected, actual },
                                ),
                            ),
                        ) && expected == w.length && actual == w.offset
                    } else {
                        p == Poll::Ready(Ok::<_, BackendError>(w.writer))
                    },
                }),
                BackendFinishView::TE(g) => {
                    let (h, cx3, q) = g.poll_finish(cx);
                    &&& cx2 == cx3
                    &&& match q {
                        Poll::Pending => t == Some(BackendFinishView::TE(h)),
                        Poll::Ready(Ok(())) => p == Poll::Ready(
                            Ok::<_, BackendError>(g.writer),
                        ),
                        Poll::Ready(Err(e)) => p == Poll::Ready(
                            Err::<I, _>(BackendError::BodyWriteError(e)),
                        ),
                    }
                },
            }
        }),
{
}

/// A body is ended as its kind is: only one of chunks has anything to write for that, the
/// last chunk without trailers; and only one inside a chunk cannot be ended.
pub proof fn bodies_are_ended_by_kind<I>(
    w: BackendBodyWriter<I>,
    r: BackendResult<BackendBodyFinisher<I>>,
)
    requires
        call_ensures(BackendBodyWriter::<I>::into_finisher, (w,), r),
    ensures
        match (w@, r) {
            (BackendBodyView::Bodyless(a), Ok(f)) => f@ == Some(BackendFinishView::Bodyless(a)),
            (BackendBodyView::CL(a), Ok(f)) => f@ == Some(BackendFinishView::CL(a)),
            (
                BackendBodyView::TE(ChunkedWriterView(Some(ChunkStateView::Idle(io)))),
                Ok(f),
            ) => {
                &&& f@ matches Some(BackendFinishView::TE(g)) && g.writer == io && g.data == seq![
                    '0' as u8,
                    13u8,
                    10u8,
                    13u8,
                    10u8,
                ] && g.written == 0 && !g.flushed
            },
            (BackendBodyView::TE(c), Err(e)) => {
                &&& !(c.0 is Some && c.0->Some_0 is Idle)
                &&& e == BackendError::BodyWriteError(BodyError::WriteAfterError)
            },
            _ => false,
        },
{
    crate::body::chunk_coding::chunks_are_written_with_their_length(
        Seq::empty(),
        Seq::empty(),
        Seq::empty(),
    );
    assert(crate::http_message::raw::field_lines(Seq::empty()) =~= Seq::empty());
    assert(encode_end(Seq::empty()) =~= seq!['0' as u8, 13u8, 10u8, 13u8, 10u8]);
}

/// A head is sent with the framing of the body that follows it: the fields that it is written
/// with state the length of a body of stated length and the coding of a chunked body, and
/// nothing where there is none; and it is sent from its start.
pub proof fn heads_frame_the_body_that_follows<I>(
    io: BackendWriter<I>,
    req: &Request,
    n: u64,
    chunked: BackendSend<BackendBodyWriter<I>>,
    counted: BackendSend<BackendBodyWriter<I>>,
    none: BackendSend<BackendBodyWriter<I>>,
)
    requires
        call_ensures(BackendWriter::<I>::send_as_chunked, (io, req), chunked),
        call_ensures(BackendWriter::<I>::send_as_content_length, (io, req, n), counted),
        call_ensures(BackendWriter::<I>::send_as_bodyless, (io, req), none),
    ensures
        chunked.head().data == request_head(req@, WriteFraming::Chunked),
        chunked.next()@ matches BackendBodyView::TE(w) && w.0 matches Some(
            ChunkStateView::Idle(to),
        ) && to == io.io(),
        counted.head().data == request_head(req@, WriteFraming::Length(n)),
        counted.next()@ matches BackendBodyView::CL(w) && w.length == n && w.offset == 0
            && w.writer == io.io(),
        none.head().data == request_head(req@, WriteFraming::StripFraming),
        none.next()@ == BackendBodyView::Bodyless(io.io()),
        chunked.head().written == 0 && counted.head().written == 0 && none.head().written == 0,
        !chunked.head().flushed && !counted.head().flushed && !none.head().flushed,
{
}

/// The head of a request is sent as any head is; a failure of the transport is one to write
/// to the backend.
pub proof fn heads_are_sent_in_full<B>(
    s: &mut BackendSend<B>,
    cx: &mut Context,
    r: Poll<BackendResult<()>>,
)
    requires
        call_ensures(BackendSend::<B>::poll_send, (s, cx), r),
    ensures
        final(s).next() == old(s).next(),
        ({
            let (t, cx2, p) = old(s).head().poll_send(old(cx)@);
            &&& final(s).head() == t
            &&& final(cx)@ == cx2
            &&& match p {
                Poll::Pending => r is Pending,
                Poll::Ready(Ok(())) => r is Ready && r->Ready_0 is Ok,
                Poll::Ready(Err(e)) => r matches Poll::Ready(Err(BackendError::WriteError(f)))
                    && f == e,
            }
        }),
{
}

/// A write to a body of stated length puts on the wire the front of the buffer that the
/// transport accepted, and counts it; one that would go beyond the length is refused, and puts
/// nothing on the wire. The connection comes back exactly where the body is complete.
pub proof fn bodies_of_stated_length_count_what_they_take<I>(
    w: &mut BackendContentLengthBodyWriter<I>,
    cx: &mut Context,
    buf: &[u8],
    r: Poll<BackendResult<usize>>,
    v: BackendContentLengthBodyWriter<I>,
    s: BackendResult<BackendWriter<I>>,
)
    requires
        call_ensures(BackendContentLengthBodyWriter::<I>::poll_write, (w, cx, buf), r),
        call_ensures(BackendContentLengthBodyWriter::<I>::into_writer, (v,), s),
        old(w)@.offset <= old(w)@.length,
        v@.offset <= v@.length,
    ensures
        final(w)@.length == old(w)@.length && final(w)@.writer == old(w)@.writer,
        final(cx)@.wire == old(cx)@.wire + buf@.take(final(w)@.offset - old(w)@.offset),
        old(w)@.offset <= final(w)@.offset <= final(w)@.length,
        old(w)@.offset + buf@.len() > old(w)@.length ==> {
            &&& final(w)@ == old(w)@ && final(cx)@ == old(cx)@
            &&& r matches Poll::Ready(Err(BackendError::BodyWriteError(e))) && e
                == BodyError::BodyOverflow(old(w)@.length)
        },
        r matches Poll::Ready(Ok(n)) ==> final(w)@.offset == old(w)@.offset + n,
        old(w)@.offset + buf@.len() <= old(w)@.length ==> (match (old(cx)@.write, r) {
            (None, Poll::Pending) => true,
            (Some(Ok(n)), Poll::Ready(Ok(m))) => m == n || (n > buf@.len() && m == buf@.len()),
            (Some(Err(e)), Poll::Ready(Err(BackendError::BodyWriteError(f)))) => f
                == BodyError::BodyWriteError(WriteFailure::Io(e)),
            _ => false,
        }),
        match s {
            Ok(io) => v@.offset == v@.length && io.io() == v@.writer,
            Err(BackendError::BodyWriteError(e)) => v@.offset < v@.length && e
                == (BodyError::IncompleteBody { expected: v@.length, actual: v@.offset }),
            _ => false,
        },
{
    assert(buf.len() == buf@.len());
    crate::body::writer::bounded_write_keeps_bytes(
        old(cx)@,
        old(w)@.length,
        old(w)@.offset,
        buf@,
    );
    crate::transport::writes_put_what_was_accepted_on_the_wire(old(cx)@, buf@);
}

} // verus!
