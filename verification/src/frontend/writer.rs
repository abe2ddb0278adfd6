//! Tools for writing responses to a HTTP/1.x frontend.
//!
//! A [`FrontendWriter`] writes a stream of responses: each of its `send_as_*`
//! methods frames a response head, and once the head is sent gives a writer for
//! the body; finishing the body gives back a [`FrontendWriter`] for the next
//! response, where the connection can be used again.
use vstd::prelude::*;

use crate::body::chunk_coding::encode_end;
use crate::body::error::BodyError;
use crate::body::writer::bodyless::BodylessBodyWriter;
use crate::body::writer::chunked::{Abort, AbortView, Finish, FinishView};
use crate::body::writer::chunked_body::{
    chunked_write_keeps_io, write_keeps_bytes, ChunkStateView, ChunkedBodyWriter, ChunkedWriterView,
};
use crate::body::writer::content_length::{ContentLengthBodyWriter, ContentLengthWriterView};
use crate::body::writer::{flush_step, put_keeps_bytes, put_step};
use crate::frontend::error::{map_write, write_result, FrontendError, FrontendResult};
use crate::http_message::framing::WriteFraming;
use crate::http_message::head::{response_head, write_response_to, HeadWrite, HeadWriteView};
use crate::http_message::header::Headers;
use crate::http_message::message::{Response, ResponseView};
use crate::transport::{Context, Cx, Poll, WriteFailure};

pub mod bodyless;
pub mod body;
pub mod chunked;
pub mod content_length;
pub mod eof;

verus! {

/// Writes a response to a frontend.
#[derive(Debug)]
pub struct FrontendWriter<I> {
    writer: I,
}

/// A response head that is being sent. What is to follow it is given out once it
/// has been sent.
pub struct FrontendSend<B> {
    head: HeadWrite,
    next: B,
}

impl<B> FrontendSend<B> {
    /// The head.
    pub closed spec fn head(&self) -> HeadWriteView {
        self.head@
    }

    /// What is to follow the head.
    pub closed spec fn next(&self) -> B {
        self.next
    }

    /// A head that starts to be sent.
    pub open spec fn starts(&self, res: ResponseView, framing: WriteFraming) -> bool {
        self.head() == (HeadWriteView {
            data: response_head(res, framing),
            written: 0,
            flushed: false,
        })
    }

    fn new(res: &Response, framing: WriteFraming, next: B) -> (r: Self)
        ensures
            r.starts(res@, framing),
            r.next() == next,
    {
        Self { head: HeadWrite::new(write_response_to(res, framing)), next }
    }

    /// Send the rest of the head.
    pub fn poll_send(&mut self, cx: &mut Context) -> (r: Poll<FrontendResult<()>>)
        ensures
            ({
                let (t, cx2, p) = old(self).head().poll_send(old(cx)@);
                final(self).head() == t && final(cx)@ == cx2 && r == sent_result(p)
            }),
            final(self).next() == old(self).next(),
            final(cx)@.wire + final(self).head().pending() == old(cx)@.wire
                + old(self).head().pending(),
            (r matches Poll::Ready(Ok(()))) ==> final(self).head().is_sent(),
    {
        match self.head.poll_send(cx) {
            Poll::Pending => Poll::Pending,
            Poll::Ready(Ok(())) => Poll::Ready(Ok(())),
            Poll::Ready(Err(e)) => Poll::Ready(Err(FrontendError::WriteError(e))),
        }
    }

    /// What follows the head, which has to have been sent.
    pub fn into_next(self) -> (next: B)
        requires
            self.head().is_sent(),
        ensures
            next == self.next(),
    {
        let Self { head: _, next } = self;
        next
    }
}

/// An outcome of writing to the connection, as an outcome of the frontend.
pub open spec fn sent_result(p: Poll<Result<(), WriteFailure>>) -> Poll<FrontendResult<()>> {
    match p {
        Poll::Pending => Poll::Pending,
        Poll::Ready(Ok(())) => Poll::Ready(Ok(())),
        Poll::Ready(Err(e)) => Poll::Ready(Err(FrontendError::WriteError(e))),
    }
}

/// An outcome of a flush of the connection, as an outcome of the frontend.
pub open spec fn flushed_result(p: Poll<Result<(), std::io::Error>>) -> Poll<FrontendResult<()>> {
    match p {
        Poll::Pending => Poll::Pending,
        Poll::Ready(Ok(())) => Poll::Ready(Ok(())),
        Poll::Ready(Err(e)) => Poll::Ready(Err(FrontendError::WriteError(WriteFailure::Io(e)))),
    }
}

impl<I> FrontendWriter<I> {
    /// The connection.
    pub closed spec fn io(&self) -> I {
        self.writer
    }

    /// Give back the connection.
    pub fn into_inner(self) -> (io: I)
        ensures
            io == self.io(),
    {
        let Self { writer } = self;
        writer
    }

    /// The connection.
    pub fn as_inner(&self) -> (io: &I)
        ensures
            *io == self.io(),
    {
        &self.writer
    }

    /// Create a new frontend writer that will write responses into the
    /// specified `io`.
    pub fn new(writer: I) -> (r: Self)
        ensures
            r.io() == writer,
    {
        Self { writer }
    }

    /// Send the response with a body terminated by connection close (RFC 9112
    /// section 6.3). Any framing headers from the origin are stripped. Use this
    /// when the client cannot decode chunked transfer encoding (e.g. HTTP/1.0).
    ///
    /// Finishing the returned [`FrontendBodyWriter`] does not produce a
    /// [`FrontendWriter`] - the connection must be closed after the body is
    /// sent.
    ///
    /// Note that dropping this body has the same effect as finishing the body.
    /// It is impossible for the client to determine if it received an entire
    /// response based only on the standard headers and body.
    pub fn send_as_eof(self, response: &Response) -> (r: FrontendSend<FrontendBodyWriter<I>>)
        ensures
            r.starts(response@, WriteFraming::StripFraming),
            r.next()@ == FrontendBodyView::Close(self.io()),
    {
        let Self { writer } = self;
        FrontendSend::new(
            response,
            WriteFraming::StripFraming,
            FrontendBodyWriter::Close(FrontendEofBodyWriter { writer }),
        )
    }

    /// Send the specified response with a chunked response body.
    pub fn send_as_chunked(self, response: &Response) -> (r: FrontendSend<FrontendBodyWriter<I>>)
        ensures
            r.starts(response@, WriteFraming::Chunked),
            r.next()@ == FrontendBodyView::TE(
                ChunkedWriterView(Some(ChunkStateView::Idle(self.io()))),
            ),
    {
        let Self { writer } = self;
        FrontendSend::new(
            response,
            WriteFraming::Chunked,
            FrontendBodyWriter::TE(
                FrontendChunkedBodyWriter { inner: ChunkedBodyWriter::new(writer) },
            ),
        )
    }

    /// Send the specified response with a content-length delimited response
    /// body. The [`FrontendBodyWriter`] will only accept the specified number
    /// of bytes.
    pub fn send_as_content_length(self, response: &Response, body_len: u64) -> (r: FrontendSend<
        FrontendBodyWriter<I>,
    >)
        ensures
            r.starts(response@, WriteFraming::Length(body_len)),
            r.next()@ == FrontendBodyView::CL(
                ContentLengthWriterView { length: body_len, offset: 0, writer: self.io() },
            ),
    {
        let Self { writer } = self;
        FrontendSend::new(
            response,
            WriteFraming::Length(body_len),
            FrontendBodyWriter::CL(
                FrontendContentLengthBodyWriter {
                    inner: ContentLengthBodyWriter::new(body_len, writer),
                },
            ),
        )
    }

    /// Send the specified response with no body, whatever its framing headers
    /// say: a `content-length` or `transfer-encoding: chunked` header stays in
    /// place, and no byte of a body is accepted. If this is used with something
    /// like a 1xx-informational response, it is assumed that the response
    /// adheres to the standard (no content-length or transfer-encoding headers
    /// in the 1xx response, etc).
    pub fn send_as_bodyless(self, response: &Response) -> (r: FrontendSend<FrontendBodyWriter<I>>)
        ensures
            r.starts(response@, WriteFraming::PreserveFraming),
            r.next()@ == FrontendBodyView::CL(
                ContentLengthWriterView { length: 0, offset: 0, writer: self.io() },
            ),
    {
        let Self { writer } = self;
        FrontendSend::new(
            response,
            WriteFraming::PreserveFraming,
            FrontendBodyWriter::CL(
                FrontendContentLengthBodyWriter { inner: ContentLengthBodyWriter::new(0, writer) },
            ),
        )
    }

    /// Send the response to the frontend with no body, preserving any framing
    /// headers (`content-length`, `transfer-encoding`) from the origin.
    ///
    /// Use this for responses to `HEAD` requests and `304 Not Modified`
    /// responses, where framing headers describe the representation that
    /// *would* have been sent rather than an actual body.
    pub fn send_as_bodyless_keep_framing(self, response: &Response) -> (r: FrontendSend<
        FrontendBodyWriter<I>,
    >)
        ensures
            r.starts(response@, WriteFraming::PreserveFraming),
            r.next()@ == FrontendBodyView::Bodyless(self.io()),
    {
        let Self { writer } = self;
        FrontendSend::new(
            response,
            WriteFraming::PreserveFraming,
            FrontendBodyWriter::Bodyless(
                FrontendBodylessBodyWriter { inner: BodylessBodyWriter::new(writer) },
            ),
        )
    }

    /// Send the response to the frontend with no body, stripping any framing
    /// headers from the origin.
    ///
    /// Use this for responses that must never carry a body by definition: `1xx`
    /// informational responses and `204 No Content`. Forwarding a
    /// `content-length` on these would corrupt the client's parser.
    ///
    /// Note that this returns [`FrontendBodylessBodyWriter`] rather than
    /// [`FrontendBodyWriter`].
    pub fn send_as_no_content(self, response: &Response) -> (r: FrontendSend<
        FrontendBodylessBodyWriter<I>,
    >)
        ensures
            r.starts(response@, WriteFraming::StripFraming),
            r.next().io() == self.io(),
    {
        let Self { writer } = self;
        FrontendSend::new(
            response,
            WriteFraming::StripFraming,
            FrontendBodylessBodyWriter { inner: BodylessBodyWriter::new(writer) },
        )
    }
}

/// Frontend writer for bodies terminated by connection close (RFC 9112 section
/// 6.3).
///
/// Produced by [`FrontendWriter::send_as_eof`]. Finishing this writer does not
/// return a [`FrontendWriter`] - the connection is closed once the body is
/// sent.
pub struct FrontendEofBodyWriter<I> {
    writer: I,
}

impl<I> FrontendEofBodyWriter<I> {
    /// The connection.
    pub closed spec fn io(&self) -> I {
        self.writer
    }

    /// Write some prefix of `buf`.
    pub fn poll_write(&mut self, cx: &mut Context, buf: &[u8]) -> (r: Poll<FrontendResult<usize>>)
        ensures
            *final(self) == *old(self),
            final(cx)@ == old(cx)@.poll_write(buf@).0,
            r == (match old(cx)@.poll_write(buf@).1 {
                Poll::Pending => Poll::Pending,
                Poll::Ready(Ok(n)) => Poll::Ready(Ok(n)),
                Poll::Ready(Err(e)) => Poll::Ready(
                    Err(FrontendError::WriteError(WriteFailure::Io(e))),
                ),
            }),
    {
        match cx.poll_write(buf) {
            Poll::Pending => Poll::Pending,
            Poll::Ready(Ok(n)) => Poll::Ready(Ok(n)),
            Poll::Ready(Err(e)) => Poll::Ready(Err(FrontendError::WriteError(WriteFailure::Io(e)))),
        }
    }

    /// Flush what was written.
    pub fn poll_flush(&mut self, cx: &mut Context) -> (r: Poll<FrontendResult<()>>)
        ensures
            *final(self) == *old(self),
            final(cx)@ == old(cx)@.poll_flush().0,
            r == flushed_result(old(cx)@.poll_flush().1),
    {
        match cx.poll_flush() {
            Poll::Pending => Poll::Pending,
            Poll::Ready(Ok(())) => Poll::Ready(Ok(())),
            Poll::Ready(Err(e)) => Poll::Ready(Err(FrontendError::WriteError(WriteFailure::Io(e)))),
        }
    }

    /// Write all of `buf` but its first `written` bytes.
    pub fn poll_write_all(&mut self, cx: &mut Context, buf: &[u8], written: &mut usize) -> (r: Poll<
        FrontendResult<()>,
    >)
        ensures
            *final(self) == *old(self),
            ({
                let (cx2, now, p) = old(cx)@.poll_put(buf@, *old(written) as nat);
                final(cx)@ == cx2 && *final(written) == now && r == sent_result(p)
            }),
    {
        match cx.poll_put(buf, written) {
            Poll::Pending => Poll::Pending,
            Poll::Ready(Ok(())) => Poll::Ready(Ok(())),
            Poll::Ready(Err(e)) => Poll::Ready(Err(FrontendError::WriteError(e))),
        }
    }
}

/// Frontend wrapper for [`BodylessBodyWriter`].
pub struct FrontendBodylessBodyWriter<I> {
    inner: BodylessBodyWriter<I>,
}

impl<I> FrontendBodylessBodyWriter<I> {
    /// The connection.
    pub closed spec fn io(&self) -> I {
        self.inner.io()
    }

    /// The writer for the next response.
    pub fn finish(self) -> (r: FrontendResult<FrontendWriter<I>>)
        ensures
            r matches Ok(w) && w.io() == self.io(),
    {
        let Self { inner } = self;
        Ok(FrontendWriter { writer: inner.finish() })
    }
}

/// Frontend wrapper for [`ContentLengthBodyWriter`].
pub struct FrontendContentLengthBodyWriter<I> {
    inner: ContentLengthBodyWriter<I>,
}

impl<I> View for FrontendContentLengthBodyWriter<I> {
    type V = ContentLengthWriterView<I>;

    closed spec fn view(&self) -> ContentLengthWriterView<I> {
        self.inner@
    }
}

impl<I> FrontendContentLengthBodyWriter<I> {
    /// Write some prefix of `buf`.
    pub fn poll_write(&mut self, cx: &mut Context, buf: &[u8]) -> (r: Poll<FrontendResult<usize>>)
        ensures
            ({
                let (t, cx2, p) = old(self)@.poll_write(old(cx)@, buf@);
                final(self)@ == t && final(cx)@ == cx2 && r == write_result(p)
            }),
    {
        map_write(self.inner.poll_write(cx, buf))
    }

    /// Flush what was written.
    pub fn poll_flush(&mut self, cx: &mut Context) -> (r: Poll<FrontendResult<()>>)
        ensures
            final(self)@ == old(self)@,
            final(cx)@ == flush_step(old(cx)@, false).0,
            r == write_result(flush_step(old(cx)@, false).2),
    {
        map_write(self.inner.poll_flush(cx))
    }

    /// Write all of `buf` but its first `written` bytes.
    pub fn poll_write_all(&mut self, cx: &mut Context, buf: &[u8], written: &mut usize) -> (r: Poll<
        FrontendResult<()>,
    >)
        ensures
            ({
                let (t, cx2, now, p) = old(self)@.poll_write_all(
                    old(cx)@,
                    buf@,
                    *old(written) as nat,
                );
                final(self)@ == t && final(cx)@ == cx2 && *final(written) == now && r
                    == write_result(p)
            }),
    {
        map_write(self.inner.poll_write_all(cx, buf, written))
    }

    /// The writer for the next response. Errors where the body has not been
    /// written to its end.
    pub fn into_writer(self) -> (r: FrontendResult<FrontendWriter<I>>)
        ensures
            match r {
                Ok(w) => self@.offset == self@.length && w.io() == self@.writer,
                Err(e) => self@.offset < self@.length && e == FrontendError::BodyWriteError(
                    self@.incomplete(),
                ),
            },
    {
        let Self { inner } = self;
        match inner.into_writer() {
            Ok(writer) => Ok(FrontendWriter { writer }),
            Err(e) => Err(FrontendError::BodyWriteError(e)),
        }
    }
}

/// Frontend wrapper for a chunked body writer. Finishing it with trailers
/// forwards them to the frontend as chunked trailer fields.
pub struct FrontendChunkedBodyWriter<I> {
    inner: ChunkedBodyWriter<I>,
}

impl<I> View for FrontendChunkedBodyWriter<I> {
    type V = ChunkedWriterView<I>;

    closed spec fn view(&self) -> ChunkedWriterView<I> {
        self.inner@
    }
}

impl<I> FrontendChunkedBodyWriter<I> {
    /// Consume the writer and return a [`FrontendChunkedBodyFinisher`] that
    /// writes the terminal chunk and trailers. Returns an error if the writer
    /// is not at a chunk boundary (i.e. not in the idle state).
    pub fn into_finisher(self, trailers: &Headers) -> (r: FrontendResult<
        FrontendChunkedBodyFinisher<I>,
    >)
        ensures
            match self@.0 {
                Some(ChunkStateView::Idle(writer)) => r matches Ok(f) && f@ == Some(
                    FinishView {
                        writer,
                        data: encode_end(trailers@),
                        written: 0,
                        flushed: false,
                    },
                ),
                _ => r matches Err(e) && e == FrontendError::BodyWriteError(
                    BodyError::WriteAfterError,
                ),
            },
    {
        let Self { inner } = self;
        match inner.into_finish(trailers) {
            Ok(finish) => Ok(FrontendChunkedBodyFinisher { inner: Some(finish) }),
            Err(e) => Err(FrontendError::BodyWriteError(e)),
        }
    }

    /// Write `buf` as one chunk; nothing is written for no data. While the write
    /// is pending, the same buffer has to be given again.
    pub fn poll_write(&mut self, cx: &mut Context, buf: &[u8]) -> (r: Poll<FrontendResult<()>>)
        requires
            old(self)@.written() <= buf@.len(),
        ensures
            ({
                let (t, cx2, p) = old(self)@.poll_write(old(cx)@, buf@);
                &&& final(self)@ == t
                &&& final(cx)@ == cx2
                &&& r == write_result(p)
                &&& buf@.len() > 0 && old(self)@.is_writing(buf@) ==> write_keeps_bytes(
                    old(self)@,
                    old(cx)@,
                    t,
                    cx2,
                    p,
                    buf@,
                )
            }),
    {
        map_write(self.inner.poll_write(cx, buf))
    }

    /// Poison the body. Only between chunks there is a byte to write: inside a
    /// chunk, the partial write already leaves framing broken - which is the
    /// goal.
    pub fn into_abort(self) -> (r: Option<Abort<I>>)
        ensures
            match self@.0 {
                Some(ChunkStateView::Idle(writer)) => r matches Some(a) && a@ == (AbortView {
                    writer,
                    written: false,
                    flushed: false,
                }),
                _ => r is None,
            },
    {
        let Self { inner } = self;
        inner.into_abort()
    }
}

/// Writes the terminal chunk and trailers for a chunked frontend response.
/// Obtained from [`FrontendChunkedBodyWriter::into_finisher`].
pub struct FrontendChunkedBodyFinisher<I> {
    inner: Option<Finish<I>>,
}

impl<I> View for FrontendChunkedBodyFinisher<I> {
    type V = Option<FinishView<I>>;

    closed spec fn view(&self) -> Option<FinishView<I>> {
        match self.inner {
            None => None,
            Some(f) => Some(f@),
        }
    }
}

impl<I> FrontendChunkedBodyFinisher<I> {
    /// Write the rest of the terminal chunk, and flush. Gives the writer for the
    /// next response; once it has been given, every further poll fails.
    pub fn poll_finish(&mut self, cx: &mut Context) -> (r: Poll<FrontendResult<FrontendWriter<I>>>)
        ensures
            match old(self)@ {
                None => final(self)@ is None && final(cx)@ == old(cx)@ && (r matches Poll::Ready(
                    Err(e),
                ) && e == FrontendError::BodyWriteError(BodyError::WriteAfterError)),
                Some(f) => {
                    let (t, cx2, p) = f.poll_finish(old(cx)@);
                    &&& final(cx)@ == cx2
                    &&& match p {
                        Poll::Pending => r is Pending && final(self)@ == Some(t),
                        Poll::Ready(Err(e)) => (r matches Poll::Ready(Err(g)) && g
                            == FrontendError::BodyWriteError(e)) && final(self)@ == Some(t),
                        Poll::Ready(Ok(())) => (r matches Poll::Ready(Ok(w)) && w.io() == f.writer)
                            && final(self)@ is None,
                    }
                },
            },
    {
        match self.inner.take() {
            None => Poll::Ready(Err(FrontendError::BodyWriteError(BodyError::WriteAfterError))),
            Some(mut finish) => match finish.poll_finish(cx) {
                Poll::Pending => {
                    self.inner = Some(finish);
                    Poll::Pending
                },
                Poll::Ready(Err(e)) => {
                    self.inner = Some(finish);
                    Poll::Ready(Err(FrontendError::BodyWriteError(e)))
                },
                Poll::Ready(Ok(())) => match finish.into_writer() {
                    Ok(writer) => Poll::Ready(Ok(FrontendWriter { writer })),
                    Err(e) => Poll::Ready(Err(FrontendError::BodyWriteError(e))),
                },
            },
        }
    }
}

/// The body writer for a frontend connection; it is typed so that finishing,
/// when possible, can produce a [`FrontendWriter`] without exposing raw IO.
pub enum FrontendBodyWriter<I> {
    Bodyless(FrontendBodylessBodyWriter<I>),
    CL(FrontendContentLengthBodyWriter<I>),
    TE(FrontendChunkedBodyWriter<I>),
    Close(FrontendEofBodyWriter<I>),
}

/// The model of a [`FrontendBodyWriter`].
pub enum FrontendBodyView<I> {
    Bodyless(I),
    CL(ContentLengthWriterView<I>),
    TE(ChunkedWriterView<I>),
    Close(I),
}

impl<I> FrontendBodyView<I> {
    /// `buf` is written to the body, but for its first `written` bytes. There
    /// is no body that anything could be written to where there is none.
    pub open spec fn poll_write(self, cx: Cx, buf: Seq<u8>, written: nat) -> (
        Self,
        Cx,
        nat,
        Poll<FrontendResult<()>>,
    ) {
        match self {
            FrontendBodyView::Bodyless(_) => (
                self,
                cx,
                written,
                Poll::Ready(
                    Err(FrontendError::BodyWriteError(BodyError::BodyOverflow(buf.len() as u64))),
                ),
            ),
            FrontendBodyView::CL(w) => {
                let (w, cx, now, p) = w.poll_write_all(cx, buf, written);
                (FrontendBodyView::CL(w), cx, now, write_result(p))
            },
            FrontendBodyView::TE(w) => {
                let (w, cx, p) = w.poll_write(cx, buf);
                (FrontendBodyView::TE(w), cx, written, write_result(p))
            },
            FrontendBodyView::Close(_) => {
                let (cx, now, p) = cx.poll_put(buf, written);
                (self, cx, now, sent_result(p))
            },
        }
    }
}

impl<I> FrontendBodyView<I> {
    /// The end of the body can be written, unless a chunk has not been written to
    /// its end.
    pub open spec fn into_finisher(self) -> FrontendResult<FrontendFinishView<I>> {
        match self {
            FrontendBodyView::Bodyless(io) => Ok(FrontendFinishView::Bodyless(io)),
            FrontendBodyView::CL(w) => Ok(FrontendFinishView::CL(w)),
            FrontendBodyView::TE(ChunkedWriterView(Some(ChunkStateView::Idle(writer)))) => Ok(
                FrontendFinishView::TE(
                    FinishView {
                        writer,
                        data: encode_end(Seq::empty()),
                        written: 0,
                        flushed: false,
                    },
                ),
            ),
            FrontendBodyView::TE(_) => Err(
                FrontendError::BodyWriteError(BodyError::WriteAfterError),
            ),
            FrontendBodyView::Close(io) => Ok(FrontendFinishView::Close(io)),
        }
    }
}

impl<I> View for FrontendBodyWriter<I> {
    type V = FrontendBodyView<I>;

    open spec fn view(&self) -> FrontendBodyView<I> {
        match *self {
            FrontendBodyWriter::Bodyless(w) => FrontendBodyView::Bodyless(w.io()),
            FrontendBodyWriter::CL(w) => FrontendBodyView::CL(w@),
            FrontendBodyWriter::TE(w) => FrontendBodyView::TE(w@),
            FrontendBodyWriter::Close(w) => FrontendBodyView::Close(w.io()),
        }
    }
}

/// The end of a body that is being written, by kind.
enum FrontendFinishing<I> {
    Bodyless(FrontendBodylessBodyWriter<I>),
    CL(FrontendContentLengthBodyWriter<I>),
    TE(FrontendChunkedBodyFinisher<I>),
    Close(FrontendEofBodyWriter<I>),
}

/// The model of the end of a body that is being written.
pub enum FrontendFinishView<I> {
    Bodyless(I),
    CL(ContentLengthWriterView<I>),
    TE(FinishView<I>),
    Close(I),
}

impl<I> FrontendFinishView<I> {
    /// The end of the body is written. Gives the connection, where it can be
    /// used again.
    pub open spec fn poll_finish(self, cx: Cx) -> (
        Option<Self>,
        Cx,
        Poll<FrontendResult<Option<I>>>,
    ) {
        match self {
            FrontendFinishView::Bodyless(io) => (None, cx, Poll::Ready(Ok(Some(io)))),
            FrontendFinishView::CL(w) => {
                let (cx, _, p) = flush_step(cx, false);
                match p {
                    Poll::Pending => (Some(self), cx, Poll::Pending),
                    Poll::Ready(Err(e)) => (
                        None,
                        cx,
                        Poll::Ready(Err(FrontendError::BodyWriteError(e))),
                    ),
                    Poll::Ready(Ok(())) => (
                        None,
                        cx,
                        if w.offset < w.length {
                            Poll::Ready(Err(FrontendError::BodyWriteError(w.incomplete())))
                        } else {
                            Poll::Ready(Ok(Some(w.writer)))
                        },
                    ),
                }
            },
            FrontendFinishView::TE(f) => {
                let (f, cx, p) = f.poll_finish(cx);
                match p {
                    Poll::Pending => (Some(FrontendFinishView::TE(f)), cx, Poll::Pending),
                    Poll::Ready(Err(e)) => (
                        None,
                        cx,
                        Poll::Ready(Err(FrontendError::BodyWriteError(e))),
                    ),
                    Poll::Ready(Ok(())) => (None, cx, Poll::Ready(Ok(Some(f.writer)))),
                }
            },
            FrontendFinishView::Close(_) => {
                let (cx, p) = cx.poll_flush();
                match p {
                    Poll::Pending => (Some(self), cx, Poll::Pending),
                    Poll::Ready(Err(e)) => (
                        None,
                        cx,
                        Poll::Ready(Err(FrontendError::WriteError(WriteFailure::Io(e)))),
                    ),
                    Poll::Ready(Ok(())) => (None, cx, Poll::Ready(Ok(None))),
                }
            },
        }
    }
}

/// Writes the end of a body, whichever way the body ends.
pub struct FrontendBodyFinisher<I> {
    state: Option<FrontendFinishing<I>>,
}

impl<I> View for FrontendBodyFinisher<I> {
    type V = Option<FrontendFinishView<I>>;

    closed spec fn view(&self) -> Option<FrontendFinishView<I>> {
        match self.state {
            None => None,
            Some(FrontendFinishing::Bodyless(w)) => Some(FrontendFinishView::Bodyless(w.io())),
            Some(FrontendFinishing::CL(w)) => Some(FrontendFinishView::CL(w@)),
            Some(FrontendFinishing::TE(f)) => match f@ {
                None => None,
                Some(f) => Some(FrontendFinishView::TE(f)),
            },
            Some(FrontendFinishing::Close(w)) => Some(FrontendFinishView::Close(w.io())),
        }
    }
}

/// The connection of a writer that is given back, if any.
pub open spec fn finished_view<I>(r: Poll<FrontendResult<Option<FrontendWriter<I>>>>) -> Poll<
    FrontendResult<Option<I>>,
> {
    match r {
        Poll::Pending => Poll::Pending,
        Poll::Ready(Err(e)) => Poll::Ready(Err(e)),
        Poll::Ready(Ok(None)) => Poll::Ready(Ok(None)),
        Poll::Ready(Ok(Some(w))) => Poll::Ready(Ok(Some(w.io()))),
    }
}

impl<I> FrontendBodyFinisher<I> {
    /// Write the rest of the end of the body. Gives the writer for the next
    /// response, where the connection can be used again; once this is done or
    /// has failed, every further poll fails.
    pub fn poll_finish(&mut self, cx: &mut Context) -> (r: Poll<
        FrontendResult<Option<FrontendWriter<I>>>,
    >)
        ensures
            (final(self)@, final(cx)@, finished_view(r)) == (match old(self)@ {
                None => (
                    None,
                    old(cx)@,
                    Poll::Ready(Err(FrontendError::BodyWriteError(BodyError::WriteAfterError))),
                ),
                Some(f) => f.poll_finish(old(cx)@),
            }),
    {
        match self.state.take() {
            None => Poll::Ready(Err(FrontendError::BodyWriteError(BodyError::WriteAfterError))),
            Some(FrontendFinishing::Bodyless(w)) => match w.finish() {
                Ok(w) => Poll::Ready(Ok(Some(w))),
                Err(e) => Poll::Ready(Err(e)),
            },
            Some(FrontendFinishing::CL(mut w)) => match w.poll_flush(cx) {
                Poll::Pending => {
                    self.state = Some(FrontendFinishing::CL(w));
                    Poll::Pending
                },
                Poll::Ready(Err(e)) => Poll::Ready(Err(e)),
                Poll::Ready(Ok(())) => match w.into_writer() {
                    Ok(w) => Poll::Ready(Ok(Some(w))),
                    Err(e) => Poll::Ready(Err(e)),
                },
            },
            Some(FrontendFinishing::TE(mut f)) => match f.poll_finish(cx) {
                Poll::Pending => {
                    self.state = Some(FrontendFinishing::TE(f));
                    Poll::Pending
                },
                Poll::Ready(Err(e)) => Poll::Ready(Err(e)),
                Poll::Ready(Ok(w)) => Poll::Ready(Ok(Some(w))),
            },
            Some(FrontendFinishing::Close(mut w)) => match w.poll_flush(cx) {
                Poll::Pending => {
                    self.state = Some(FrontendFinishing::Close(w));
                    Poll::Pending
                },
                Poll::Ready(Err(e)) => Poll::Ready(Err(e)),
                Poll::Ready(Ok(())) => Poll::Ready(Ok(None)),
            },
        }
    }
}

impl<I> FrontendBodyWriter<I> {
    /// Write `buf` to the body, but for its first `written` bytes, which is kept
    /// up to date across polls. While the write is pending, the same buffer has
    /// to be given again.
    pub fn poll_write(&mut self, cx: &mut Context, buf: &[u8], written: &mut usize) -> (r: Poll<
        FrontendResult<()>,
    >)
        requires
            old(self)@ matches FrontendBodyView::TE(w) ==> w.written() <= buf@.len(),
        ensures
            (final(self)@, final(cx)@, *final(written) as nat, r) == old(self)@.poll_write(
                old(cx)@,
                buf@,
                *old(written) as nat,
            ),
    {
        match self {
            FrontendBodyWriter::Bodyless(_) => Poll::Ready(
                Err(FrontendError::BodyWriteError(BodyError::BodyOverflow(buf.len() as u64))),
            ),
            FrontendBodyWriter::CL(w) => w.poll_write_all(cx, buf, written),
            FrontendBodyWriter::TE(w) => w.poll_write(cx, buf),
            FrontendBodyWriter::Close(w) => w.poll_write_all(cx, buf, written),
        }
    }

    /// End the body. Errors where a chunk has not been written to its end.
    pub fn into_finisher(self) -> (r: FrontendResult<FrontendBodyFinisher<I>>)
        ensures
            match (r, self@.into_finisher()) {
                (Ok(f), Ok(v)) => f@ == Some(v),
                (Err(e), Err(f)) => e == f,
                _ => false,
            },
    {
        let state = match self {
            FrontendBodyWriter::Bodyless(w) => FrontendFinishing::Bodyless(w),
            FrontendBodyWriter::CL(w) => FrontendFinishing::CL(w),
            FrontendBodyWriter::TE(w) => match w.into_finisher(&Headers::default()) {
                Ok(f) => FrontendFinishing::TE(f),
                Err(e) => return Err(e),
            },
            FrontendBodyWriter::Close(w) => FrontendFinishing::Close(w),
        };
        Ok(FrontendBodyFinisher { state: Some(state) })
    }

    /// Poison the body, as far as there is anything to write for that.
    pub fn into_abort(self) -> (r: Option<Abort<I>>)
        ensures
            match self@ {
                FrontendBodyView::TE(ChunkedWriterView(Some(ChunkStateView::Idle(writer)))) => {
                    r matches Some(a) && a@ == (AbortView {
                        writer,
                        written: false,
                        flushed: false,
                    })
                },
                _ => r is None,
            },
    {
        match self {
            FrontendBodyWriter::TE(w) => w.into_abort(),
            _ => None,
        }
    }
}

/// One of several writes to a body: what it finds, and what is written.
pub struct BodyWrite {
    pub cx: Cx,
    pub buf: Seq<u8>,
    pub written: nat,
}

impl<I> FrontendBodyView<I> {
    /// A body of which nothing has been written, to this connection.
    pub open spec fn is_new(self, io: I) -> bool {
        match self {
            FrontendBodyView::Bodyless(w) => w == io,
            FrontendBodyView::CL(w) => w.offset == 0 && w.writer == io,
            FrontendBodyView::TE(w) => w == ChunkedWriterView(Some(ChunkStateView::Idle(io))),
            FrontendBodyView::Close(w) => w == io,
        }
    }

    /// The writer after several writes.
    pub open spec fn after(self, writes: Seq<BodyWrite>) -> Self
        decreases writes.len(),
    {
        if writes.len() == 0 {
            self
        } else {
            let last = writes.last();
            self.after(writes.drop_last()).poll_write(last.cx, last.buf, last.written).0
        }
    }

    /// How many bytes several writes have put on the wire.
    pub open spec fn accepted(self, writes: Seq<BodyWrite>) -> int
        decreases writes.len(),
    {
        if writes.len() == 0 {
            0
        } else {
            let before = writes.drop_last();
            let last = writes.last();
            let (_, cx2, _, _) = self.after(before).poll_write(last.cx, last.buf, last.written);
            self.accepted(before) + (cx2.wire.len() - last.cx.wire.len())
        }
    }
}

impl<I> FrontendFinishView<I> {
    /// The end of the body after several polls, each of which was pending.
    pub open spec fn after(self, polls: Seq<Cx>) -> Option<Self>
        decreases polls.len(),
    {
        if polls.len() == 0 {
            Some(self)
        } else {
            match self.after(polls.drop_last()) {
                None => None,
                Some(f) => {
                    let (next, _, p) = f.poll_finish(polls.last());
                    if p is Pending {
                        next
                    } else {
                        None
                    }
                },
            }
        }
    }
}

/// Writes keep what kind of body is written, and to which connection; and a body of
/// stated length knows how much of it has been accepted, which is never more.
pub proof fn writes_keep_account<I>(w: FrontendBodyView<I>, io: I, writes: Seq<BodyWrite>)
    requires
        w.is_new(io),
        forall|i: int|
            0 <= i < writes.len() ==> (#[trigger] writes[i]).written <= writes[i].buf.len(),
    ensures
        match (w, w.after(writes)) {
            (FrontendBodyView::Bodyless(_), FrontendBodyView::Bodyless(v)) => v == io,
            (FrontendBodyView::CL(c), FrontendBodyView::CL(d)) => {
                &&& d.length == c.length
                &&& d.writer == io
                &&& d.offset == w.accepted(writes)
                &&& d.offset <= d.length
            },
            (FrontendBodyView::TE(_), FrontendBodyView::TE(v)) => v.io() is Some ==> v.io()
                == Some(io),
            (FrontendBodyView::Close(_), FrontendBodyView::Close(v)) => v == io,
            _ => false,
        },
    decreases writes.len(),
{
    if writes.len() > 0 {
        let before = writes.drop_last();
        let last = writes.last();
        assert forall|i: int| 0 <= i < before.len() implies (#[trigger] before[i]).written
            <= before[i].buf.len() by {
            assert(before[i] == writes[i]);
        }
        writes_keep_account(w, io, before);
        assert(writes[writes.len() - 1].written <= last.buf.len());
        match w.after(before) {
            FrontendBodyView::CL(_) => {
                put_keeps_bytes(last.cx, last.buf, last.written);
                let (cx2, now, _) = put_step(last.cx, last.buf, last.written);
                assert((cx2.wire + last.buf.skip(now as int)).len() == (last.cx.wire
                    + last.buf.skip(last.written as int)).len());
            },
            FrontendBodyView::TE(v) => {
                chunked_write_keeps_io(v, last.cx, last.buf);
            },
            _ => {},
        }
    }
}

proof fn lemma_finish_keeps<I>(f: FrontendFinishView<I>, polls: Seq<Cx>)
    ensures
        f.after(polls) matches Some(g) ==> match (f, g) {
            (FrontendFinishView::TE(a), FrontendFinishView::TE(b)) => a.writer == b.writer,
            (FrontendFinishView::TE(_), _) => false,
            _ => g == f,
        },
    decreases polls.len(),
{
    if polls.len() > 0 {
        lemma_finish_keeps(f, polls.drop_last());
    }
}

/// The transport has failed.
pub open spec fn is_io_error(e: FrontendError) -> bool {
    e is WriteError || (e matches FrontendError::BodyWriteError(b) && b is BodyWriteError)
}

/// Over all writes to a body and all polls of its end, where the transport does not
/// fail: the connection is given back, and is the one that the body was written to,
/// unless the body ends with the connection; but where a body of stated length has
/// not been written to its end, that is refused, and told how much is missing.
pub proof fn finish_gives_the_connection_back<I>(
    w: FrontendBodyView<I>,
    io: I,
    writes: Seq<BodyWrite>,
    polls: Seq<Cx>,
    cx: Cx,
)
    requires
        w.is_new(io),
        forall|i: int|
            0 <= i < writes.len() ==> (#[trigger] writes[i]).written <= writes[i].buf.len(),
        w.after(writes).into_finisher() is Ok,
        w.after(writes).into_finisher()->Ok_0.after(polls) is Some,
    ensures
        ({
            let f = w.after(writes).into_finisher()->Ok_0.after(polls)->Some_0;
            match f.poll_finish(cx).2 {
                Poll::Pending => true,
                Poll::Ready(Err(e)) => is_io_error(e) || (w matches FrontendBodyView::CL(c)
                    && w.accepted(writes) < c.length && e == FrontendError::BodyWriteError(
                    BodyError::IncompleteBody {
                        expected: c.length,
                        actual: w.accepted(writes) as u64,
                    },
                )),
                Poll::Ready(Ok(None)) => w is Close,
                Poll::Ready(Ok(Some(back))) => {
                    &&& !(w is Close)
                    &&& back == io
                    &&& w matches FrontendBodyView::CL(c) ==> w.accepted(writes) == c.length
                },
            }
        }),
{
    writes_keep_account(w, io, writes);
    let v = w.after(writes);
    let f = v.into_finisher()->Ok_0;
    lemma_finish_keeps(f, polls);
}

/// A write of a buffer to a body puts on the wire just what is left of it, in order and once,
/// and says so in `written`; it is done exactly where nothing is left, however long the buffer
/// is. A body of stated length takes no more than that, and counts what it took; where there
/// is no body, every write is refused, and puts nothing on the wire.
pub proof fn writes_put_the_buffer_on_the_wire<I>(
    w: &mut FrontendBodyWriter<I>,
    cx: &mut Context,
    buf: &[u8],
    written: &mut usize,
    r: Poll<FrontendResult<()>>,
)
    requires
        call_ensures(FrontendBodyWriter::<I>::poll_write, (w, cx, buf, written), r),
        *old(written) <= buf@.len(),
        old(w)@ matches FrontendBodyView::CL(c) ==> c.offset <= c.length,
    ensures
        ({
            let before = *old(written);
            let now = *final(written);
            match old(w)@ {
                FrontendBodyView::Bodyless(_) => {
                    &&& final(w)@ == old(w)@
                    &&& final(cx)@ == old(cx)@
                    &&& now == before
                    &&& r matches Poll::Ready(Err(FrontendError::BodyWriteError(e))) && e
                        == BodyError::BodyOverflow(buf@.len() as u64)
                },
                FrontendBodyView::CL(c) => {
                    &&& final(w)@ matches FrontendBodyView::CL(d) && d.length == c.length && d.writer
                        == c.writer && d.offset - c.offset == now - before && d.offset <= d.length
                    &&& before <= now <= buf@.len()
                    &&& final(cx)@.wire + buf@.skip(now as int) == old(cx)@.wire + buf@.skip(
                        before as int,
                    )
                    &&& (r is Ready && r->Ready_0 is Ok) == (now == buf@.len())
                    &&& c.offset + (buf@.len() - before) > c.length ==> final(cx)@ == old(cx)@ && (
                    r matches Poll::Ready(Err(FrontendError::BodyWriteError(e))) && e
                        == BodyError::BodyOverflow(c.length))
                    &&& c.offset + (buf@.len() - before) <= c.length && before < buf@.len() ==> (
                    match old(cx)@.write {
                        None => r is Pending && now == before,
                        Some(Err(e)) => (r matches Poll::Ready(Err(FrontendError::BodyWriteError(f)))
                            && f == BodyError::BodyWriteError(WriteFailure::Io(e))) && now == before,
                        Some(Ok(0)) => (r matches Poll::Ready(Err(FrontendError::BodyWriteError(f)))
                            && f == BodyError::BodyWriteError(WriteFailure::WriteZero)) && now
                            == before,
                        Some(Ok(n)) => now == (if before + n <= buf@.len() {
                            before + n
                        } else {
                            buf@.len() as int
                        }),
                    })
                },
                FrontendBodyView::TE(c) => {
                    let (d, cx2, p) = c.poll_write(old(cx)@, buf@);
                    &&& final(w)@ == FrontendBodyView::TE(d)
                    &&& final(cx)@ == cx2
                    &&& now == before
                    &&& match p {
                        Poll::Pending => r is Pending,
                        Poll::Ready(Ok(())) => r is Ready && r->Ready_0 is Ok,
                        Poll::Ready(Err(e)) => r matches Poll::Ready(
                            Err(FrontendError::BodyWriteError(f)),
                        ) && f == e,
                    }
                },
                FrontendBodyView::Close(_) => {
                    &&& final(w)@ == old(w)@
                    &&& now <= buf@.len()
                    &&& final(cx)@.wire + buf@.skip(now as int) == old(cx)@.wire + buf@.skip(
                        before as int,
                    )
                    &&& (r is Ready && r->Ready_0 is Ok) == (now == buf@.len())
                    &&& before == buf@.len() ==> final(cx)@ == old(cx)@
                    &&& before < buf@.len() ==> (match old(cx)@.write {
                        None => r is Pending && now == before,
                        Some(Err(e)) => (r matches Poll::Ready(Err(FrontendError::WriteError(f))) && f
                            == WriteFailure::Io(e)) && now == before,
                        Some(Ok(0)) => (r matches Poll::Ready(Err(FrontendError::WriteError(f))) && f
                            == WriteFailure::WriteZero) && now == before,
                        Some(Ok(n)) => now == (if before + n <= buf@.len() {
                            before + n
                        } else {
                            buf@.len() as int
                        }),
                    })
                },
            }
        }),
{
    let before = *old(written) as nat;
    assert(buf.len() == buf@.len());
    crate::transport::puts_go_on_where_they_were_left(old(cx)@, buf@, before);
    if let FrontendBodyView::CL(c) = old(w)@ {
        crate::body::writer::bounded_put_keeps_bytes(
            old(cx)@,
            c.length,
            c.offset,
            buf@,
            before,
        );
        crate::body::writer::put_failures_are_those_of_the_wire(old(cx)@, buf@, before);
    }
}

/// The end of a body is written, and flushed, before the connection comes back. A body of
/// stated length that is not complete is refused, and told how much of it is missing; one
/// that ends with the connection does not give it back; and where there is no body, it comes
/// back at once.
pub proof fn ends_are_flushed_first<I>(f: FrontendFinishView<I>, cx: Cx)
    ensures
        ({
            let (t, cx2, p) = f.poll_finish(cx);
            &&& p is Pending <==> t is Some
            &&& match f {
                FrontendFinishView::Bodyless(io) => cx2 == cx && p == Poll::Ready(
                    Ok::<_, FrontendError>(Some(io)),
                ),
                FrontendFinishView::CL(w) => cx2.wire == cx.wire && cx2.flush is None && (
                match cx.flush {
                    None => p is Pending && t == Some(f),
                    Some(Err(e)) => p matches Poll::Ready(
                        Err(FrontendError::BodyWriteError(BodyError::BodyWriteError(g))),
                    ) && g == WriteFailure::Io(e),
                    Some(Ok(())) => if w.offset < w.length {
                        p matches Poll::Ready(
                            Err(
                                FrontendError::BodyWriteError(
                                    BodyError::IncompleteBody { expected, actual },
                                ),
                            ),
                        ) && expected == w.length && actual == w.offset
                    } else {
                        p == Poll::Ready(Ok::<_, FrontendError>(Some(w.writer)))
                    },
                }),
                FrontendFinishView::TE(g) => {
                    let (h, cx3, q) = g.poll_finish(cx);
                    &&& cx2 == cx3
                    &&& match q {
                        Poll::Pending => t == Some(FrontendFinishView::TE(h)),
                        Poll::Ready(Ok(())) => p == Poll::Ready(
                            Ok::<_, FrontendError>(Some(g.writer)),
                        ),
                        Poll::Ready(Err(e)) => p == Poll::Ready(
                            Err::<Option<I>, _>(FrontendError::BodyWriteError(e)),
                        ),
                    }
                },
                FrontendFinishView::Close(_) => cx2.wire == cx.wire && cx2.flush is None && (
                match cx.flush {
                    None => p is Pending && t == Some(f),
                    Some(Err(e)) => p matches Poll::Ready(Err(FrontendError::WriteError(g))) && g
                        == WriteFailure::Io(e),
                    Some(Ok(())) => p == Poll::Ready(Ok::<Option<I>, FrontendError>(None)),
                }),
            }
        }),
{
}

/// A body is ended as its kind is: only one of chunks has anything to write for that, the
/// last chunk without trailers; and only one inside a chunk cannot be ended.
pub proof fn bodies_are_ended_by_kind<I>(w: FrontendBodyView<I>)
    ensures
        match (w, w.into_finisher()) {
            (FrontendBodyView::Bodyless(a), Ok(FrontendFinishView::Bodyless(b))) => a == b,
            (FrontendBodyView::CL(a), Ok(FrontendFinishView::CL(b))) => a == b,
            (FrontendBodyView::Close(a), Ok(FrontendFinishView::Close(b))) => a == b,
            (
                FrontendBodyView::TE(ChunkedWriterView(Some(ChunkStateView::Idle(io)))),
                Ok(FrontendFinishView::TE(f)),
            ) => {
                &&& f.writer == io
                &&& f.data == seq!['0' as u8, 13u8, 10u8, 13u8, 10u8]
                &&& f.written == 0
                &&& !f.flushed
            },
            (FrontendBodyView::TE(c), Err(e)) => {
                &&& !(c.0 is Some && c.0->Some_0 is Idle)
                &&& e == FrontendError::BodyWriteError(BodyError::WriteAfterError)
            },
            _ => false,
        },
{
    crate::body::chunk_coding::chunks_are_written_with_their_length(
        Seq::empty(),
        Seq::empty(),
        Seq::empty(),
    );
    assert(crate::http_message::raw::field_lines(Seq::empty()) =~= Seq::empty());
    assert(encode_end(Seq::empty()) =~= seq!['0' as u8, 13u8, 10u8, 13u8, 10u8]);
}

/// A head is sent with the framing of the body that follows it: the fields that it is written
/// with state the length of a body of stated length and the coding of a chunked body, and
/// nothing of one that ends with the connection; and it is sent from its start. Where there is
/// no body, the framing of the response is kept, or, where it must have none, dropped.
pub proof fn heads_frame_the_body_that_follows<I>(
    io: FrontendWriter<I>,
    res: &Response,
    n: u64,
    closed: FrontendSend<FrontendBodyWriter<I>>,
    chunked: FrontendSend<FrontendBodyWriter<I>>,
    counted: FrontendSend<FrontendBodyWriter<I>>,
    empty: FrontendSend<FrontendBodyWriter<I>>,
    kept: FrontendSend<FrontendBodyWriter<I>>,
    none: FrontendSend<FrontendBodylessBodyWriter<I>>,
)
    requires
        call_ensures(FrontendWriter::<I>::send_as_eof, (io, res), closed),
        call_ensures(FrontendWriter::<I>::send_as_chunked, (io, res), chunked),
        call_ensures(FrontendWriter::<I>::send_as_content_length, (io, res, n), counted),
        call_ensures(FrontendWriter::<I>::send_as_bodyless, (io, res), empty),
        call_ensures(FrontendWriter::<I>::send_as_bodyless_keep_framing, (io, res), kept),
        call_ensures(FrontendWriter::<I>::send_as_no_content, (io, res), none),
    ensures
        closed.head().data == response_head(res@, WriteFraming::StripFraming),
        closed.next()@ == FrontendBodyView::Close(io.io()),
        chunked.head().data == response_head(res@, WriteFraming::Chunked),
        chunked.next()@ matches FrontendBodyView::TE(w) && w.0 matches Some(
            ChunkStateView::Idle(to),
        ) && to == io.io(),
        counted.head().data == response_head(res@, WriteFraming::Length(n)),
        counted.next()@ matches FrontendBodyView::CL(w) && w.length == n && w.offset == 0
            && w.writer == io.io(),
        empty.head().data == response_head(res@, WriteFraming::PreserveFraming),
        empty.next()@ matches FrontendBodyView::CL(w) && w.length == 0 && w.offset == 0
            && w.writer == io.io(),
        kept.head().data == response_head(res@, WriteFraming::PreserveFraming),
        kept.next()@ == FrontendBodyView::Bodyless(io.io()),
        none.head().data == response_head(res@, WriteFraming::StripFraming),
        none.next().io() == io.io(),
        closed.head().written == 0 && chunked.head().written == 0 && counted.head().written == 0,
        empty.head().written == 0 && kept.head().written == 0 && none.head().written == 0,
        !closed.head().flushed && !chunked.head().flushed && !counted.head().flushed,
        !empty.head().flushed && !kept.head().flushed && !none.head().flushed,
{
}

/// The head of a response is sent as any head is; a failure of the transport is one to write
/// to the frontend.
pub proof fn heads_are_sent_in_full<B>(
    s: &mut FrontendSend<B>,
    cx: &mut Context,
    r: Poll<FrontendResult<()>>,
)
    requires
        call_ensures(FrontendSend::<B>::poll_send, (s, cx), r),
    ensures
        final(s).next() == old(s).next(),
        ({
            let (t, cx2, p) = old(s).head().poll_send(old(cx)@);
            &&& final(s).head() == t
            &&& final(cx)@ == cx2
            &&& match p {
                Poll::Pending => r is Pending,
                Poll::Ready(Ok(())) => r is Ready && r->Ready_0 is Ok,
                Poll::Ready(Err(e)) => r matches Poll::Ready(Err(FrontendError::WriteError(f)))
                    && f == e,
            }
        }),
{
}

/// A write to a body that ends with the connection puts on the wire the front of the buffer
/// that the transport accepted, and says how much that was; and a put goes on until all of
/// the buffer is on the wire, however long it is.
pub proof fn closing_bodies_take_all_of_the_buffer<I>(
    w: &mut FrontendEofBodyWriter<I>,
    cx: &mut Context,
    buf: &[u8],
    r: Poll<FrontendResult<usize>>,
    v: &mut FrontendEofBodyWriter<I>,
    vcx: &mut Context,
    written: &mut usize,
    s: Poll<FrontendResult<()>>,
)
    requires
        call_ensures(FrontendEofBodyWriter::<I>::poll_write, (w, cx, buf), r),
        call_ensures(FrontendEofBodyWriter::<I>::poll_write_all, (v, vcx, buf, written), s),
        *old(written) <= buf@.len(),
    ensures
        *final(w) == *old(w) && *final(v) == *old(v),
        match (old(cx)@.write, r) {
            (None, Poll::Pending) => final(cx)@.wire == old(cx)@.wire && final(cx)@.wants
                == crate::transport::WantsView::Write(buf@),
            (Some(Ok(n)), Poll::Ready(Ok(m))) => {
                &&& m == (if n <= buf@.len() {
                    n as int
                } else {
                    buf@.len() as int
                })
                &&& final(cx)@.wire == old(cx)@.wire + buf@.take(m as int)
            },
            (Some(Err(e)), Poll::Ready(Err(FrontendError::WriteError(WriteFailure::Io(f))))) => f
                == e && final(cx)@.wire == old(cx)@.wire,
            _ => false,
        },
        *old(written) <= *final(written) <= buf@.len(),
        final(vcx)@.wire + buf@.skip(*final(written) as int) == old(vcx)@.wire + buf@.skip(
            *old(written) as int,
        ),
        (s is Ready && s->Ready_0 is Ok) == (*final(written) == buf@.len()),
{
    assert(buf.len() == buf@.len());
    crate::transport::writes_put_what_was_accepted_on_the_wire(old(cx)@, buf@);
    crate::transport::puts_go_on_where_they_were_left(old(vcx)@, buf@, *old(written) as nat);
    crate::body::writer::put_keeps_bytes(old(vcx)@, buf@, *old(written) as nat);
}

/// A write to a body of stated length puts on the wire the front of the buffer that the
/// transport accepted, and counts it; one that would go beyond the length is refused, and puts
/// nothing on the wire. The connection comes back exactly where the body is complete.
pub proof fn bodies_of_stated_length_count_what_they_take<I>(
    w: &mut FrontendContentLengthBodyWriter<I>,
    cx: &mut Context,
    buf: &[u8],
    r: Poll<FrontendResult<usize>>,
    v: FrontendContentLengthBodyWriter<I>,
    s: FrontendResult<FrontendWriter<I>>,
)
    requires
        call_ensures(FrontendContentLengthBodyWriter::<I>::poll_write, (w, cx, buf), r),
        call_ensures(FrontendContentLengthBodyWriter::<I>::into_writer, (v,), s),
        old(w)@.offset <= old(w)@.length,
        v@.offset <= v@.length,
    ensures
        final(w)@.length == old(w)@.length && final(w)@.writer == old(w)@.writer,
        final(cx)@.wire == old(cx)@.wire + buf@.take(final(w)@.offset - old(w)@.offset),
        old(w)@.offset <= final(w)@.offset <= final(w)@.length,
        old(w)@.offset + buf@.len() > old(w)@.length ==> {
            &&& final(w)@ == old(w)@ && final(cx)@ == old(cx)@
            &&& r matches Poll::Ready(Err(FrontendError::BodyWriteError(e))) && e
                == BodyError::BodyOverflow(old(w)@.length)
        },
        r matches Poll::Ready(Ok(n)) ==> final(w)@.offset == old(w)@.offset + n,
        old(w)@.offset + buf@.len() <= old(w)@.length ==> (match (old(cx)@.write, r) {
            (None, Poll::Pending) => true,
            (Some(Ok(n)), Poll::Ready(Ok(m))) => m == n || (n > buf@.len() && m == buf@.len()),
            (Some(Err(e)), Poll::Ready(Err(FrontendError::BodyWriteError(f)))) => f
                == BodyError::BodyWriteError(WriteFailure::Io(e)),
            _ => false,
        }),
        match s {
            Ok(io) => v@.offset == v@.length && io.io() == v@.writer,
            Err(FrontendError::BodyWriteError(e)) => v@.offset < v@.length && e
                == (BodyError::IncompleteBody { expected: v@.length, actual: v@.offset }),
            _ => false,
        },
{
    assert(buf.len() == buf@.len());
    crate::body::writer::bounded_write_keeps_bytes(
        old(cx)@,
        old(w)@.length,
        old(w)@.offset,
        buf@,
    );
    crate::transport::writes_put_what_was_accepted_on_the_wire(old(cx)@, buf@);
}

} // verus!
