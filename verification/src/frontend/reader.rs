//! Tools for reading requests from an HTTP/1.x frontend.
//!
//! A [`FrontendReader`] reads a stream of requests: [`FrontendReader::read`]
//! gives the next request with a reader for its body, and once the body has
//! been drained, that reader gives back a [`FrontendReader`] for the request
//! that follows.
use bytes::Bytes;
use vstd::prelude::*;

use crate::body::body_reader::{
    new_reader, BodyReadMode, BodyReader, BodyReaderKind, KindView,
};
use crate::body::error::BodyResult;
use crate::body::peekable_reader::{
    peek_view, peekable_reads_back, peeks_any_body, PeekableBodyReader, PeekableView, SourceView,
};
use crate::body::reader::bodyless::{BodylessBodyReader, BodylessView};
use crate::body::reader::chunked::{
    drains_any_body, reads_any_body_back, refuses_any_aborted_body, ChunkedBodyReader, ChunkedView,
};
use crate::body::reader::content_length::{
    drains_any_length, ContentLengthBodyReader, ContentLengthView,
};
use crate::body::reader::{lemma_first_in_front, read_failed, unread};
use crate::frontend::error::{
    map_read, read_result, FrontendError, FrontendErrorView, FrontendResult,
};
use crate::http_message::framing::ParsedFraming;
use crate::http_message::header::{framing_of, Field, Headers};
use crate::http_message::message::{request_of, ParseSlots, Request, RequestView};
use crate::http_message::raw::{httparse_request, is_plain_request, versioned_request_text};
use crate::http_message::version::HttpVersion;
use crate::io_buffer::{Buffered, BytesReader};
use crate::octets::octets;
use crate::transport::{Context, Cx, Poll};

verus! {

/// Reads a request from a frontend reader. When `read()` is called, this type
/// is consumed, and a [`FrontendRequest`] is returned. This can be used to
/// inspect the request and peek the body.
#[derive(Debug)]
pub struct FrontendReader<I> {
    io_buffer: BytesReader<I>,
    parse_slots: ParseSlots,
}

/// The model of a [`FrontendReader`].
pub struct FrontendReaderView<I> {
    pub reader: Buffered<I>,
    pub slots: nat,
}

impl<I> FrontendReaderView<I> {
    /// A request head: bytes are read until it ends. A head that does not end
    /// within `max_head_length` bytes is refused; where the stream ends, it
    /// makes a difference whether any byte of a head has come.
    pub open spec fn poll_head(self, cx: Cx, max_head_length: usize) -> (
        Self,
        Cx,
        Poll<Result<RequestView, FrontendErrorView>>,
    )
        decreases (if cx.read is Some { 1nat } else { 0 }),
    {
        let len = self.reader.buf.len();
        match request_of(httparse_request(self.reader.buf, self.slots)) {
            Err(e) => (self, cx, Poll::Ready(Err(FrontendErrorView::HttpRequestParseError(e)))),
            Ok(Some((req, head_len))) => (
                FrontendReaderView { reader: self.reader.skip(head_len as int), ..self },
                cx,
                Poll::Ready(Ok(req)),
            ),
            Ok(None) => if len >= max_head_length {
                (
                    self,
                    cx,
                    Poll::Ready(
                        Err(FrontendErrorView::MaxHeadLenExceeded(len as usize, max_head_length)),
                    ),
                )
            } else {
                let (reader, cx2, p) = self.reader.poll_read(cx, (max_head_length - len) as nat);
                let next = FrontendReaderView { reader, ..self };
                match p {
                    Poll::Pending => (next, cx2, Poll::Pending),
                    Poll::Ready(Err(e)) => (
                        next,
                        cx2,
                        Poll::Ready(Err(FrontendErrorView::ReadError(e))),
                    ),
                    Poll::Ready(Ok(n)) => if n == 0 {
                        (
                            next,
                            cx2,
                            Poll::Ready(
                                Err(
                                    if len == 0 {
                                        FrontendErrorView::FirstReadEOF
                                    } else {
                                        FrontendErrorView::UnexpectedEOF
                                    },
                                ),
                            ),
                        )
                    } else {
                        next.poll_head(cx2, max_head_length)
                    },
                }
            },
        }
    }
}

/// What is unread, and what is still to come behind it, starts with the head of
/// a request as it was written, and goes on with `rest`.
pub open spec fn request_comes(
    front: Seq<u8>,
    coming: Seq<u8>,
    version: HttpVersion,
    method: Seq<u8>,
    path: Seq<u8>,
    fields: Seq<Field>,
    rest: Seq<u8>,
) -> bool {
    front + coming == versioned_request_text(version, method, path, fields) + rest
}

/// A read of a head reads back any plain head, of either version, that can come to the reader and
/// is not longer than the limit: the request is the one that was written, and not a byte behind
/// it is consumed. The read is pending only while bytes are still to come, and it fails only
/// where the transport does before they have come.
pub open spec fn reads_any_request_back<I>(s: FrontendReaderView<I>, cx: Cx, max_head_length: usize) -> bool {
    forall|coming: Seq<u8>, version: HttpVersion, method: Seq<u8>, path: Seq<u8>, fields: Seq<Field>, rest: Seq<u8>|
        #[trigger] request_comes(unread(s.reader, cx), coming, version, method, path, fields, rest)
            && is_plain_request(method, path, fields) && fields.len() <= s.slots && versioned_request_text(version, method, path, fields).len()
            <= max_head_length ==> {
            let (t, cx2, p) = s.poll_head(cx, max_head_length);
            match p {
                Poll::Ready(Ok(m)) => {
                    &&& m == (RequestView {
                        method,
                        path,
                        version,
                        headers: fields,
                    })
                    &&& unread(t.reader, cx2) + coming == rest
                },
                Poll::Pending => {
                    &&& coming.len() > 0
                    &&& cx2.read is None
                    &&& unread(t.reader, cx2) == unread(s.reader, cx)
                },
                Poll::Ready(Err(_)) => coming.len() > 0 && read_failed(cx),
            }
        }
}

/// How the body of a request with this framing is read.
pub open spec fn request_mode(framing: ParsedFraming) -> BodyReadMode {
    match framing {
        ParsedFraming::Length(cl) => BodyReadMode::ContentLength(cl),
        ParsedFraming::Chunked => BodyReadMode::Chunk,
        ParsedFraming::NoFraming => BodyReadMode::Bodyless,
    }
}

impl<I> View for FrontendReader<I> {
    type V = FrontendReaderView<I>;

    closed spec fn view(&self) -> FrontendReaderView<I> {
        FrontendReaderView { reader: self.io_buffer@, slots: self.parse_slots@ }
    }
}

/// What a read of a request has come to. A read that waits for the transport
/// gives back the reader.
pub enum Reading<I> {
    Pending(FrontendReader<I>),
    Ready(FrontendResult<FrontendRequest<I>>),
}

impl<I> FrontendReader<I> {
    /// The connection, with what has been read from it.
    pub fn into_inner(self) -> (r: BytesReader<I>)
        ensures
            r@ == self@.reader,
    {
        let Self { io_buffer, parse_slots: _ } = self;
        io_buffer
    }

    /// An immutable slice of the internal buffer already read from the IO type,
    /// but not yet consumed.
    pub fn as_buf_slice(&self) -> (s: &[u8])
        ensures
            s@ == self@.reader.buf,
    {
        self.io_buffer.as_bytes()
    }

    /// An immutable reference to the underlying IO type.
    pub fn as_inner(&self) -> (io: &I)
        ensures
            *io == self@.reader.io,
    {
        self.io_buffer.as_inner()
    }

    /// Create a new [`FrontendReader`]. There has to be memory for that many
    /// headers.
    pub fn new(io: I, max_headers: usize) -> (r: Self)
        requires
            max_headers * 32 <= isize::MAX,
        ensures
            r@ == (FrontendReaderView {
                reader: Buffered { io, buf: Seq::empty() },
                slots: max_headers as nat,
            }),
    {
        Self::new_with_buffer(BytesReader::new(io), max_headers)
    }

    /// Create a new [`FrontendReader`] from a connection from which bytes have
    /// been read already.
    pub fn new_with_buffer(io: BytesReader<I>, max_headers: usize) -> (r: Self)
        requires
            max_headers * 32 <= isize::MAX,
        ensures
            r@ == (FrontendReaderView { reader: io@, slots: max_headers as nat }),
    {
        Self { io_buffer: io, parse_slots: ParseSlots::new(max_headers) }
    }

    fn from_parts(io_buffer: BytesReader<I>, parse_slots: ParseSlots) -> (r: Self)
        ensures
            r@ == (FrontendReaderView { reader: io_buffer@, slots: parse_slots@ }),
    {
        Self { io_buffer, parse_slots }
    }

    /// Wait for the full frontend head to be available.
    pub fn poll_head(&mut self, cx: &mut Context, max_head_length: usize) -> (r: Poll<
        FrontendResult<Request>,
    >)
        ensures
            final(self)@ == old(self)@.poll_head(old(cx)@, max_head_length).0,
            final(cx)@ == old(self)@.poll_head(old(cx)@, max_head_length).1,
            match (r, old(self)@.poll_head(old(cx)@, max_head_length).2) {
                (Poll::Pending, Poll::Pending) => true,
                (Poll::Ready(Ok(req)), Poll::Ready(Ok(v))) => req@ == v,
                (Poll::Ready(Err(e)), Poll::Ready(Err(f))) => e@ == f,
                _ => false,
            },
            reads_any_request_back(old(self)@, old(cx)@, max_head_length),
    {
        let ghost start = unread(self@.reader, cx@);
        loop
            invariant
                start == unread(old(self)@.reader, old(cx)@),
                unread(self@.reader, cx@) == start,
                self@.slots == old(self)@.slots,
                cx@.read == old(cx)@.read || cx@.read is None,
                self@.poll_head(cx@, max_head_length) == old(self)@.poll_head(
                    old(cx)@,
                    max_head_length,
                ),
            decreases (if cx@.read is Some { 1nat } else { 0 }),
        {
            let ghost full = self@.reader.buf;
            let parsed = self.parse_slots.parse_request(&mut self.io_buffer);
            proof {
                assert(full =~= start.take(full.len() as int));
                assert forall|coming: Seq<u8>, version: HttpVersion, method: Seq<u8>, path: Seq<u8>, fields: Seq<Field>, rest: Seq<u8>|
                    #[trigger] request_comes(start, coming, version, method, path, fields, rest) && is_plain_request(
                        method, path, fields,
                    ) && fields.len() <= old(self)@.slots implies match parsed {
                    Ok(Some(m)) => m@ == (RequestView {
                        method,
                        path,
                        version,
                        headers: fields,
                    }) && unread(self@.reader, cx@) + coming == rest,
                    Ok(None) => full.len() < versioned_request_text(version, method, path, fields).len() && (start == full
                        ==> coming.len() > 0),
                    Err(_) => false,
                } by {
                    let text = versioned_request_text(version, method, path, fields);
                    lemma_first_in_front(full, start, coming, text, rest);
                    if full.len() >= text.len() {
                        assert(unread(self@.reader, cx@) =~= start.skip(text.len() as int));
                    }
                }
            }
            match parsed {
                Err(e) => return Poll::Ready(Err(FrontendError::HttpRequestParseError(e))),
                Ok(Some(req)) => return Poll::Ready(Ok(req)),
                Ok(None) => {},
            }
            let len: usize = self.io_buffer.len();
            if len >= max_head_length {
                return Poll::Ready(Err(FrontendError::MaxHeadLenExceeded(len, max_head_length)));
            }
            let first_read = self.io_buffer.is_empty();
            // read some data into the buffer
            let read = self.io_buffer.poll_read(cx, max_head_length - len);
            assert(unread(self@.reader, cx@) =~= start);
            match read {
                Poll::Pending => return Poll::Pending,
                Poll::Ready(Err(e)) => return Poll::Ready(Err(FrontendError::ReadError(e))),
                Poll::Ready(Ok(n)) => {
                    if n == 0 {
                        // if the first attempt to read data into the buffer for a
                        // request finds EOF, the frontend has gone away and won't be
                        // sending us more data in the pipeline.
                        return Poll::Ready(
                            Err(
                                if first_read {
                                    FrontendError::FirstReadEOF
                                } else {
                                    FrontendError::UnexpectedEOF
                                },
                            ),
                        );
                    }
                },
            }
        }
    }

    /// The request with this head, and a reader for the body that follows it.
    /// A head that states more than one framing is refused.
    pub fn into_request(self, req: Request) -> (r: FrontendResult<FrontendRequest<I>>)
        ensures
            match (r, framing_of(req@.headers)) {
                (Ok(q), Ok(framing)) => q.request() == req@ && q.body() == new_reader(
                    self@.reader,
                    request_mode(framing),
                    self@.slots,
                ),
                (Err(e), Err(f)) => e@ == FrontendErrorView::HeaderError(f),
                _ => false,
            },
    {
        let Self { io_buffer, parse_slots } = self;
        let reader = match req.framing() {
            Err(e) => return Err(FrontendError::from(e)),
            Ok(ParsedFraming::Length(cl)) => FrontendBodyReader::new(
                io_buffer,
                BodyReadMode::ContentLength(cl),
                parse_slots,
            ),
            Ok(ParsedFraming::Chunked) => FrontendBodyReader::new(
                io_buffer,
                BodyReadMode::Chunk,
                parse_slots,
            ),
            Ok(ParsedFraming::NoFraming) => FrontendBodyReader::new(
                io_buffer,
                BodyReadMode::Bodyless,
                parse_slots,
            ),
        };
        Ok(FrontendRequest { req, reader })
    }

    /// Read a request from the frontend.
    pub fn read(self, cx: &mut Context, max_head_length: usize) -> (r: Reading<I>)
        ensures
            reads_any_request_back(self@, old(cx)@, max_head_length),
            ({
                let (next, cx2, p) = self@.poll_head(old(cx)@, max_head_length);
                &&& final(cx)@ == cx2
                &&& match (r, p) {
                    (Reading::Pending(reader), Poll::Pending) => reader@ == next,
                    (Reading::Ready(Err(e)), Poll::Ready(Err(f))) => e@ == f,
                    (Reading::Ready(Err(e)), Poll::Ready(Ok(req))) => framing_of(
                        req.headers,
                    ) matches Err(f) && e@ == FrontendErrorView::HeaderError(f),
                    (Reading::Ready(Ok(q)), Poll::Ready(Ok(req))) => framing_of(
                        req.headers,
                    ) matches Ok(framing) && q.request() == req && q.body() == new_reader(
                        next.reader,
                        request_mode(framing),
                        next.slots,
                    ),
                    _ => false,
                }
            }),
    {
        let mut reader = self;
        match reader.poll_head(cx, max_head_length) {
            Poll::Pending => Reading::Pending(reader),
            Poll::Ready(Err(e)) => Reading::Ready(Err(e)),
            Poll::Ready(Ok(req)) => Reading::Ready(reader.into_request(req)),
        }
    }
}

/// A request read from a [`FrontendReader`]. Provides access to the underlying
/// request, and allows the request body, if any, to be peeked before it is
/// consumed or drained.
///
/// Use [`FrontendRequest::into_parts`] to retrieve the [`Request`] and
/// [`FrontendBodyReader`].
pub struct FrontendRequest<I> {
    req: Request,
    reader: FrontendBodyReader<I>,
}

impl<I> FrontendRequest<I> {
    /// The request.
    pub closed spec fn request(&self) -> RequestView {
        self.req@
    }

    /// The reader of the body.
    pub closed spec fn body(&self) -> KindView<I> {
        self.reader@
    }

    /// Access the underlying [`Request`] without taking ownership.
    pub fn req(&self) -> (r: &Request)
        ensures
            r@ == self.request(),
    {
        &self.req
    }

    /// Acess the underlying [`Request`] as mutable.
    pub fn req_mut(&mut self) -> (r: &mut Request)
        ensures
            r@ == old(self).request(),
            final(self).request() == final(r)@,
            final(self).body() == old(self).body(),
    {
        &mut self.req
    }

    /// Split into the [`Request`] and [`FrontendBodyReader`].
    pub fn into_parts(self) -> (r: (Request, FrontendBodyReader<I>))
        ensures
            r.0@ == self.request(),
            r.1@ == self.body(),
    {
        let Self { req, reader } = self;
        (req, reader)
    }

    /// Indicates the mode with which the body will be read.
    pub fn mode(&self) -> (m: BodyReadMode)
        ensures
            m == self.body().mode(),
    {
        self.reader.mode()
    }
}

/// Frontend wrapper for [`BodylessBodyReader`].
pub struct FrontendBodylessBodyReader<I> {
    inner: BodylessBodyReader<I>,
}

impl<I> View for FrontendBodylessBodyReader<I> {
    type V = BodylessView<I>;

    closed spec fn view(&self) -> BodylessView<I> {
        self.inner@
    }
}

impl<I> FrontendBodylessBodyReader<I> {
    /// The reader for the next request.
    pub fn drain(self) -> (r: FrontendResult<FrontendReader<I>>)
        ensures
            r matches Ok(next) && next@ == (FrontendReaderView {
                reader: self@.reader,
                slots: self@.slots,
            }),
    {
        let (io, parse_slots) = self.inner.drain();
        Ok(FrontendReader::from_parts(io, parse_slots))
    }
}

/// Frontend wrapper for [`ContentLengthBodyReader`].
pub struct FrontendContentLengthBodyReader<I> {
    inner: ContentLengthBodyReader<I>,
}

impl<I> View for FrontendContentLengthBodyReader<I> {
    type V = ContentLengthView<I>;

    closed spec fn view(&self) -> ContentLengthView<I> {
        self.inner@
    }
}

/// The view of a read of a body, as an outcome of the frontend.
pub open spec fn frontend_data(r: Poll<FrontendResult<Option<Bytes>>>) -> Poll<
    FrontendResult<Option<Seq<u8>>>,
> {
    match r {
        Poll::Pending => Poll::Pending,
        Poll::Ready(Err(e)) => Poll::Ready(Err(e)),
        Poll::Ready(Ok(None)) => Poll::Ready(Ok(None)),
        Poll::Ready(Ok(Some(b))) => Poll::Ready(Ok(Some(octets(b)))),
    }
}

impl<I> FrontendContentLengthBodyReader<I> {
    /// Read at most `max_len` bytes of the body; `None` at its end.
    pub fn poll_read(&mut self, cx: &mut Context, max_len: usize) -> (r: Poll<
        FrontendResult<Option<Bytes>>,
    >)
        ensures
            ({
                let (t, cx2, p) = old(self)@.poll_read(old(cx)@, max_len as nat);
                final(self)@ == t && final(cx)@ == cx2 && frontend_data(r) == read_result(p)
            }),
    {
        map_read(self.inner.poll_read(cx, max_len))
    }

    /// Read the body to its end, and drop it.
    pub fn poll_drain(&mut self, cx: &mut Context) -> (r: Poll<FrontendResult<()>>)
        ensures
            exists|n: nat|
                (#[trigger] old(self)@.poll_drain(old(cx)@, n)) matches Some((t, cx2, p)) && t
                    == final(self)@ && cx2 == final(cx)@ && r == read_result(p),
            (r matches Poll::Ready(Ok(()))) ==> final(self)@.remaining() == 0,
            drains_any_length(old(self)@, old(cx)@, final(self)@, final(cx)@, r),
    {
        let ghost before = self@;
        let p = self.inner.poll_drain(cx);
        proof {
            let n = choose|n: nat| #[trigger]
                before.poll_drain(old(cx)@, n) == Some((self@, cx@, p));
            assert(old(self)@.poll_drain(old(cx)@, n) == Some((self@, cx@, p)));
        }
        map_read(p)
    }

    /// The reader for the next request. The body has to have been drained.
    pub fn finish(self) -> (r: FrontendReader<I>)
        requires
            self@.remaining() == 0,
        ensures
            r@ == (FrontendReaderView { reader: self@.reader, slots: self@.slots }),
    {
        let (io, parse_slots) = self.inner.finish();
        FrontendReader::from_parts(io, parse_slots)
    }
}

/// Frontend wrapper for [`ChunkedBodyReader`]. Draining it returns both a
/// new [`FrontendReader`] and the trailers from the chunked body.
pub struct FrontendChunkedBodyReader<I> {
    inner: ChunkedBodyReader<I>,
}

impl<I> View for FrontendChunkedBodyReader<I> {
    type V = ChunkedView<I>;

    closed spec fn view(&self) -> ChunkedView<I> {
        self.inner@
    }
}

impl<I> FrontendChunkedBodyReader<I> {
    /// Whether there is nothing more to read.
    pub fn drained(&self) -> (r: bool)
        ensures
            r == self@.is_drained(),
    {
        self.inner.drained()
    }

    /// Read at most `max_len` bytes of the body; `None` at its end.
    pub fn poll_read(&mut self, cx: &mut Context, max_len: usize) -> (r: Poll<
        FrontendResult<Option<Bytes>>,
    >)
        ensures
            ({
                let (t, cx2, p) = old(self)@.poll_read(old(cx)@, max_len as nat);
                final(self)@ == t && final(cx)@ == cx2 && frontend_data(r) == read_result(p)
            }),
            reads_any_body_back(old(self)@, old(cx)@, max_len as nat),
            refuses_any_aborted_body(old(self)@, old(cx)@, max_len as nat),
    {
        map_read(self.inner.poll_read(cx, max_len))
    }

    /// Read the body to its end, and drop it.
    pub fn poll_drain(&mut self, cx: &mut Context) -> (r: Poll<FrontendResult<()>>)
        ensures
            exists|n: nat|
                (#[trigger] old(self)@.poll_drain(old(cx)@, n)) matches Some((t, cx2, p)) && t
                    == final(self)@ && cx2 == final(cx)@ && r == read_result(p),
            (r matches Poll::Ready(Ok(()))) ==> final(self)@.0 is Some && final(self)@.is_drained(),
            drains_any_body(old(self)@, old(cx)@, final(self)@, final(cx)@, r),
    {
        let ghost before = self@;
        let p = self.inner.poll_drain(cx);
        proof {
            let n = choose|n: nat| #[trigger]
                before.poll_drain(old(cx)@, n) == Some((self@, cx@, p));
            assert(old(self)@.poll_drain(old(cx)@, n) == Some((self@, cx@, p)));
        }
        map_read(p)
    }

    /// The reader for the next request, and the trailers. The body has to have
    /// been drained, without an error.
    pub fn finish(self) -> (r: (FrontendReader<I>, Headers))
        requires
            self@.0 is Some && self@.0->Some_0 is Done,
        ensures
            r.0@ == (FrontendReaderView {
                reader: self@.0->Some_0->Done_0.reader,
                slots: self@.0->Some_0->Done_0.slots,
            }),
            r.1@ == self@.0->Some_0->Done_0.trailers,
    {
        let (io, parse_slots, trailers) = self.inner.finish();
        (FrontendReader::from_parts(io, parse_slots), trailers)
    }
}

/// The body reader kind for a frontend request, typed so that draining
/// always produces a [`FrontendReader`] without exposing raw IO.
pub enum FrontendBodyReaderKind<I> {
    Bodyless(FrontendBodylessBodyReader<I>),
    CL(FrontendContentLengthBodyReader<I>),
    TE(FrontendChunkedBodyReader<I>),
}

impl<I> View for FrontendBodyReaderKind<I> {
    type V = KindView<I>;

    open spec fn view(&self) -> KindView<I> {
        match *self {
            FrontendBodyReaderKind::Bodyless(r) => KindView::Bodyless(r@),
            FrontendBodyReaderKind::CL(r) => KindView::CL(r@),
            FrontendBodyReaderKind::TE(r) => KindView::TE(r@),
        }
    }
}

/// What a drain of a body comes to.
pub open spec fn drained_as<I>(
    s: KindView<I>,
    cx: Cx,
    t: KindView<I>,
    cx2: Cx,
    r: Poll<FrontendResult<()>>,
) -> bool {
    exists|n: nat|
        (#[trigger] s.poll_drain(cx, n)) matches Some((s2, c, p)) && s2 == t && c == cx2 && r
            == read_result(p)
}

impl<I> FrontendBodyReaderKind<I> {
    /// Read at most `max_len` bytes of the body; `None` at its end.
    pub fn poll_read(&mut self, cx: &mut Context, max_len: usize) -> (r: Poll<
        FrontendResult<Option<Bytes>>,
    >)
        ensures
            ({
                let (t, cx2, p) = old(self)@.poll_read(old(cx)@, max_len as nat);
                final(self)@ == t && final(cx)@ == cx2 && frontend_data(r) == read_result(p)
            }),
            old(self)@ matches KindView::TE(c) ==> reads_any_body_back(c, old(cx)@, max_len as nat)
                && refuses_any_aborted_body(c, old(cx)@, max_len as nat),
    {
        match self {
            FrontendBodyReaderKind::Bodyless(_) => Poll::Ready(Ok(None)),
            FrontendBodyReaderKind::CL(r) => r.poll_read(cx, max_len),
            FrontendBodyReaderKind::TE(r) => r.poll_read(cx, max_len),
        }
    }

    /// Read the body to its end, and drop it.
    pub fn poll_drain(&mut self, cx: &mut Context) -> (r: Poll<FrontendResult<()>>)
        ensures
            drained_as(old(self)@, old(cx)@, final(self)@, final(cx)@, r),
            (r matches Poll::Ready(Ok(()))) ==> final(self)@.is_finished(),
            old(self)@.drains_any(old(cx)@, final(self)@, final(cx)@, r),
    {
        let ghost cx0 = cx@;
        match self {
            FrontendBodyReaderKind::Bodyless(_) => {
                let p: Poll<BodyResult<()>> = Poll::Ready(Ok(()));
                assert(old(self)@.poll_drain(cx0, 0) == Some((old(self)@, cx0, p)));
                map_read(p)
            },
            FrontendBodyReaderKind::CL(r) => {
                let ghost before = r@;
                let p = r.inner.poll_drain(cx);
                proof {
                    let n = choose|n: nat| #[trigger]
                        before.poll_drain(cx0, n) == Some((r@, cx@, p));
                    assert(old(self)@.poll_drain(cx0, n) == Some((KindView::CL(r@), cx@, p)));
                }
                map_read(p)
            },
            FrontendBodyReaderKind::TE(r) => {
                let ghost before = r@;
                let p = r.inner.poll_drain(cx);
                proof {
                    let n = choose|n: nat| #[trigger]
                        before.poll_drain(cx0, n) == Some((r@, cx@, p));
                    assert(old(self)@.poll_drain(cx0, n) == Some((KindView::TE(r@), cx@, p)));
                }
                map_read(p)
            },
        }
    }

    /// The reader for the next request, discarding any trailers. Use the `TE`
    /// variant directly to access trailers. The body has to have been drained,
    /// without an error.
    pub fn finish(self) -> (r: FrontendResult<FrontendReader<I>>)
        requires
            self@.is_finished(),
        ensures
            r matches Ok(next) && next@ == (FrontendReaderView {
                reader: self@.after(),
                slots: self@.slots_after(),
            }),
    {
        match self {
            FrontendBodyReaderKind::Bodyless(r) => r.drain(),
            FrontendBodyReaderKind::CL(r) => Ok(r.finish()),
            FrontendBodyReaderKind::TE(r) => {
                let (reader, _trailers) = r.finish();
                Ok(reader)
            },
        }
    }
}

/// A frontend request body reader.
pub struct FrontendBodyReader<I> {
    reader: BodyReader<I>,
}

impl<I> View for FrontendBodyReader<I> {
    type V = KindView<I>;

    closed spec fn view(&self) -> KindView<I> {
        self.reader@
    }
}

impl<I> FrontendBodyReader<I> {
    fn new(io: BytesReader<I>, mode: BodyReadMode, parse_slots: ParseSlots) -> (r: Self)
        requires
            mode != BodyReadMode::Eof,
        ensures
            r@ == new_reader(io@, mode, parse_slots@),
    {
        Self { reader: BodyReader::new(io, mode, parse_slots) }
    }

    /// How the end of the body is told.
    pub fn mode(&self) -> (m: BodyReadMode)
        ensures
            m == self@.mode(),
    {
        self.reader.mode()
    }

    /// The reader, by kind.
    pub fn into_kind(self) -> (r: FrontendBodyReaderKind<I>)
        ensures
            r@ == self@,
    {
        let Self { reader } = self;
        match reader.into_kind() {
            BodyReaderKind::Bodyless(inner) => FrontendBodyReaderKind::Bodyless(
                FrontendBodylessBodyReader { inner },
            ),
            BodyReaderKind::CL(inner) => FrontendBodyReaderKind::CL(
                FrontendContentLengthBodyReader { inner },
            ),
            BodyReaderKind::TE(inner) => FrontendBodyReaderKind::TE(
                FrontendChunkedBodyReader { inner },
            ),
        }
    }

    /// Read up to `max_len` bytes from the body. Returns `None` when the body
    /// is complete.
    pub fn poll_read(&mut self, cx: &mut Context, max_len: usize) -> (r: Poll<
        FrontendResult<Option<Bytes>>,
    >)
        ensures
            ({
                let (t, cx2, p) = old(self)@.poll_read(old(cx)@, max_len as nat);
                final(self)@ == t && final(cx)@ == cx2 && frontend_data(r) == read_result(p)
            }),
            old(self)@ matches KindView::TE(c) ==> reads_any_body_back(c, old(cx)@, max_len as nat)
                && refuses_any_aborted_body(c, old(cx)@, max_len as nat),
    {
        map_read(self.reader.poll_read(cx, max_len))
    }

    /// Returns true when the body is fully drained.
    pub fn drained(&self) -> (r: bool)
        ensures
            r == self@.is_drained(),
    {
        self.reader.drained()
    }

    /// Convert this reader into a [`FrontendPeekableBodyReader`] that supports
    /// peeking at body bytes without consuming them.
    pub fn peekable(self) -> (r: FrontendPeekableBodyReader<I>)
        ensures
            r@ == (PeekableView { peeked: Seq::empty(), source: SourceView::Framed(self@) }),
    {
        FrontendPeekableBodyReader::new(self)
    }

    /// Read the body to its end, and drop it.
    pub fn poll_drain(&mut self, cx: &mut Context) -> (r: Poll<FrontendResult<()>>)
        ensures
            drained_as(old(self)@, old(cx)@, final(self)@, final(cx)@, r),
            (r matches Poll::Ready(Ok(()))) ==> final(self)@.is_finished(),
            old(self)@.drains_any(old(cx)@, final(self)@, final(cx)@, r),
    {
        let ghost before = self@;
        let p = self.reader.poll_drain(cx);
        proof {
            let n = choose|n: nat| #[trigger]
                before.poll_drain(old(cx)@, n) == Some((self@, cx@, p));
            assert(old(self)@.poll_drain(old(cx)@, n) == Some((self@, cx@, p)));
        }
        map_read(p)
    }

    /// A new [`FrontendReader`] ready to read the next request in the pipeline.
    /// The body has to have been drained, without an error.
    pub fn finish(self) -> (r: FrontendReader<I>)
        requires
            self@.is_finished(),
        ensures
            r@ == (FrontendReaderView { reader: self@.after(), slots: self@.slots_after() }),
    {
        let Self { reader } = self;
        let (io, parse_slots) = reader.finish();
        FrontendReader::from_parts(io, parse_slots)
    }
}

/// A frontend request body reader with peek support.
pub struct FrontendPeekableBodyReader<I> {
    reader: PeekableBodyReader<I>,
}

impl<I> View for FrontendPeekableBodyReader<I> {
    type V = PeekableView<I>;

    closed spec fn view(&self) -> PeekableView<I> {
        self.reader@
    }
}

/// The view of a look ahead, as an outcome of the frontend.
pub open spec fn frontend_peek(r: Poll<FrontendResult<(bool, &[u8])>>) -> Poll<
    FrontendResult<(bool, Seq<u8>)>,
> {
    match r {
        Poll::Pending => Poll::Pending,
        Poll::Ready(Err(e)) => Poll::Ready(Err(e)),
        Poll::Ready(Ok((complete, s))) => Poll::Ready(Ok((complete, s@))),
    }
}

impl<I> FrontendPeekableBodyReader<I> {
    /// A reader that looks ahead into the body of a request.
    pub fn new(reader: FrontendBodyReader<I>) -> (r: Self)
        ensures
            r@ == (PeekableView { peeked: Seq::empty(), source: SourceView::Framed(reader@) }),
    {
        let FrontendBodyReader { reader } = reader;
        Self { reader: reader.peekable() }
    }

    /// How the end of the body is told.
    pub fn mode(&self) -> (m: BodyReadMode)
        ensures
            m == self@.source.mode(),
    {
        self.reader.mode()
    }

    /// Peek bytes from the body. Repeated calls to peek will start from the
    /// same offset until the bytes are read from the body. That is, peek always
    /// starts with the same data until that data is read out.
    pub fn poll_peek(&mut self, cx: &mut Context, max_len: usize) -> (r: Poll<
        FrontendResult<(bool, &[u8])>,
    >)
        ensures
            exists|n: nat|
                (#[trigger] old(self)@.poll_peek(old(cx)@, max_len as nat, n)) matches Some(
                    (t, cx2, p),
                ) && t == final(self)@ && cx2 == final(cx)@ && frontend_peek(r) == read_result(p),
            r matches Poll::Ready(Ok((complete, ahead))) ==> final(self)@.gives_again(
                max_len as nat,
                Poll::Ready(Ok((complete, ahead@))),
            ),
            peeks_any_body(
                old(self)@,
                old(cx)@,
                final(self)@,
                final(cx)@,
                frontend_peek(r),
                max_len as nat,
            ),
    {
        let ghost before = self@;
        let p = self.reader.poll_peek(cx, max_len);
        proof {
            let n = choose|n: nat| #[trigger]
                before.poll_peek(old(cx)@, max_len as nat, n) == Some(
                    (after_borrow(self.reader)@, cx@, peek_view(p)),
                );
            assert(old(self)@.poll_peek(old(cx)@, max_len as nat, n) is Some);
        }
        map_read(p)
    }

    /// Read up to `max_len` bytes from the body. Returns `None` when the body
    /// is complete.
    pub fn poll_read(&mut self, cx: &mut Context, max_len: usize) -> (r: Poll<
        FrontendResult<Option<Bytes>>,
    >)
        ensures
            ({
                let (t, cx2, p) = old(self)@.poll_read(old(cx)@, max_len as nat);
                final(self)@ == t && final(cx)@ == cx2 && frontend_data(r) == read_result(p)
            }),
            peekable_reads_back(
                old(self)@,
                old(cx)@,
                final(self)@,
                final(cx)@,
                frontend_data(r),
                max_len as nat,
            ),
            old(self)@.peeked.len() == 0 ==> old(self)@.source.reads_any_back(
                old(cx)@,
                max_len as nat,
            ),
    {
        map_read(self.reader.poll_read(cx, max_len))
    }

    /// Returns true when the body is fully drained.
    pub fn drained(&self) -> (r: bool)
        ensures
            r == self@.is_drained(),
    {
        self.reader.drained()
    }

    /// Read the body to its end, and drop it.
    pub fn poll_drain(&mut self, cx: &mut Context) -> (r: Poll<FrontendResult<()>>)
        ensures
            exists|n: nat|
                (#[trigger] old(self)@.poll_drain(old(cx)@, n)) matches Some((t, cx2, p)) && t
                    == final(self)@ && cx2 == final(cx)@ && r == read_result(p),
            (r matches Poll::Ready(Ok(()))) ==> final(self)@.is_finished(),
            old(self)@.source.drains_any(old(cx)@, final(self)@.source, final(cx)@, r),
    {
        let ghost before = self@;
        let p = self.reader.poll_drain(cx);
        proof {
            let n = choose|n: nat| #[trigger]
                before.poll_drain(old(cx)@, n) == Some((self@, cx@, p));
            assert(old(self)@.poll_drain(old(cx)@, n) == Some((self@, cx@, p)));
        }
        map_read(p)
    }

    /// A new [`FrontendReader`] ready to read the next request in the pipeline;
    /// `None` where the connection cannot be used again. The body has to have
    /// been drained, without an error.
    pub fn finish(self) -> (r: Option<FrontendReader<I>>)
        requires
            self@.is_finished(),
        ensures
            match self@.source {
                SourceView::Framed(k) => r matches Some(next) && next@ == (FrontendReaderView {
                    reader: k.after(),
                    slots: k.slots_after(),
                }),
                SourceView::Eof(_) => r is None,
            },
    {
        let Self { reader } = self;
        match reader.finish() {
            (Some(io), parse_slots) => Some(FrontendReader::from_parts(io, parse_slots)),
            (None, _) => None,
        }
    }
}

/// The body of a request is read as its framing says: by its length, by the chunked coding,
/// or not at all where nothing frames it. It is read from where the head ended. A request is
/// refused exactly where its fields do not frame it.
pub proof fn bodies_are_read_as_framed<I>(
    reader: FrontendReader<I>,
    req: Request,
    r: FrontendResult<FrontendRequest<I>>,
)
    requires
        call_ensures(FrontendReader::<I>::into_request, (reader, req), r),
    ensures
        match (framing_of(req@.headers), r) {
            (Err(e), Err(f)) => f@ == FrontendErrorView::HeaderError(e),
            (Ok(framing), Ok(q)) => {
                &&& q.request() == req@
                &&& match (framing, q.body()) {
                    (ParsedFraming::Length(n), KindView::CL(inner)) => {
                        &&& inner.length == n
                        &&& inner.offset == 0
                        &&& inner.reader == reader@.reader
                        &&& inner.slots == reader@.slots
                    },
                    (ParsedFraming::Chunked, KindView::TE(inner)) => {
                        inner.0 matches Some(
                            crate::body::reader::chunked::ChunkStreamView::BetweenChunk(head),
                        ) && head.reader == reader@.reader && head.slots == reader@.slots
                            && head.state is ReadingSize && head.strict
                    },
                    (ParsedFraming::NoFraming, KindView::Bodyless(inner)) => {
                        inner.reader == reader@.reader && inner.slots == reader@.slots
                    },
                    _ => false,
                }
            },
            _ => false,
        },
{
}

/// What a read of a head comes to where the head is not complete: it is refused where it has
/// reached the limit, with both lengths; it waits for the transport where nothing came; where
/// the transport failed, it fails with that; and where the stream ended, it tells whether
/// any byte had come.
pub proof fn incomplete_heads_are_waited_for<I>(
    s: FrontendReaderView<I>,
    cx: Cx,
    max_head_length: usize,
)
    requires
        request_of(httparse_request(s.reader.buf, s.slots)) == Ok::<
            Option<(RequestView, nat)>,
            crate::http_message::message::MessageErrorView,
        >(None),
        s.reader.buf.len() <= usize::MAX,
    ensures
        ({
            let (t, cx2, p) = s.poll_head(cx, max_head_length);
            let len = s.reader.buf.len();
            &&& len >= max_head_length ==> t == s && cx2 == cx && (p matches Poll::Ready(
                Err(FrontendErrorView::MaxHeadLenExceeded(a, b)),
            ) && a == len && b == max_head_length)
            &&& len < max_head_length ==> (match cx.read {
                None => {
                    &&& p is Pending
                    &&& t.reader.buf == s.reader.buf
                    &&& cx2.wants == crate::transport::WantsView::Read(
                        (max_head_length - len) as nat,
                    )
                },
                Some(Err(e)) => p matches Poll::Ready(Err(FrontendErrorView::ReadError(f))) && f
                    == e,
                Some(Ok(data)) => if data.len() > 0 {
                    let more = FrontendReaderView {
                        reader: Buffered { buf: s.reader.buf + data, ..s.reader },
                        ..s
                    };
                    (t, cx2, p) == more.poll_head(Cx { read: None, ..cx }, max_head_length)
                } else if len == 0 {
                    p matches Poll::Ready(Err(FrontendErrorView::FirstReadEOF))
                } else {
                    p matches Poll::Ready(Err(FrontendErrorView::UnexpectedEOF))
                },
            })
        }),
{
    reveal_with_fuel(FrontendReaderView::poll_head, 2);
}

/// A head that is complete is taken off the front, without a look at the transport, however
/// long it is; and one that is wrong is refused with all that came left as it is.
pub proof fn complete_heads_are_taken_at_once<I>(
    s: FrontendReaderView<I>,
    cx: Cx,
    max_head_length: usize,
)
    ensures
        ({
            let (t, cx2, p) = s.poll_head(cx, max_head_length);
            match request_of(httparse_request(s.reader.buf, s.slots)) {
                Ok(Some((req, head_len))) => {
                    &&& p matches Poll::Ready(Ok(m)) && m == req
                    &&& cx2 == cx
                    &&& t.slots == s.slots
                    &&& t.reader.io == s.reader.io
                    &&& t.reader.buf == s.reader.buf.skip(head_len as int)
                },
                Err(e) => {
                    &&& p matches Poll::Ready(Err(FrontendErrorView::HttpRequestParseError(f)))
                        && f == e
                    &&& cx2 == cx
                    &&& t == s
                },
                Ok(None) => true,
            }
        }),
{
}

/// A plain request head, of either version, that has come or is still to come is read back as
/// it was written. Just the head is consumed.
pub proof fn plain_heads_are_read_back<I>(
    reader: &mut FrontendReader<I>,
    cx: &mut Context,
    max_head_length: usize,
    r: Poll<FrontendResult<Request>>,
    version: HttpVersion,
    method: Seq<u8>,
    path: Seq<u8>,
    fields: Seq<Field>,
    coming: Seq<u8>,
    rest: Seq<u8>,
)
    requires
        call_ensures(FrontendReader::<I>::poll_head, (reader, cx, max_head_length), r),
        is_plain_request(method, path, fields),
        fields.len() <= old(reader)@.slots,
        versioned_request_text(version, method, path, fields).len() <= max_head_length,
        unread(old(reader)@.reader, old(cx)@) + coming == versioned_request_text(
            version,
            method,
            path,
            fields,
        ) + rest,
    ensures
        match r {
            Poll::Ready(Ok(m)) => {
                &&& m@.version == version
                &&& m@.method == method
                &&& m@.path == path
                &&& m@.headers == fields
                &&& unread(final(reader)@.reader, final(cx)@) + coming == rest
            },
            Poll::Pending => coming.len() > 0 && unread(final(reader)@.reader, final(cx)@)
                == unread(old(reader)@.reader, old(cx)@),
            Poll::Ready(Err(_)) => coming.len() > 0 && read_failed(old(cx)@),
        },
{
    assert(request_comes(
        unread(old(reader)@.reader, old(cx)@),
        coming,
        version,
        method,
        path,
        fields,
        rest,
    ));
}

/// A read of a request is a read of its head, and then what becomes of that head: a body that
/// is read as its framing says, or an error where its fields do not frame it.
pub proof fn reads_go_on_behind_the_head<I>(
    reader: FrontendReader<I>,
    cx: &mut Context,
    max_head_length: usize,
    r: Reading<I>,
)
    requires
        call_ensures(FrontendReader::<I>::read, (reader, cx, max_head_length), r),
    ensures
        ({
            let (next, cx2, p) = reader@.poll_head(old(cx)@, max_head_length);
            &&& final(cx)@ == cx2
            &&& match (r, p) {
                (Reading::Pending(back), Poll::Pending) => back@ == next,
                (Reading::Ready(Err(e)), Poll::Ready(Err(f))) => e@ == f,
                (Reading::Ready(Err(e)), Poll::Ready(Ok(req))) => framing_of(req.headers) matches Err(
                    f,
                ) && e@ == FrontendErrorView::HeaderError(f),
                (Reading::Ready(Ok(q)), Poll::Ready(Ok(req))) => {
                    &&& q.request() == req
                    &&& match (framing_of(req.headers), q.body()) {
                        (Ok(ParsedFraming::Length(n)), KindView::CL(inner)) => inner.length == n
                            && inner.offset == 0 && inner.reader == next.reader,
                        (Ok(ParsedFraming::Chunked), KindView::TE(_)) => true,
                        (Ok(ParsedFraming::NoFraming), KindView::Bodyless(inner)) => inner.reader
                            == next.reader,
                        _ => false,
                    }
                },
                _ => false,
            }
        }),
{
}

/// A read of the body of a request comes to what the body gives, and a look ahead to what it
/// shows; their failures are told as failures to read a body.
pub proof fn reads_tell_the_errors_of_the_body<I>(
    b: &mut FrontendBodyReader<I>,
    cx: &mut Context,
    max_len: usize,
    r: Poll<FrontendResult<Option<Bytes>>>,
    v: &mut FrontendPeekableBodyReader<I>,
    vcx: &mut Context,
    s: Poll<FrontendResult<Option<Bytes>>>,
)
    requires
        call_ensures(FrontendBodyReader::<I>::poll_read, (b, cx, max_len), r),
        call_ensures(FrontendPeekableBodyReader::<I>::poll_read, (v, vcx, max_len), s),
    ensures
        ({
            let (t, cx2, p) = old(b)@.poll_read(old(cx)@, max_len as nat);
            &&& final(b)@ == t
            &&& final(cx)@ == cx2
            &&& match (p, r) {
                (Poll::Pending, Poll::Pending) => true,
                (Poll::Ready(Ok(None)), Poll::Ready(Ok(None))) => true,
                (Poll::Ready(Ok(Some(d))), Poll::Ready(Ok(Some(e)))) => octets(e) == d,
                (
                    Poll::Ready(Err(e)),
                    Poll::Ready(Err(FrontendError::BodyReadError(f))),
                ) => f == e,
                _ => false,
            }
        }),
        ({
            let (t, cx2, p) = old(v)@.poll_read(old(vcx)@, max_len as nat);
            &&& final(v)@ == t
            &&& final(vcx)@ == cx2
            &&& match (p, s) {
                (Poll::Pending, Poll::Pending) => true,
                (Poll::Ready(Ok(None)), Poll::Ready(Ok(None))) => true,
                (Poll::Ready(Ok(Some(d))), Poll::Ready(Ok(Some(e)))) => octets(e) == d,
                (
                    Poll::Ready(Err(e)),
                    Poll::Ready(Err(FrontendError::BodyReadError(f))),
                ) => f == e,
                _ => false,
            }
        }),
{
}

/// After a body, the connection comes back as the body left it, with its slots.
pub proof fn connections_come_back_after_the_body<I>(
    b: FrontendBodyReader<I>,
    r: FrontendReader<I>,
    v: FrontendPeekableBodyReader<I>,
    s: Option<FrontendReader<I>>,
)
    requires
        call_ensures(FrontendBodyReader::<I>::finish, (b,), r),
        call_ensures(FrontendPeekableBodyReader::<I>::finish, (v,), s),
    ensures
        r@.reader == b@.after() && r@.slots == b@.slots_after(),
        b@ matches KindView::CL(inner) ==> r@.reader == inner.reader && r@.slots == inner.slots,
        b@ matches KindView::Bodyless(inner) ==> r@.reader == inner.reader && r@.slots
            == inner.slots,
        b@ matches KindView::TE(inner) ==> (inner.0 matches Some(
            crate::body::reader::chunked::ChunkStreamView::Done(last),
        ) ==> r@.reader == last.reader && r@.slots == last.slots),
        s is Some <==> v@.source is Framed,
        v@.source matches SourceView::Framed(k) ==> s->Some_0@.reader == k.after()
            && s->Some_0@.slots == k.slots_after(),
{
}

/// A reader of a request tells the mode of its body, and that it is drained exactly where
/// there is nothing more to read of it; so does one that looks ahead, which still has to read
/// what it looked at.
pub proof fn readers_tell_their_mode_and_their_end<I>(
    b: &FrontendBodyReader<I>,
    mode: BodyReadMode,
    drained: bool,
    v: &FrontendPeekableBodyReader<I>,
    ahead_mode: BodyReadMode,
    ahead_drained: bool,
)
    requires
        call_ensures(FrontendBodyReader::<I>::mode, (b,), mode),
        call_ensures(FrontendBodyReader::<I>::drained, (b,), drained),
        call_ensures(FrontendPeekableBodyReader::<I>::mode, (v,), ahead_mode),
        call_ensures(FrontendPeekableBodyReader::<I>::drained, (v,), ahead_drained),
    ensures
        match b@ {
            KindView::Bodyless(_) => mode == BodyReadMode::Bodyless && drained,
            KindView::CL(c) => mode == BodyReadMode::ContentLength(c.length) && drained == (
            c.offset >= c.length),
            KindView::TE(c) => mode == BodyReadMode::Chunk && drained == (c.0 is None
                || c.0->Some_0 is Done),
        },
        v@.source matches SourceView::Framed(KindView::CL(c)) ==> ahead_mode
            == BodyReadMode::ContentLength(c.length) && ahead_drained == (c.offset >= c.length
            && v@.peeked.len() == 0),
        v@.source matches SourceView::Framed(KindView::TE(c)) ==> ahead_mode
            == BodyReadMode::Chunk && ahead_drained == ((c.0 is None || c.0->Some_0 is Done)
            && v@.peeked.len() == 0),
        v@.source matches SourceView::Framed(KindView::Bodyless(_)) ==> ahead_mode
            == BodyReadMode::Bodyless && ahead_drained == (v@.peeked.len() == 0),
{
}

} // verus!
