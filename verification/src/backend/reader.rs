//! Tools for reading responses from an HTTP/1.x backend.
use bytes::Bytes;
use vstd::prelude::*;
use vstd::string::*;

use crate::backend::error::{
    map_read, read_result, BackendError, BackendErrorView, BackendResult,
};
use crate::body::error::BodyResult;
use crate::body::reader::bodyless::{BodylessBodyReader, BodylessView};
use crate::body::reader::chunk_head::{ChunkHeadStateView, ChunkHeadView};
use crate::body::reader::chunked::{
    drains_any_body, reads_any_body_back, refuses_any_aborted_body, ChunkStreamView,
    ChunkedBodyReader, ChunkedView,
};
use crate::body::reader::content_length::{
    drains_any_length, ContentLengthBodyReader, ContentLengthView,
};
use crate::body::reader::eof::{EofBodyReader, EofView};
use crate::body::reader::{lemma_first_in_front, read_failed, unread};
use crate::http_message::framing::ParsedFraming;
use crate::http_message::header::{find_field, framing_of, persistent, Field, Headers};
use crate::http_message::message::{
    is_informational_code, response_of, ParseSlots, Response, ResponseView,
};
use crate::http_message::raw::{httparse_response, is_plain_response, versioned_response_text};
use crate::http_message::version::HttpVersion;
use crate::io_buffer::{Buffered, BytesReader};
use crate::octets::octets;
use crate::text::ascii;
use crate::transport::{Context, Cx, Poll};

verus! {

/// Reads a response from a backend.
#[derive(Debug)]
pub struct BackendReader<I> {
    reader: BytesReader<I>,
    parse_slots: ParseSlots,
}

/// The model of a [`BackendReader`].
pub struct BackendReaderView<I> {
    pub reader: Buffered<I>,
    pub slots: nat,
}

impl<I> BackendReaderView<I> {
    /// A response head: bytes are read until it ends. A head that does not end
    /// within `max_head_length` bytes is refused; where the stream ends, it
    /// makes a difference whether any byte of a head has come.
    pub open spec fn poll_head(self, cx: Cx, max_head_length: usize) -> (
        Self,
        Cx,
        Poll<Result<ResponseView, BackendErrorView>>,
    )
        decreases (if cx.read is Some { 1nat } else { 0 }),
    {
        let len = self.reader.buf.len();
        match response_of(httparse_response(self.reader.buf, self.slots)) {
            Err(e) => (self, cx, Poll::Ready(Err(BackendErrorView::HttpResponseParseError(e)))),
            Ok(Some((res, head_len))) => (
                BackendReaderView { reader: self.reader.skip(head_len as int), ..self },
                cx,
                Poll::Ready(Ok(res)),
            ),
            Ok(None) => if len >= max_head_length {
                (
                    self,
                    cx,
                    Poll::Ready(
                        Err(BackendErrorView::MaxHeadLenExceeded(len as usize, max_head_length)),
                    ),
                )
            } else {
                let (reader, cx2, p) = self.reader.poll_read(cx, (max_head_length - len) as nat);
                let next = BackendReaderView { reader, ..self };
                match p {
                    Poll::Pending => (next, cx2, Poll::Pending),
                    Poll::Ready(Err(e)) => (
                        next,
                        cx2,
                        Poll::Ready(Err(BackendErrorView::ReadError(e))),
                    ),
                    Poll::Ready(Ok(n)) => if n == 0 {
                        (
                            next,
                            cx2,
                            Poll::Ready(
                                Err(
                                    if len == 0 {
                                        BackendErrorView::FirstReadEOF
                                    } else {
                                        BackendErrorView::UnexpectedEOF
                                    },
                                ),
                            ),
                        )
                    } else {
                        next.poll_head(cx2, max_head_length)
                    },
                }
            },
        }
    }
}

impl<I> View for BackendReader<I> {
    type V = BackendReaderView<I>;

    closed spec fn view(&self) -> BackendReaderView<I> {
        BackendReaderView { reader: self.reader@, slots: self.parse_slots@ }
    }
}

/// What is unread, and what is still to come behind it, starts with the head of
/// a response as it was written, and goes on with `rest`.
pub open spec fn response_comes(
    front: Seq<u8>,
    coming: Seq<u8>,
    version: HttpVersion,
    code: u16,
    reason: Seq<u8>,
    fields: Seq<Field>,
    rest: Seq<u8>,
) -> bool {
    front + coming == versioned_response_text(version, code, reason, fields) + rest
}

/// A read of a head reads back any plain head, of either version, that can come to the reader and
/// is not longer than the limit: the response is the one that was written, and not a byte behind
/// it is consumed. The read is pending only while bytes are still to come, and it fails only
/// where the transport does before they have come.
pub open spec fn reads_any_response_back<I>(s: BackendReaderView<I>, cx: Cx, max_head_length: usize) -> bool {
    forall|coming: Seq<u8>, version: HttpVersion, code: u16, reason: Seq<u8>, fields: Seq<Field>, rest: Seq<u8>|
        #[trigger] response_comes(unread(s.reader, cx), coming, version, code, reason, fields, rest)
            && is_plain_response(code, reason, fields) && fields.len() <= s.slots && versioned_response_text(version, code, reason, fields).len()
            <= max_head_length ==> {
            let (t, cx2, p) = s.poll_head(cx, max_head_length);
            match p {
                Poll::Ready(Ok(m)) => {
                    &&& m == (ResponseView {
                        version,
                        code,
                        reason,
                        headers: fields,
                    })
                    &&& unread(t.reader, cx2) + coming == rest
                },
                Poll::Pending => {
                    &&& coming.len() > 0
                    &&& cx2.read is None
                    &&& unread(t.reader, cx2) == unread(s.reader, cx)
                },
                Poll::Ready(Err(_)) => coming.len() > 0 && read_failed(cx),
            }
        }
}

/// How the body of a response is read.
pub enum ResponseBody {
    /// There is none.
    Bodyless,
    /// It ends with the connection.
    Eof,
    /// It has this length.
    Length(u64),
    /// It is chunked.
    Chunked,
}

/// What becomes of a response head.
pub enum ResponsePlan {
    /// The response is informational; another one follows.
    Informational,
    /// The response is final. Its body is read in this way; and the connection
    /// may be used again afterwards, or not.
    Final { body: ResponseBody, recyclable: bool },
}

/// Whether a response with this code can have a body (RFC 9112 section 6.3).
pub open spec fn may_have_body(code: u16) -> bool {
    !is_informational_code(code) && code != 204 && code != 304
}

/// What becomes of a response head, or why it is refused, where `allow_body`
/// says whether the request allows the response to have a body.
pub open spec fn response_plan(res: ResponseView, allow_body: bool) -> Result<
    ResponsePlan,
    BackendErrorView,
> {
    match framing_of(res.headers) {
        Err(e) => Err(BackendErrorView::HeaderError(e)),
        Ok(framing) => if res.code == 204 && framing != ParsedFraming::NoFraming {
            Err(BackendErrorView::FramingHeadersOn204NoContentResponse)
        } else if is_informational_code(res.code) && framing != ParsedFraming::NoFraming {
            Err(BackendErrorView::FramingHeadersOnInformationalResponse)
        } else if res.version == HttpVersion::Http10 && find_field(
            res.headers,
            ascii("transfer-encoding"),
        ) is Some {
            Err(BackendErrorView::TransferEncodingOnHttp10Server)
        } else if res.code == 101 {
            Err(BackendErrorView::HttpSwitchingProtocolsUnsupported)
        } else if res.code == 102 {
            Err(BackendErrorView::HttpProcessingUnsupported)
        } else if is_informational_code(res.code) {
            Ok(ResponsePlan::Informational)
        } else {
            match persistent(res.headers, res.version) {
                Err(e) => Err(BackendErrorView::InvalidConnectionHeader(e)),
                Ok(recyclable) => Ok(
                    ResponsePlan::Final {
                        body: if !allow_body || !may_have_body(res.code) {
                            ResponseBody::Bodyless
                        } else {
                            match framing {
                                ParsedFraming::NoFraming => ResponseBody::Eof,
                                ParsedFraming::Length(cl) => ResponseBody::Length(cl),
                                ParsedFraming::Chunked => ResponseBody::Chunked,
                            }
                        },
                        recyclable,
                    },
                ),
            }
        },
    }
}

/// What a read of a response has come to. A read that waits for the transport
/// gives back the reader.
pub enum Reading<I> {
    Pending(BackendReader<I>),
    Ready(BackendResult<ResponseStream<I>>),
}

impl<I> BackendReader<I> {
    /// Create a new [`BackendReader`]. There has to be memory for that many
    /// headers.
    pub fn new(reader: I, max_headers: usize) -> (r: Self)
        requires
            max_headers * 32 <= isize::MAX,
        ensures
            r@ == (BackendReaderView {
                reader: Buffered { io: reader, buf: Seq::empty() },
                slots: max_headers as nat,
            }),
    {
        Self::new_with_iobuffer(BytesReader::new(reader), max_headers)
    }

    /// Create a new [`BackendReader`] from a connection from which bytes have
    /// been read already.
    pub fn new_with_iobuffer(reader: BytesReader<I>, max_headers: usize) -> (r: Self)
        requires
            max_headers * 32 <= isize::MAX,
        ensures
            r@ == (BackendReaderView { reader: reader@, slots: max_headers as nat }),
    {
        Self { reader, parse_slots: ParseSlots::new(max_headers) }
    }

    /// Wait for the full response head to be available.
    pub fn poll_head(&mut self, cx: &mut Context, max_head_length: usize) -> (r: Poll<
        BackendResult<Response>,
    >)
        ensures
            final(self)@ == old(self)@.poll_head(old(cx)@, max_head_length).0,
            final(cx)@ == old(self)@.poll_head(old(cx)@, max_head_length).1,
            match (r, old(self)@.poll_head(old(cx)@, max_head_length).2) {
                (Poll::Pending, Poll::Pending) => true,
                (Poll::Ready(Ok(res)), Poll::Ready(Ok(v))) => res@ == v,
                (Poll::Ready(Err(e)), Poll::Ready(Err(f))) => e@ == f,
                _ => false,
            },
            reads_any_response_back(old(self)@, old(cx)@, max_head_length),
    {
        let ghost start = unread(self@.reader, cx@);
        loop
            invariant
                start == unread(old(self)@.reader, old(cx)@),
                unread(self@.reader, cx@) == start,
                self@.slots == old(self)@.slots,
                cx@.read == old(cx)@.read || cx@.read is None,
                self@.poll_head(cx@, max_head_length) == old(self)@.poll_head(
                    old(cx)@,
                    max_head_length,
                ),
            decreases (if cx@.read is Some { 1nat } else { 0 }),
        {
            let ghost full = self@.reader.buf;
            let parsed = self.parse_slots.parse_response(&mut self.reader);
            proof {
                assert(full =~= start.take(full.len() as int));
                assert forall|coming: Seq<u8>, version: HttpVersion, code: u16, reason: Seq<u8>, fields: Seq<Field>, rest: Seq<u8>|
                    #[trigger] response_comes(start, coming, version, code, reason, fields, rest) && is_plain_response(
                        code, reason, fields,
                    ) && fields.len() <= old(self)@.slots implies match parsed {
                    Ok(Some(m)) => m@ == (ResponseView {
                        version,
                        code,
                        reason,
                        headers: fields,
                    }) && unread(self@.reader, cx@) + coming == rest,
                    Ok(None) => full.len() < versioned_response_text(version, code, reason, fields).len() && (start == full
                        ==> coming.len() > 0),
                    Err(_) => false,
                } by {
                    let text = versioned_response_text(version, code, reason, fields);
                    lemma_first_in_front(full, start, coming, text, rest);
                    if full.len() >= text.len() {
                        assert(unread(self@.reader, cx@) =~= start.skip(text.len() as int));
                    }
                }
            }
            match parsed {
                Err(e) => return Poll::Ready(Err(BackendError::HttpResponseParseError(e))),
                Ok(Some(res)) => return Poll::Ready(Ok(res)),
                Ok(None) => {},
            }
            let len: usize = self.reader.len();
            if len >= max_head_length {
                return Poll::Ready(Err(BackendError::MaxHeadLenExceeded(len, max_head_length)));
            }
            let first_read = self.reader.is_empty();
            // read some data into the buffer
            let read = self.reader.poll_read(cx, max_head_length - len);
            assert(unread(self@.reader, cx@) =~= start);
            match read {
                Poll::Pending => return Poll::Pending,
                Poll::Ready(Err(e)) => return Poll::Ready(Err(BackendError::ReadError(e))),
                Poll::Ready(Ok(n)) => {
                    if n == 0 {
                        // if the first attempt to read data into the buffer for a
                        // response finds EOF, the server has gone away and won't be
                        // sending us more data in the pipeline.
                        return Poll::Ready(
                            Err(
                                if first_read {
                                    BackendError::FirstReadEOF
                                } else {
                                    BackendError::UnexpectedEOF
                                },
                            ),
                        );
                    }
                },
            }
        }
    }

    /// The response with this head, and a reader for what follows it.
    ///
    /// `allow_body` should be set to false when we do not expect the backend to
    /// respond with a body even if the response headers indicate a body would
    /// be present such as is the case with a HEAD or CONNECT request. The two
    /// limits are those of the reads that follow an informational response; no
    /// chunk header is refused for its length.
    pub fn into_response(
        self,
        res: Response,
        allow_body: bool,
        max_head_length: usize,
        max_chunk_header_length: usize,
    ) -> (r: BackendResult<ResponseStream<I>>)
        ensures
            stream_matches(
                r,
                self@,
                res@,
                response_plan(res@, allow_body),
                allow_body,
                max_head_length,
                max_chunk_header_length,
            ),
    {
        let framing = match res.framing() {
            Ok(framing) => framing,
            Err(e) => return Err(BackendError::from(e)),
        };
        let is_informational = res.is_informational();
        // RFC 9110 section 8.6 prohibits an 1xx or 204 response from containing
        // a content-length header. it also specifies that a content-length
        // header MUST NOT be sent in a response to a CONNECT method.
        //
        // RFC 9112 section 6.1 prohibits an 1xx or 204 response from containing
        // a transfer-encoding header. it also specifies a transfer-encoding
        // header must not be sent in response to a CONNECT request.
        if res.code() == 204 && !framing.is_no_framing() {
            return Err(BackendError::FramingHeadersOn204NoContentResponse);
        }
        if is_informational.is_some() && !framing.is_no_framing() {
            return Err(BackendError::FramingHeadersOnInformationalResponse);
        }
        proof {
            reveal_strlit("transfer-encoding");
            is_ascii_spec_bytes("transfer-encoding");
            assert("transfer-encoding".spec_bytes() =~= ascii("transfer-encoding"));
        }
        if res.version() == HttpVersion::Http10 && res.headers().get_header(
            "transfer-encoding",
        ).is_some() {
            // RFC 9112 section 6.1: A server or client that receives an
            // HTTP/1.0 message containing a Transfer-Encoding header field MUST
            // treat the message as if the framing is faulty, even if a
            // Content-Length is present, and close the connection after
            // processing the message.
            return Err(BackendError::TransferEncodingOnHttp10Server);
        }
        // While RFC 9112 section 6.3 specifies that a 304 does not contain body
        // data, section 6.1 allows a transfer-encoding header in the response
        // to indicate the server would have applied this a transfer-encoding in
        // an unconditional GET. RFC 9110 section 8.6 says the same about 304
        // and content-length. Therefore, we only reject status codes with
        // framing that are 100..=199 and 204.

        let code: u16 = res.code();
        let expect_body = allow_body && is_informational.is_none() && code != 204 && code != 304;
        if let Some(info_code) = is_informational {
            // RFC 9110 section 15.2: a client (the gateway here) MUST be
            // able to parse 1xx responses even when it does not expect
            // one, and a proxy MUST forward them. Surface every 1xx code
            // as Informational so the caller can forward or drop it.
            // 101 and 102 are the deliberate exceptions: 101 changes
            // connection semantics in ways the gateway cannot safely
            // tunnel, and 102 is deprecated by RFC 7231 appendix B.
            if info_code == 101 {
                return Err(BackendError::HttpSwitchingProtocolsUnsupported);
            }
            if info_code == 102 {
                return Err(BackendError::HttpProcessingUnsupported);
            }
            return Ok(
                ResponseStream::Informational(
                    res,
                    BackendStreamReader {
                        allow_body,
                        max_head_length,
                        max_chunk_header_length,
                        reader: self,
                    },
                ),
            );
        }
        let recyclable = match res.headers().connection_is_persistent(res.version()) {
            Ok(recyclable) => recyclable,
            Err(e) => return Err(BackendError::from(e)),
        };
        let Self { reader, parse_slots } = self;
        let reader = if !expect_body {
            BackendBodyReader::Bodyless(
                BackendBodylessBodyReader {
                    inner: BodylessBodyReader::new(reader, parse_slots),
                    recyclable,
                },
            )
        } else {
            match framing {
                // No framing headers: body is terminated by connection close.
                // RFC 9112 section 6.3 rule 8.
                ParsedFraming::NoFraming => BackendBodyReader::Eof(
                    BackendEofBodyReader { inner: EofBodyReader::new(reader, parse_slots) },
                ),
                ParsedFraming::Length(cl) => BackendBodyReader::CL(
                    BackendContentLengthBodyReader {
                        inner: ContentLengthBodyReader::new(cl, reader, parse_slots),
                        recyclable,
                    },
                ),
                ParsedFraming::Chunked => BackendBodyReader::TE(
                    BackendChunkedBodyReader {
                        inner: ChunkedBodyReader::new(reader, parse_slots),
                        recyclable,
                    },
                ),
            }
        };
        Ok(ResponseStream::Response(BackendResponse { res, reader }))
    }

    /// Read a response from the backend. `max_head_length` limits the head, and the
    /// heads that follow an informational response, for which both limits are kept;
    /// no chunk header is refused for its length.
    pub fn read(
        self,
        cx: &mut Context,
        allow_body: bool,
        max_head_length: usize,
        max_chunk_header_length: usize,
    ) -> (r: Reading<I>)
        ensures
            reads_any_response_back(self@, old(cx)@, max_head_length),
            ({
                let (next, cx2, p) = self@.poll_head(old(cx)@, max_head_length);
                &&& final(cx)@ == cx2
                &&& match (r, p) {
                    (Reading::Pending(reader), Poll::Pending) => reader@ == next,
                    (Reading::Ready(Err(e)), Poll::Ready(Err(f))) => e@ == f,
                    (Reading::Ready(stream), Poll::Ready(Ok(res))) => stream_matches(
                        stream,
                        next,
                        res,
                        response_plan(res, allow_body),
                        allow_body,
                        max_head_length,
                        max_chunk_header_length,
                    ),
                    _ => false,
                }
            }),
    {
        let mut reader = self;
        match reader.poll_head(cx, max_head_length) {
            Poll::Pending => Reading::Pending(reader),
            Poll::Ready(Err(e)) => Reading::Ready(Err(e)),
            Poll::Ready(Ok(res)) => Reading::Ready(
                reader.into_response(res, allow_body, max_head_length, max_chunk_header_length),
            ),
        }
    }

    /// The connection, with what has been read from it.
    pub fn into_parts(self) -> (r: BytesReader<I>)
        ensures
            r@ == self@.reader,
    {
        let Self { reader, parse_slots: _ } = self;
        reader
    }
}

/// What follows a response head.
pub enum ResponseStream<I> {
    /// We got a regular response. We will not read another until we've drained
    /// out the body, if any.
    Response(BackendResponse<I>),
    /// We got an informational response.
    Informational(Response, BackendStreamReader<I>),
}

/// A response stream is what the plan for its head says.
pub open spec fn stream_matches<I>(
    r: BackendResult<ResponseStream<I>>,
    reader: BackendReaderView<I>,
    res: ResponseView,
    plan: Result<ResponsePlan, BackendErrorView>,
    allow_body: bool,
    max_head_length: usize,
    max_chunk_header_length: usize,
) -> bool {
    match (r, plan) {
        (Err(e), Err(f)) => e@ == f,
        (
            Ok(ResponseStream::Informational(head, next)),
            Ok(ResponsePlan::Informational),
        ) => head@ == res && next@ == (StreamReaderView {
            allow_body,
            max_head_length,
            max_chunk_header_length,
            reader,
        }),
        (
            Ok(ResponseStream::Response(response)),
            Ok(ResponsePlan::Final { body, recyclable }),
        ) => response.response() == res && response.body() == new_body(reader, body, recyclable),
        _ => false,
    }
}

impl<I> ResponseStream<I> {
    /// The final response; the stream itself where it is none.
    pub fn try_into_response(self) -> (r: Result<BackendResponse<I>, Box<Self>>)
        ensures
            match self {
                ResponseStream::Response(response) => r == Ok::<_, Box<Self>>(response),
                ResponseStream::Informational(_, _) => r matches Err(s) && *s == self,
            },
    {
        match self {
            ResponseStream::Response(r) => Ok(r),
            ResponseStream::Informational(res, reader) => Err(
                Box::new(ResponseStream::Informational(res, reader)),
            ),
        }
    }

    /// The informational response; the stream itself where it is none.
    pub fn try_into_informational(self) -> (r: Result<
        (Response, BackendStreamReader<I>),
        Box<Self>,
    >)
        ensures
            match self {
                ResponseStream::Response(_) => r matches Err(s) && *s == self,
                ResponseStream::Informational(res, reader) => r == Ok::<_, Box<Self>>(
                    (res, reader),
                ),
            },
    {
        match self {
            ResponseStream::Response(r) => Err(Box::new(ResponseStream::Response(r))),
            ResponseStream::Informational(res, reader) => Ok((res, reader)),
        }
    }
}

/// Reads the response that follows an informational one.
pub struct BackendStreamReader<I> {
    allow_body: bool,
    max_head_length: usize,
    max_chunk_header_length: usize,
    reader: BackendReader<I>,
}

/// The model of a [`BackendStreamReader`].
pub struct StreamReaderView<I> {
    pub allow_body: bool,
    pub max_head_length: usize,
    pub max_chunk_header_length: usize,
    pub reader: BackendReaderView<I>,
}

impl<I> View for BackendStreamReader<I> {
    type V = StreamReaderView<I>;

    closed spec fn view(&self) -> StreamReaderView<I> {
        StreamReaderView {
            allow_body: self.allow_body,
            max_head_length: self.max_head_length,
            max_chunk_header_length: self.max_chunk_header_length,
            reader: self.reader@,
        }
    }
}

/// What a read of the response that follows an informational one has come to.
pub enum StreamReading<I> {
    Pending(BackendStreamReader<I>),
    Ready(BackendResult<ResponseStream<I>>),
}

impl<I> BackendStreamReader<I> {
    /// Read the response that follows, as the one before was read.
    pub fn read(self, cx: &mut Context) -> (r: StreamReading<I>)
        ensures
            reads_any_response_back(self@.reader, old(cx)@, self@.max_head_length),
            ({
                let (next, cx2, p) = self@.reader.poll_head(old(cx)@, self@.max_head_length);
                &&& final(cx)@ == cx2
                &&& match (r, p) {
                    (StreamReading::Pending(reader), Poll::Pending) => reader@ == (
                    StreamReaderView { reader: next, ..self@ }),
                    (StreamReading::Ready(Err(e)), Poll::Ready(Err(f))) => e@ == f,
                    (StreamReading::Ready(stream), Poll::Ready(Ok(res))) => stream_matches(
                        stream,
                        next,
                        res,
                        response_plan(res, self@.allow_body),
                        self@.allow_body,
                        self@.max_head_length,
                        self@.max_chunk_header_length,
                    ),
                    _ => false,
                }
            }),
    {
        let Self { allow_body, max_head_length, max_chunk_header_length, reader } = self;
        match reader.read(cx, allow_body, max_head_length, max_chunk_header_length) {
            Reading::Pending(reader) => StreamReading::Pending(
                BackendStreamReader {
                    allow_body,
                    max_head_length,
                    max_chunk_header_length,
                    reader,
                },
            ),
            Reading::Ready(stream) => StreamReading::Ready(stream),
        }
    }
}

/// A final response, with a reader for its body.
pub struct BackendResponse<I> {
    res: Response,
    reader: BackendBodyReader<I>,
}

impl<I> BackendResponse<I> {
    /// The response.
    pub closed spec fn response(&self) -> ResponseView {
        self.res@
    }

    /// The reader of the body.
    pub closed spec fn body(&self) -> BackendBodyView<I> {
        self.reader@
    }

    /// Access the underlying [`Response`] without taking ownership.
    pub fn res(&self) -> (r: &Response)
        ensures
            r@ == self.response(),
    {
        &self.res
    }

    /// Access the underlying [`Response`] as mutable.
    pub fn res_mut(&mut self) -> (r: &mut Response)
        ensures
            r@ == old(self).response(),
            final(self).response() == final(r)@,
            final(self).body() == old(self).body(),
    {
        &mut self.res
    }

    /// Whether the connection can be used again after the body.
    pub fn recyclable(&self) -> (r: bool)
        ensures
            r == self.body().recyclable(),
    {
        self.reader.recyclable()
    }

    /// Split into the [`Response`] and the reader of its body.
    pub fn into_parts(self) -> (r: (Response, BackendBodyReader<I>))
        ensures
            r.0@ == self.response(),
            r.1@ == self.body(),
    {
        let Self { res, reader } = self;
        (res, reader)
    }
}

/// The view of a read of a body, as an outcome of the backend.
pub open spec fn backend_data(r: Poll<BackendResult<Option<Bytes>>>) -> Poll<
    BackendResult<Option<Seq<u8>>>,
> {
    match r {
        Poll::Pending => Poll::Pending,
        Poll::Ready(Err(e)) => Poll::Ready(Err(e)),
        Poll::Ready(Ok(None)) => Poll::Ready(Ok(None)),
        Poll::Ready(Ok(Some(b))) => Poll::Ready(Ok(Some(octets(b)))),
    }
}

/// The connection after a body, where it can be used again.
pub open spec fn recycled<I>(
    r: Option<BackendReader<I>>,
    reader: Buffered<I>,
    slots: nat,
    recyclable: bool,
) -> bool {
    match r {
        None => !recyclable,
        Some(next) => recyclable && next@ == (BackendReaderView { reader, slots }),
    }
}

/// Backend wrapper for [`BodylessBodyReader`].
pub struct BackendBodylessBodyReader<I> {
    inner: BodylessBodyReader<I>,
    recyclable: bool,
}

impl<I> BackendBodylessBodyReader<I> {
    /// The reader.
    pub closed spec fn inner(&self) -> BodylessView<I> {
        self.inner@
    }

    /// Whether the connection can be used again.
    pub closed spec fn is_recyclable(&self) -> bool {
        self.recyclable
    }

    /// The reader for the next response, where the connection can be used again.
    pub fn drain(self) -> (r: BackendResult<Option<BackendReader<I>>>)
        ensures
            r matches Ok(next) && recycled(
                next,
                self.inner().reader,
                self.inner().slots,
                self.is_recyclable(),
            ),
    {
        let Self { inner, recyclable } = self;
        let (reader, parse_slots) = inner.drain();
        if !recyclable {
            return Ok(None);
        }
        Ok(Some(BackendReader { reader, parse_slots }))
    }
}

/// Backend wrapper for [`ContentLengthBodyReader`].
pub struct BackendContentLengthBodyReader<I> {
    inner: ContentLengthBodyReader<I>,
    recyclable: bool,
}

impl<I> BackendContentLengthBodyReader<I> {
    /// The reader.
    pub closed spec fn inner(&self) -> ContentLengthView<I> {
        self.inner@
    }

    /// Whether the connection can be used again.
    pub closed spec fn is_recyclable(&self) -> bool {
        self.recyclable
    }

    /// The length of the body.
    pub fn content_length(&self) -> (n: u64)
        ensures
            n == self.inner().length,
    {
        self.inner.content_length()
    }

    /// Read at most `max_len` bytes of the body; `None` at its end.
    pub fn poll_read(&mut self, cx: &mut Context, max_len: usize) -> (r: Poll<
        BackendResult<Option<Bytes>>,
    >)
        ensures
            ({
                let (t, cx2, p) = old(self).inner().poll_read(old(cx)@, max_len as nat);
                final(self).inner() == t && final(cx)@ == cx2 && backend_data(r) == read_result(p)
            }),
            final(self).is_recyclable() == old(self).is_recyclable(),
    {
        map_read(self.inner.poll_read(cx, max_len))
    }

    /// Read the body to its end, and drop it.
    pub fn poll_drain(&mut self, cx: &mut Context) -> (r: Poll<BackendResult<()>>)
        ensures
            exists|n: nat|
                (#[trigger] old(self).inner().poll_drain(old(cx)@, n)) matches Some((t, cx2, p))
                    && t == final(self).inner() && cx2 == final(cx)@ && r == read_result(p),
            (r matches Poll::Ready(Ok(()))) ==> final(self).inner().remaining() == 0,
            drains_any_length(old(self).inner(), old(cx)@, final(self).inner(), final(cx)@, r),
            final(self).is_recyclable() == old(self).is_recyclable(),
    {
        let ghost before = self.inner@;
        let p = self.inner.poll_drain(cx);
        proof {
            let n = choose|n: nat| #[trigger]
                before.poll_drain(old(cx)@, n) == Some((self.inner@, cx@, p));
            assert(old(self).inner().poll_drain(old(cx)@, n) is Some);
        }
        map_read(p)
    }

    /// The reader for the next response, where the connection can be used again.
    /// The body has to have been drained.
    pub fn finish(self) -> (r: Option<BackendReader<I>>)
        requires
            self.inner().remaining() == 0,
        ensures
            recycled(r, self.inner().reader, self.inner().slots, self.is_recyclable()),
    {
        let Self { inner, recyclable } = self;
        let (reader, parse_slots) = inner.finish();
        if !recyclable {
            return None;
        }
        Some(BackendReader { reader, parse_slots })
    }
}

/// Backend wrapper for [`ChunkedBodyReader`]. Draining it returns both a
/// new [`BackendReader`] and the trailers from the chunked body.
pub struct BackendChunkedBodyReader<I> {
    inner: ChunkedBodyReader<I>,
    recyclable: bool,
}

impl<I> BackendChunkedBodyReader<I> {
    /// The reader.
    pub closed spec fn inner(&self) -> ChunkedView<I> {
        self.inner@
    }

    /// Whether the connection can be used again.
    pub closed spec fn is_recyclable(&self) -> bool {
        self.recyclable
    }

    /// Whether there is nothing more to read.
    pub fn drained(&self) -> (r: bool)
        ensures
            r == self.inner().is_drained(),
    {
        self.inner.drained()
    }

    /// Read at most `max_len` bytes of the body; `None` at its end.
    pub fn poll_read(&mut self, cx: &mut Context, max_len: usize) -> (r: Poll<
        BackendResult<Option<Bytes>>,
    >)
        ensures
            ({
                let (t, cx2, p) = old(self).inner().poll_read(old(cx)@, max_len as nat);
                final(self).inner() == t && final(cx)@ == cx2 && backend_data(r) == read_result(p)
            }),
            reads_any_body_back(old(self).inner(), old(cx)@, max_len as nat),
            refuses_any_aborted_body(old(self).inner(), old(cx)@, max_len as nat),
            final(self).is_recyclable() == old(self).is_recyclable(),
    {
        map_read(self.inner.poll_read(cx, max_len))
    }

    /// Read the body to its end, and drop it.
    pub fn poll_drain(&mut self, cx: &mut Context) -> (r: Poll<BackendResult<()>>)
        ensures
            exists|n: nat|
                (#[trigger] old(self).inner().poll_drain(old(cx)@, n)) matches Some((t, cx2, p))
                    && t == final(self).inner() && cx2 == final(cx)@ && r == read_result(p),
            (r matches Poll::Ready(Ok(()))) ==> final(self).inner().0 is Some
                && final(self).inner().is_drained(),
            drains_any_body(old(self).inner(), old(cx)@, final(self).inner(), final(cx)@, r),
            final(self).is_recyclable() == old(self).is_recyclable(),
    {
        let ghost before = self.inner@;
        let p = self.inner.poll_drain(cx);
        proof {
            let n = choose|n: nat| #[trigger]
                before.poll_drain(old(cx)@, n) == Some((self.inner@, cx@, p));
            assert(old(self).inner().poll_drain(old(cx)@, n) is Some);
        }
        map_read(p)
    }

    /// The reader for the next response, where the connection can be used again,
    /// and the trailers. The body has to have been drained, without an error.
    pub fn finish(self) -> (r: (Option<BackendReader<I>>, Headers))
        requires
            self.inner().0 is Some && self.inner().0->Some_0 is Done,
        ensures
            ({
                let last = self.inner().0->Some_0->Done_0;
                recycled(r.0, last.reader, last.slots, self.is_recyclable()) && r.1@
                    == last.trailers
            }),
    {
        let Self { inner, recyclable } = self;
        let (reader, parse_slots, trailers) = inner.finish();
        let next = if recyclable {
            Some(BackendReader { reader, parse_slots })
        } else {
            None
        };
        (next, trailers)
    }
}

/// Body reader for close-delimited response bodies.
pub struct BackendEofBodyReader<I> {
    inner: EofBodyReader<I>,
}

impl<I> BackendEofBodyReader<I> {
    /// The reader.
    pub closed spec fn inner(&self) -> EofView<I> {
        self.inner@
    }

    /// Read at most `max_len` bytes of the body; `None` at its end.
    pub fn poll_read(&mut self, cx: &mut Context, max_len: usize) -> (r: Poll<
        BackendResult<Option<Bytes>>,
    >)
        ensures
            ({
                let (t, cx2, p) = old(self).inner().poll_read(old(cx)@, max_len as nat);
                final(self).inner() == t && final(cx)@ == cx2 && backend_data(r) == read_result(p)
            }),
    {
        map_read(self.inner.poll_read(cx, max_len))
    }

    /// Drop the connection.
    pub fn drain(self) -> (r: ParseSlots)
        ensures
            r@ == self.inner().slots,
    {
        let Self { inner } = self;
        inner.drain()
    }
}

/// The body reader for a backend response. Each variant corresponds to a
/// different framing mode.
pub enum BackendBodyReader<I> {
    Bodyless(BackendBodylessBodyReader<I>),
    CL(BackendContentLengthBodyReader<I>),
    TE(BackendChunkedBodyReader<I>),
    Eof(BackendEofBodyReader<I>),
}

/// The model of a [`BackendBodyReader`].
pub enum BackendBodyView<I> {
    Bodyless { inner: BodylessView<I>, recyclable: bool },
    CL { inner: ContentLengthView<I>, recyclable: bool },
    TE { inner: ChunkedView<I>, recyclable: bool },
    Eof { inner: EofView<I> },
}

/// The reader of a body that is read in this way.
pub open spec fn new_body<I>(
    from: BackendReaderView<I>,
    body: ResponseBody,
    recyclable: bool,
) -> BackendBodyView<I> {
    let (reader, slots) = (from.reader, from.slots);
    match body {
        ResponseBody::Bodyless => BackendBodyView::Bodyless {
            inner: BodylessView { reader, slots },
            recyclable,
        },
        ResponseBody::Eof => BackendBodyView::Eof { inner: EofView { reader, slots, eof: false } },
        ResponseBody::Length(length) => BackendBodyView::CL {
            inner: ContentLengthView { length, offset: 0, reader, slots },
            recyclable,
        },
        ResponseBody::Chunked => BackendBodyView::TE {
            inner: ChunkedView(
                Some(
                    ChunkStreamView::BetweenChunk(
                        ChunkHeadView {
                            reader,
                            slots,
                            strict: false,
                            state: ChunkHeadStateView::ReadingSize,
                        },
                    ),
                ),
            ),
            recyclable,
        },
    }
}

impl<I> BackendBodyView<I> {
    /// Whether the connection can be used again after the body. One that a body
    /// ends with never can.
    pub open spec fn recyclable(self) -> bool {
        match self {
            BackendBodyView::Bodyless { recyclable, .. } => recyclable,
            BackendBodyView::CL { recyclable, .. } => recyclable,
            BackendBodyView::TE { recyclable, .. } => recyclable,
            BackendBodyView::Eof { .. } => false,
        }
    }

    /// Whether there is nothing more to read.
    pub open spec fn is_drained(self) -> bool {
        match self {
            BackendBodyView::Bodyless { .. } => true,
            BackendBodyView::CL { inner, .. } => inner.remaining() == 0,
            BackendBodyView::TE { inner, .. } => inner.is_drained(),
            BackendBodyView::Eof { inner } => inner.eof,
        }
    }

    /// A read of at most `max_len` bytes of the body; `None` at its end.
    pub open spec fn poll_read(self, cx: Cx, max_len: nat) -> (
        Self,
        Cx,
        Poll<BodyResult<Option<Seq<u8>>>>,
    ) {
        match self {
            BackendBodyView::Bodyless { .. } => (self, cx, Poll::Ready(Ok(None))),
            BackendBodyView::CL { inner, recyclable } => {
                let (inner, cx, p) = inner.poll_read(cx, max_len);
                (BackendBodyView::CL { inner, recyclable }, cx, p)
            },
            BackendBodyView::TE { inner, recyclable } => {
                let (inner, cx, p) = inner.poll_read(cx, max_len);
                (BackendBodyView::TE { inner, recyclable }, cx, p)
            },
            BackendBodyView::Eof { inner } => {
                let (inner, cx, p) = inner.poll_read(cx, max_len);
                (BackendBodyView::Eof { inner }, cx, p)
            },
        }
    }

    /// Reads, at most `fuel` of them, until one gives no data: `None` where
    /// that takes more. A body that ends with the connection is not read at
    /// all.
    pub open spec fn poll_drain(self, cx: Cx, fuel: nat) -> Option<
        (Self, Cx, Poll<BodyResult<()>>),
    > {
        match self {
            BackendBodyView::CL { inner, recyclable } => match inner.poll_drain(cx, fuel) {
                None => None,
                Some((inner, cx, p)) => Some((BackendBodyView::CL { inner, recyclable }, cx, p)),
            },
            BackendBodyView::TE { inner, recyclable } => match inner.poll_drain(cx, fuel) {
                None => None,
                Some((inner, cx, p)) => Some((BackendBodyView::TE { inner, recyclable }, cx, p)),
            },
            _ => Some((self, cx, Poll::Ready(Ok(())))),
        }
    }

    /// A drain of any body that says where it ends, and can come to the reader, ends
    /// behind it. Where there is no such body, nothing is done.
    pub open spec fn drains_any<E>(self, cx: Cx, t: Self, cx2: Cx, r: Poll<Result<(), E>>) -> bool {
        match (self, t) {
            (
                BackendBodyView::TE { inner: c, .. },
                BackendBodyView::TE { inner: d, .. },
            ) => drains_any_body(c, cx, d, cx2, r),
            (
                BackendBodyView::CL { inner: c, .. },
                BackendBodyView::CL { inner: d, .. },
            ) => drains_any_length(c, cx, d, cx2, r),
            (BackendBodyView::TE { .. }, _) => false,
            (BackendBodyView::CL { .. }, _) => false,
            _ => t == self && cx2 == cx && (r matches Poll::Ready(Ok(_))),
        }
    }

    /// Whether the connection can be given back, or let go.
    pub open spec fn is_finished(self) -> bool {
        match self {
            BackendBodyView::CL { inner, .. } => inner.remaining() == 0,
            BackendBodyView::TE { inner, .. } => inner.0 is Some && inner.is_drained(),
            _ => true,
        }
    }

    /// The connection after the body.
    pub open spec fn after(self) -> (Buffered<I>, nat) {
        match self {
            BackendBodyView::Bodyless { inner, .. } => (inner.reader, inner.slots),
            BackendBodyView::CL { inner, .. } => (inner.reader, inner.slots),
            BackendBodyView::TE { inner, .. } => (
                inner.0->Some_0->Done_0.reader,
                inner.0->Some_0->Done_0.slots,
            ),
            BackendBodyView::Eof { inner } => (inner.reader, inner.slots),
        }
    }
}

impl<I> View for BackendBodyReader<I> {
    type V = BackendBodyView<I>;

    open spec fn view(&self) -> BackendBodyView<I> {
        match *self {
            BackendBodyReader::Bodyless(r) => BackendBodyView::Bodyless {
                inner: r.inner(),
                recyclable: r.is_recyclable(),
            },
            BackendBodyReader::CL(r) => BackendBodyView::CL {
                inner: r.inner(),
                recyclable: r.is_recyclable(),
            },
            BackendBodyReader::TE(r) => BackendBodyView::TE {
                inner: r.inner(),
                recyclable: r.is_recyclable(),
            },
            BackendBodyReader::Eof(r) => BackendBodyView::Eof { inner: r.inner() },
        }
    }
}

impl<I> BackendBodyReader<I> {
    /// Whether the connection can be used again after the body.
    pub fn recyclable(&self) -> (r: bool)
        ensures
            r == self@.recyclable(),
    {
        match self {
            BackendBodyReader::Bodyless(r) => r.recyclable,
            BackendBodyReader::CL(r) => r.recyclable,
            BackendBodyReader::TE(r) => r.recyclable,
            // EOF-framed bodies are delimited by connection close, so the
            // backend connection is never reusable.
            BackendBodyReader::Eof(_) => false,
        }
    }

    /// Read at most `max_len` bytes of the body; `None` at its end.
    pub fn poll_read(&mut self, cx: &mut Context, max_len: usize) -> (r: Poll<
        BackendResult<Option<Bytes>>,
    >)
        ensures
            ({
                let (t, cx2, p) = old(self)@.poll_read(old(cx)@, max_len as nat);
                final(self)@ == t && final(cx)@ == cx2 && backend_data(r) == read_result(p)
            }),
            old(self)@ matches BackendBodyView::TE { inner, .. } ==> reads_any_body_back(
                inner,
                old(cx)@,
                max_len as nat,
            ) && refuses_any_aborted_body(inner, old(cx)@, max_len as nat),
    {
        match self {
            BackendBodyReader::Bodyless(_) => Poll::Ready(Ok(None)),
            BackendBodyReader::CL(r) => r.poll_read(cx, max_len),
            BackendBodyReader::TE(r) => r.poll_read(cx, max_len),
            BackendBodyReader::Eof(r) => r.poll_read(cx, max_len),
        }
    }

    /// Whether there is nothing more to read.
    pub fn drained(&self) -> (r: bool)
        ensures
            r == self@.is_drained(),
    {
        match self {
            BackendBodyReader::Bodyless(_) => true,
            BackendBodyReader::CL(r) => r.inner.drained(),
            BackendBodyReader::TE(r) => r.inner.drained(),
            BackendBodyReader::Eof(r) => r.inner.drained(),
        }
    }

    /// Read the body to its end, and drop it. A body that ends with the
    /// connection is not read at all.
    pub fn poll_drain(&mut self, cx: &mut Context) -> (r: Poll<BackendResult<()>>)
        ensures
            exists|n: nat|
                (#[trigger] old(self)@.poll_drain(old(cx)@, n)) matches Some((t, cx2, p)) && t
                    == final(self)@ && cx2 == final(cx)@ && r == read_result(p),
            (r matches Poll::Ready(Ok(()))) ==> final(self)@.is_finished(),
            old(self)@.drains_any(old(cx)@, final(self)@, final(cx)@, r),
    {
        let ghost cx0 = cx@;
        match self {
            BackendBodyReader::CL(r) => {
                let ghost before = r.inner();
                let p = r.inner.poll_drain(cx);
                proof {
                    let n = choose|n: nat| #[trigger]
                        before.poll_drain(cx0, n) == Some((r.inner(), cx@, p));
                    assert(old(self)@.poll_drain(cx0, n) is Some);
                }
                map_read(p)
            },
            BackendBodyReader::TE(r) => {
                let ghost before = r.inner();
                let p = r.inner.poll_drain(cx);
                proof {
                    let n = choose|n: nat| #[trigger]
                        before.poll_drain(cx0, n) == Some((r.inner(), cx@, p));
                    assert(old(self)@.poll_drain(cx0, n) is Some);
                }
                map_read(p)
            },
            _ => {
                let p: Poll<BodyResult<()>> = Poll::Ready(Ok(()));
                assert(old(self)@.poll_drain(cx0, 0) == Some((old(self)@, cx0, p)));
                map_read(p)
            },
        }
    }

    /// The next [`BackendReader`], where the connection can be used again,
    /// discarding any trailers. The body has to have been drained, without an
    /// error.
    pub fn finish(self) -> (r: Option<BackendReader<I>>)
        requires
            self@.is_finished(),
        ensures
            recycled(r, self@.after().0, self@.after().1, self@.recyclable()),
    {
        match self {
            BackendBodyReader::Bodyless(r) => match r.drain() {
                Ok(next) => next,
                Err(_) => None,
            },
            BackendBodyReader::CL(r) => r.finish(),
            BackendBodyReader::TE(r) => {
                let (reader, _trailers) = r.finish();
                reader
            },
            BackendBodyReader::Eof(r) => {
                let _parse_slots = r.drain();
                None
            },
        }
    }
}

/// No response with a 1xx or 204 code that states a framing is accepted; the
/// responses that are accepted with such a code, or with 304, have no body to
/// read, and neither has any response where the request does not allow one.
pub proof fn bodyless_codes_have_no_body(res: ResponseView, allow_body: bool)
    ensures
        (is_informational_code(res.code) || res.code == 204) && framing_of(res.headers) != Ok::<
            _,
            crate::http_message::header::HeaderErrorView,
        >(ParsedFraming::NoFraming) ==> response_plan(res, allow_body) is Err,
        !allow_body || !may_have_body(res.code) ==> (response_plan(res, allow_body) matches Ok(
            ResponsePlan::Final { body, .. },
        ) ==> body == ResponseBody::Bodyless),
{
}

/// The body of an accepted final response is read as its framing says, whatever its code:
/// by its length, by the chunked coding, or, where nothing frames it, to the end of the
/// connection. Only a response that may not have a body has none: one with the code 204 or
/// 304, and any where the request does not allow a body. The connection can be used again
/// exactly where the head says that it persists and the body does not end with it; and the
/// body is read from where the head ended.
pub proof fn bodies_are_read_as_framed<I>(
    reader: BackendReader<I>,
    res: Response,
    allow_body: bool,
    max_head_length: usize,
    max_chunk_header_length: usize,
    r: BackendResult<ResponseStream<I>>,
)
    requires
        call_ensures(
            BackendReader::<I>::into_response,
            (reader, res, allow_body, max_head_length, max_chunk_header_length),
            r,
        ),
    ensures
        match r {
            Ok(ResponseStream::Response(q)) => {
                &&& q.response() == res@
                &&& !(100 <= res@.code <= 199)
                &&& persistent(res@.headers, res@.version) matches Ok(persists)
                    && q.body().recyclable() == (persists && !(q.body() is Eof))
                &&& framing_of(res@.headers) matches Ok(framing) && (if allow_body && res@.code
                    != 204 && res@.code != 304 {
                    match (framing, q.body()) {
                        (ParsedFraming::Length(n), BackendBodyView::CL { inner, .. }) => {
                            &&& inner.length == n
                            &&& inner.offset == 0
                            &&& inner.reader == reader@.reader
                            &&& inner.slots == reader@.slots
                        },
                        (ParsedFraming::Chunked, BackendBodyView::TE { inner, .. }) => {
                            inner.0 matches Some(ChunkStreamView::BetweenChunk(head)) && head.reader
                                == reader@.reader && head.slots == reader@.slots && head.state
                                is ReadingSize && !head.strict
                        },
                        (ParsedFraming::NoFraming, BackendBodyView::Eof { inner }) => {
                            inner.reader == reader@.reader && inner.slots == reader@.slots
                                && !inner.eof
                        },
                        _ => false,
                    }
                } else {
                    q.body() matches BackendBodyView::Bodyless { inner, .. } && inner.reader
                        == reader@.reader && inner.slots == reader@.slots
                })
            },
            Ok(ResponseStream::Informational(head, next)) => {
                &&& head@ == res@
                &&& 100 <= res@.code <= 199 && res@.code != 101 && res@.code != 102
                &&& next@.reader == reader@
                &&& next@.allow_body == allow_body
                &&& next@.max_head_length == max_head_length
                &&& next@.max_chunk_header_length == max_chunk_header_length
            },
            Err(e) => response_plan(res@, allow_body) == Err::<ResponsePlan, _>(e@),
        },
{
}

/// A response head is refused for these reasons, and no others, the first that holds being
/// told: its fields do not frame it; it is one of a code 204 or 1xx that has a framing; it
/// is one of the earlier version with a field for the transfer coding; it has the code 101
/// or 102; it is final, and its connection options are no tokens.
pub proof fn responses_are_refused_for_these_reasons(res: ResponseView, allow_body: bool)
    ensures
        ({
            let framed = framing_of(res.headers) is Ok && framing_of(res.headers)->Ok_0
                != ParsedFraming::NoFraming;
            let coded = exists|i: int|
                0 <= i < res.headers.len() && crate::text::same_ignoring_case(
                    ascii("transfer-encoding"),
                    (#[trigger] res.headers[i]).0,
                );
            let informational = 100 <= res.code <= 199;
            match response_plan(res, allow_body) {
                Err(BackendErrorView::HeaderError(e)) => framing_of(res.headers) == Err::<
                    ParsedFraming,
                    _,
                >(e),
                Err(BackendErrorView::FramingHeadersOn204NoContentResponse) => res.code == 204
                    && framed,
                Err(BackendErrorView::FramingHeadersOnInformationalResponse) => informational
                    && framed,
                Err(BackendErrorView::TransferEncodingOnHttp10Server) => {
                    &&& framing_of(res.headers) is Ok
                    &&& !((informational || res.code == 204) && framed)
                    &&& res.version == HttpVersion::Http10
                    &&& coded
                },
                Err(BackendErrorView::HttpSwitchingProtocolsUnsupported) => res.code == 101
                    && framing_of(res.headers) is Ok && !framed,
                Err(BackendErrorView::HttpProcessingUnsupported) => res.code == 102 && framing_of(
                    res.headers,
                ) is Ok && !framed,
                Err(BackendErrorView::InvalidConnectionHeader(e)) => !informational && persistent(
                    res.headers,
                    res.version,
                ) == Err::<bool, _>(e) && framing_of(res.headers) is Ok,
                Err(_) => false,
                Ok(plan) => {
                    &&& framing_of(res.headers) is Ok
                    &&& !((informational || res.code == 204) && framed)
                    &&& !(res.version == HttpVersion::Http10 && coded)
                    &&& res.code != 101 && res.code != 102
                    &&& (plan is Informational) == informational
                    &&& !informational ==> persistent(res.headers, res.version) is Ok
                },
            }
        }),
{
    crate::http_message::header::first_of_the_name_is_found(
        res.headers,
        ascii("transfer-encoding"),
    );
    if let Some(i) = find_field(res.headers, ascii("transfer-encoding")) {
        assert(crate::text::same_ignoring_case(
            ascii("transfer-encoding"),
            res.headers[i as int].0,
        ));
    }
}

/// Whether a request allows a body decides only whether there is one to read: a response is
/// accepted with it exactly where it is without, and the connection can be used again alike.
pub proof fn allowing_a_body_decides_only_the_body(res: ResponseView)
    ensures
        match (response_plan(res, true), response_plan(res, false)) {
            (Err(e), Err(f)) => e == f,
            (Ok(ResponsePlan::Informational), Ok(ResponsePlan::Informational)) => true,
            (
                Ok(ResponsePlan::Final { recyclable: a, .. }),
                Ok(ResponsePlan::Final { recyclable: b, body }),
            ) => a == b && body == ResponseBody::Bodyless,
            _ => false,
        },
{
}

/// What a read of a head comes to where the head is not complete: it is refused where it has
/// reached the limit, with both lengths; it waits for the transport where nothing came; where
/// the transport failed, it fails with that; and where the stream ended, it tells whether
/// any byte had come. No byte is lost, and nothing is put on the wire.
pub proof fn incomplete_heads_are_waited_for<I>(
    s: BackendReaderView<I>,
    cx: Cx,
    max_head_length: usize,
)
    requires
        response_of(httparse_response(s.reader.buf, s.slots)) == Ok::<
            Option<(ResponseView, nat)>,
            crate::http_message::message::MessageErrorView,
        >(None),
        s.reader.buf.len() <= usize::MAX,
    ensures
        ({
            let (t, cx2, p) = s.poll_head(cx, max_head_length);
            let len = s.reader.buf.len();
            &&& len >= max_head_length ==> t == s && cx2 == cx && (p matches Poll::Ready(
                Err(BackendErrorView::MaxHeadLenExceeded(a, b)),
            ) && a == len && b == max_head_length)
            &&& len < max_head_length ==> (match cx.read {
                None => {
                    &&& p is Pending
                    &&& t.reader.buf == s.reader.buf
                    &&& cx2.wants == crate::transport::WantsView::Read(
                        (max_head_length - len) as nat,
                    )
                },
                Some(Err(e)) => p matches Poll::Ready(Err(BackendErrorView::ReadError(f))) && f
                    == e,
                Some(Ok(data)) => if data.len() > 0 {
                    let more = BackendReaderView {
                        reader: Buffered { buf: s.reader.buf + data, ..s.reader },
                        ..s
                    };
                    (t, cx2, p) == more.poll_head(Cx { read: None, ..cx }, max_head_length)
                } else if len == 0 {
                    p matches Poll::Ready(Err(BackendErrorView::FirstReadEOF))
                } else {
                    p matches Poll::Ready(Err(BackendErrorView::UnexpectedEOF))
                },
            })
        }),
{
    reveal_with_fuel(BackendReaderView::poll_head, 2);
}

/// A head that is complete is taken off the front, without a look at the transport, however
/// long it is; and one that is wrong is refused with all that came left as it is.
pub proof fn complete_heads_are_taken_at_once<I>(
    s: BackendReaderView<I>,
    cx: Cx,
    max_head_length: usize,
)
    ensures
        ({
            let (t, cx2, p) = s.poll_head(cx, max_head_length);
            match response_of(httparse_response(s.reader.buf, s.slots)) {
                Ok(Some((res, head_len))) => {
                    &&& p matches Poll::Ready(Ok(m)) && m == res
                    &&& cx2 == cx
                    &&& t.slots == s.slots
                    &&& t.reader.io == s.reader.io
                    &&& t.reader.buf == s.reader.buf.skip(head_len as int)
                },
                Err(e) => {
                    &&& p matches Poll::Ready(Err(BackendErrorView::HttpResponseParseError(f)))
                        && f == e
                    &&& cx2 == cx
                    &&& t == s
                },
                Ok(None) => true,
            }
        }),
{
}

/// A body is read by its own kind, and stays of that kind; reading never changes whether the
/// connection can be used again, and one that a body ends with never can be.
pub proof fn reads_keep_the_kind<I>(b: BackendBodyView<I>, cx: Cx, max_len: nat)
    ensures
        ({
            let (t, cx2, p) = b.poll_read(cx, max_len);
            &&& t.recyclable() == b.recyclable()
            &&& match (b, t) {
                (BackendBodyView::Bodyless { .. }, _) => t == b && cx2 == cx && (
                p matches Poll::Ready(Ok(None))),
                (BackendBodyView::CL { inner: c, .. }, BackendBodyView::CL { inner: d, .. }) => (
                    d,
                    cx2,
                    p,
                ) == c.poll_read(cx, max_len),
                (BackendBodyView::TE { inner: c, .. }, BackendBodyView::TE { inner: d, .. }) => (
                    d,
                    cx2,
                    p,
                ) == c.poll_read(cx, max_len),
                (BackendBodyView::Eof { inner: c }, BackendBodyView::Eof { inner: d }) => (
                    d,
                    cx2,
                    p,
                ) == c.poll_read(cx, max_len) && !b.recyclable(),
                _ => false,
            }
        }),
{
}

/// A plain response head, of either version, that has come or is still to come is read back
/// as it was written; the code is the one in its status line. Just the head is consumed.
pub proof fn plain_heads_are_read_back<I>(
    reader: &mut BackendReader<I>,
    cx: &mut Context,
    max_head_length: usize,
    r: Poll<BackendResult<Response>>,
    version: HttpVersion,
    code: u16,
    reason: Seq<u8>,
    fields: Seq<Field>,
    coming: Seq<u8>,
    rest: Seq<u8>,
)
    requires
        call_ensures(BackendReader::<I>::poll_head, (reader, cx, max_head_length), r),
        is_plain_response(code, reason, fields),
        fields.len() <= old(reader)@.slots,
        versioned_response_text(version, code, reason, fields).len() <= max_head_length,
        unread(old(reader)@.reader, old(cx)@) + coming == versioned_response_text(
            version,
            code,
            reason,
            fields,
        ) + rest,
    ensures
        match r {
            Poll::Ready(Ok(m)) => {
                &&& m@.version == version
                &&& m@.code == code
                &&& m@.reason == reason
                &&& m@.headers == fields
                &&& unread(final(reader)@.reader, final(cx)@) + coming == rest
            },
            Poll::Pending => coming.len() > 0 && unread(final(reader)@.reader, final(cx)@)
                == unread(old(reader)@.reader, old(cx)@),
            Poll::Ready(Err(_)) => coming.len() > 0 && read_failed(old(cx)@),
        },
{
    assert(response_comes(
        unread(old(reader)@.reader, old(cx)@),
        coming,
        version,
        code,
        reason,
        fields,
        rest,
    ));
}

/// A read of a response is a read of its head, and then what becomes of that head, with the
/// same limits and the same word on whether a body is allowed; so is the read of the response
/// that follows an informational one.
pub proof fn reads_go_on_as_they_were_started<I>(
    reader: BackendReader<I>,
    cx: &mut Context,
    allow_body: bool,
    max_head_length: usize,
    max_chunk_header_length: usize,
    r: Reading<I>,
    stream: BackendStreamReader<I>,
    later: &mut Context,
    s: StreamReading<I>,
)
    requires
        call_ensures(
            BackendReader::<I>::read,
            (reader, cx, allow_body, max_head_length, max_chunk_header_length),
            r,
        ),
        call_ensures(BackendStreamReader::<I>::read, (stream, later), s),
    ensures
        ({
            let (next, cx2, p) = reader@.poll_head(old(cx)@, max_head_length);
            &&& final(cx)@ == cx2
            &&& match (r, p) {
                (Reading::Pending(back), Poll::Pending) => back@ == next,
                (Reading::Ready(Err(e)), Poll::Ready(Err(f))) => e@ == f,
                (Reading::Ready(out), Poll::Ready(Ok(res))) => stream_matches(
                    out,
                    next,
                    res,
                    response_plan(res, allow_body),
                    allow_body,
                    max_head_length,
                    max_chunk_header_length,
                ),
                _ => false,
            }
        }),
        ({
            let (next, cx2, p) = stream@.reader.poll_head(old(later)@, stream@.max_head_length);
            &&& final(later)@ == cx2
            &&& match (s, p) {
                (StreamReading::Pending(back), Poll::Pending) => {
                    &&& back@.reader == next
                    &&& back@.allow_body == stream@.allow_body
                    &&& back@.max_head_length == stream@.max_head_length
                    &&& back@.max_chunk_header_length == stream@.max_chunk_header_length
                },
                (StreamReading::Ready(Err(e)), Poll::Ready(Err(f))) => e@ == f,
                (StreamReading::Ready(out), Poll::Ready(Ok(res))) => stream_matches(
                    out,
                    next,
                    res,
                    response_plan(res, stream@.allow_body),
                    stream@.allow_body,
                    stream@.max_head_length,
                    stream@.max_chunk_header_length,
                ),
                _ => false,
            }
        }),
{
}

/// After a body, the connection comes back exactly where it can be used again, as the body
/// left it.
pub proof fn connections_come_back_where_they_persist<I>(
    b: BackendBodyReader<I>,
    r: Option<BackendReader<I>>,
)
    requires
        call_ensures(BackendBodyReader::<I>::finish, (b,), r),
    ensures
        r is Some <==> b@.recyclable(),
        b@ is Eof ==> r is None,
        r matches Some(next) ==> next@.reader == b@.after().0 && next@.slots == b@.after().1,
        b@ matches BackendBodyView::CL { inner, .. } ==> b@.after() == (inner.reader, inner.slots),
        b@ matches BackendBodyView::Bodyless { inner, .. } ==> b@.after() == (
            inner.reader,
            inner.slots,
        ),
        b@ matches BackendBodyView::TE { inner, .. } ==> (inner.0 matches Some(
            ChunkStreamView::Done(last),
        ) ==> b@.after() == (last.reader, last.slots)),
{
}

/// A read of the body of a response comes to what the body gives; its failures are told as
/// failures to read a body.
pub proof fn reads_tell_the_errors_of_the_body<I>(
    b: &mut BackendBodyReader<I>,
    cx: &mut Context,
    max_len: usize,
    r: Poll<BackendResult<Option<Bytes>>>,
)
    requires
        call_ensures(BackendBodyReader::<I>::poll_read, (b, cx, max_len), r),
    ensures
        ({
            let (t, cx2, p) = old(b)@.poll_read(old(cx)@, max_len as nat);
            &&& final(b)@ == t
            &&& final(cx)@ == cx2
            &&& match (p, r) {
                (Poll::Pending, Poll::Pending) => true,
                (Poll::Ready(Ok(None)), Poll::Ready(Ok(None))) => true,
                (Poll::Ready(Ok(Some(d))), Poll::Ready(Ok(Some(e)))) => octets(e) == d,
                (
                    Poll::Ready(Err(e)),
                    Poll::Ready(Err(BackendError::BodyReadError(f))),
                ) => f == e,
                _ => false,
            }
        }),
{
}

/// A drain does nothing where there is no body, or where the body ends with the connection;
/// any other body is drained as one of its kind is, and keeps its kind. Whether the connection
/// can be used again never changes.
pub proof fn drains_go_by_kind<I>(
    b: &mut BackendBodyReader<I>,
    cx: &mut Context,
    r: Poll<BackendResult<()>>,
)
    requires
        call_ensures(BackendBodyReader::<I>::poll_drain, (b, cx), r),
    ensures
        final(b)@.recyclable() == old(b)@.recyclable(),
        match (old(b)@, final(b)@) {
            (BackendBodyView::Bodyless { .. }, _) => final(b)@ == old(b)@ && final(cx)@
                == old(cx)@ && r is Ready && r->Ready_0 is Ok,
            (BackendBodyView::Eof { .. }, _) => final(b)@ == old(b)@ && final(cx)@ == old(cx)@
                && r is Ready && r->Ready_0 is Ok,
            (BackendBodyView::CL { inner, .. }, BackendBodyView::CL { inner: left, .. }) => {
                r is Ready && r->Ready_0 is Ok ==> left.remaining() == 0
            },
            (BackendBodyView::TE { inner, .. }, BackendBodyView::TE { inner: left, .. }) => {
                r is Ready && r->Ready_0 is Ok ==> left.0 is Some && left.is_drained()
            },
            _ => false,
        },
{
}

/// A reader of a response tells that it is drained exactly where there is nothing more to read
/// of its body; and whether the connection can be used again is what was told of it when the
/// body was started, and never after a body that ends with the connection.
pub proof fn readers_tell_their_end<I>(b: &BackendBodyReader<I>, drained: bool, recyclable: bool)
    requires
        call_ensures(BackendBodyReader::<I>::drained, (b,), drained),
        call_ensures(BackendBodyReader::<I>::recyclable, (b,), recyclable),
    ensures
        match b@ {
            BackendBodyView::Bodyless { recyclable: told, .. } => drained && recyclable == told,
            BackendBodyView::CL { inner, recyclable: told } => drained == (inner.offset
                >= inner.length) && recyclable == told,
            BackendBodyView::TE { inner, recyclable: told } => drained == (inner.0 is None
                || inner.0->Some_0 is Done) && recyclable == told,
            BackendBodyView::Eof { inner } => drained == inner.eof && !recyclable,
        },
{
}

} // verus!
