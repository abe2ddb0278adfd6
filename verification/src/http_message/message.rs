//! Requests and responses: parsing, access and building.
use bytes::{Bytes, BytesMut};
use vstd::prelude::*;
use vstd::string::*;
use vstd::utf8::encode_utf8;

use crate::http_message::framing::ParsedFraming;
use crate::http_message::header::{framing_of, partitioned, Field, HeaderError, Headers};
use crate::http_message::raw;
use crate::http_message::raw::{
    httparse_headers, httparse_request, httparse_response, parsed_view, raw_fields, HttpParseError,
    RawRequest, RawRequestView, RawResponse, RawResponseView,
};
use crate::http_message::version::HttpVersion;
use crate::io_buffer::BytesReader;
use crate::octets::{octets, octets_mut};
use crate::parse::{
    all_tchars, is_all_tchars, is_field_byte, is_field_name, is_field_value, is_origin_form,
    is_request_target, is_tchar, is_valid_field_name, is_valid_field_value,
    is_valid_request_target, is_vchar, validate_origin_form, OriginFormError,
};
use crate::text::{from_utf8_lossy, lossy_text, CR, LF};

verus! {

/// Errors produced while parsing HTTP messages.
#[derive(Debug)]
pub enum MessageError {
    /// The message is malformed.
    Parse(HttpParseError),
    /// The minor version is not supported.
    HttpVersion(u8),
    /// The message cannot be built.
    BuildError(BuildError),
}

/// A [`Result`] with [`MessageError`] as the error type.
pub type MessageResult<T> = Result<T, MessageError>;

/// The model of a [`MessageError`].
pub enum MessageErrorView {
    Parse(HttpParseError),
    HttpVersion(u8),
    BuildError(BuildErrorView),
}

impl View for MessageError {
    type V = MessageErrorView;

    open spec fn view(&self) -> MessageErrorView {
        match *self {
            MessageError::Parse(e) => MessageErrorView::Parse(e),
            MessageError::HttpVersion(v) => MessageErrorView::HttpVersion(v),
            MessageError::BuildError(e) => MessageErrorView::BuildError(e@),
        }
    }
}

/// Errors produced while building a HTTP message.
#[derive(Debug)]
pub enum BuildError {
    /// Method not specified.
    MissingMethod,
    /// Path not specified.
    MissingPath,
    /// Version not specified.
    MissingVersion,
    /// Code is not specified.
    MissingCode,
    /// Reason phrase is not specified.
    MissingResult,
    /// Method contains invalid characters (RFC 9110, 9.1).
    InvalidMethod(String),
    /// Request-target contains invalid characters (RFC 9112, 3.2).
    InvalidPath(String),
    /// Reason phrase contains invalid characters (RFC 9112, 4).
    InvalidReason(String),
    /// Header name contains invalid characters (RFC 9110, 5.1).
    InvalidFieldName(String),
    /// Header value contains invalid characters (RFC 9110, 5.5).
    InvalidFieldValue(String),
}

/// The model of a [`BuildError`].
pub enum BuildErrorView {
    MissingMethod,
    MissingPath,
    MissingVersion,
    MissingCode,
    MissingResult,
    InvalidMethod(Seq<char>),
    InvalidPath(Seq<char>),
    InvalidReason(Seq<char>),
    InvalidFieldName(Seq<char>),
    InvalidFieldValue(Seq<char>),
}

impl View for BuildError {
    type V = BuildErrorView;

    open spec fn view(&self) -> BuildErrorView {
        match *self {
            BuildError::MissingMethod => BuildErrorView::MissingMethod,
            BuildError::MissingPath => BuildErrorView::MissingPath,
            BuildError::MissingVersion => BuildErrorView::MissingVersion,
            BuildError::MissingCode => BuildErrorView::MissingCode,
            BuildError::MissingResult => BuildErrorView::MissingResult,
            BuildError::InvalidMethod(s) => BuildErrorView::InvalidMethod(s@),
            BuildError::InvalidPath(s) => BuildErrorView::InvalidPath(s@),
            BuildError::InvalidReason(s) => BuildErrorView::InvalidReason(s@),
            BuildError::InvalidFieldName(s) => BuildErrorView::InvalidFieldName(s@),
            BuildError::InvalidFieldValue(s) => BuildErrorView::InvalidFieldValue(s@),
        }
    }
}

/// The view of a result that carries an error with a view.
pub open spec fn result_view<T, E: View>(r: Result<T, E>) -> Result<T, E::V> {
    match r {
        Ok(v) => Ok(v),
        Err(e) => Err(e@),
    }
}

/// A HTTP request.
#[derive(Debug, Clone)]
pub struct Request {
    method: Bytes,
    path: Bytes,
    version: HttpVersion,
    headers: Headers,
}

/// The model of a [`Request`].
#[verifier::ext_equal]
pub struct RequestView {
    pub method: Seq<u8>,
    pub path: Seq<u8>,
    pub version: HttpVersion,
    pub headers: Seq<Field>,
}

impl View for Request {
    type V = RequestView;

    closed spec fn view(&self) -> RequestView {
        RequestView {
            method: octets(self.method),
            path: octets(self.path),
            version: self.version,
            headers: self.headers@,
        }
    }
}

/// The view of a parsed message with the length of its head.
pub open spec fn parsed_head<T: View>(r: MessageResult<Option<(T, usize)>>) -> Result<
    Option<(T::V, nat)>,
    MessageErrorView,
> {
    match r {
        Err(e) => Err(e@),
        Ok(None) => Ok(None),
        Ok(Some((m, head_len))) => Ok(Some((m@, head_len as nat))),
    }
}

/// The value in an option, or the bytes of nothing.
pub open spec fn bytes_or_none(b: Option<Seq<u8>>) -> Seq<u8> {
    match b {
        Some(b) => b,
        None => Seq::empty(),
    }
}

/// The request that a parsed head makes, with the length of the head.
pub open spec fn request_of(raw: Result<Option<RawRequestView>, HttpParseError>) -> Result<
    Option<(RequestView, nat)>,
    MessageErrorView,
> {
    match raw {
        Err(e) => Err(MessageErrorView::Parse(e)),
        Ok(None) => Ok(None),
        Ok(Some(raw)) => match HttpVersion::of_minor(raw.version.unwrap_or(0)) {
            Err(v) => Err(MessageErrorView::HttpVersion(v)),
            Ok(version) => Ok(
                Some(
                    (
                        RequestView {
                            method: bytes_or_none(raw.method),
                            path: bytes_or_none(raw.path),
                            version,
                            headers: raw.headers,
                        },
                        raw.head_len,
                    ),
                ),
            ),
        },
    }
}

/// The response that a parsed head makes, with the length of the head.
pub open spec fn response_of(raw: Result<Option<RawResponseView>, HttpParseError>) -> Result<
    Option<(ResponseView, nat)>,
    MessageErrorView,
> {
    match raw {
        Err(e) => Err(MessageErrorView::Parse(e)),
        Ok(None) => Ok(None),
        Ok(Some(raw)) => match HttpVersion::of_minor(raw.version.unwrap_or(0)) {
            Err(v) => Err(MessageErrorView::HttpVersion(v)),
            Ok(version) => Ok(
                Some(
                    (
                        ResponseView {
                            version,
                            code: raw.code.unwrap_or(0),
                            reason: bytes_or_none(raw.reason),
                            headers: raw.headers,
                        },
                        raw.head_len,
                    ),
                ),
            ),
        },
    }
}

fn bytes_of(s: Option<&[u8]>) -> (b: Bytes)
    ensures
        octets(b) == bytes_or_none(raw::raw_bytes(s)),
{
    match s {
        Some(s) => Bytes::copy_from_slice(s),
        None => {
            let b = Bytes::copy_from_slice(&[]);
            assert(octets(b) =~= Seq::empty());
            b
        },
    }
}

/// The headers that pairs of slices hold.
pub fn populate_headers(pairs: &Vec<(&[u8], &[u8])>) -> (h: Headers)
    ensures
        h@ == raw_fields(pairs@),
{
    let mut headers = Headers::with_capacity(pairs.len());
    let mut i: usize = 0;
    assert(raw_fields(pairs@).take(0) =~= Seq::empty());
    while i < pairs.len()
        invariant
            i <= pairs@.len(),
            headers@ == raw_fields(pairs@).take(i as int),
        decreases pairs@.len() - i,
    {
        let (name, value) = pairs[i];
        headers.push(Bytes::copy_from_slice(name), Bytes::copy_from_slice(value));
        assert(headers@ =~= raw_fields(pairs@).take(i + 1));
        i = i + 1;
    }
    assert(headers@ =~= raw_fields(pairs@));
    headers
}

impl Request {
    /// The byte strings that hold the header fields.
    pub closed spec fn header_pairs(&self) -> Seq<(Bytes, Bytes)> {
        self.headers.pairs()
    }

    /// Assemble a [`Request`] directly from owned parts.
    ///
    /// Does not perform validation on components.
    pub fn from_parts(method: Bytes, path: Bytes, version: HttpVersion, headers: Headers) -> (r:
        Self)
        ensures
            r@ == (RequestView {
                method: octets(method),
                path: octets(path),
                version,
                headers: headers@,
            }),
    {
        Self { method, path, version, headers }
    }

    /// The request that a parsed head makes, with the length of the head;
    /// `None` where the head was not complete.
    pub fn from_raw(parsed: Result<Option<RawRequest<'_>>, HttpParseError>) -> (r: MessageResult<
        Option<(Request, usize)>,
    >)
        ensures
            parsed_head(r) == request_of(parsed_view(parsed)),
    {
        match parsed {
            Err(e) => Err(MessageError::Parse(e)),
            Ok(None) => Ok(None),
            Ok(Some(raw)) => {
                let minor: u8 = match raw.version {
                    Some(v) => v,
                    None => 0,
                };
                match <HttpVersion as TryFrom<u8>>::try_from(minor) {
                    Err(v) => Err(MessageError::HttpVersion(v)),
                    Ok(version) => {
                        let req = Request {
                            method: bytes_of(raw.method),
                            path: bytes_of(raw.path),
                            version,
                            headers: populate_headers(&raw.headers),
                        };
                        Ok(Some((req, raw.head_len)))
                    },
                }
            },
        }
    }

    /// The method of the request.
    pub fn method(&self) -> (b: &Bytes)
        ensures
            octets(*b) == self@.method,
    {
        &self.method
    }

    /// The path of the request.
    pub fn path(&self) -> (b: &Bytes)
        ensures
            octets(*b) == self@.path,
    {
        &self.path
    }

    /// Replace the path of the request after validating `path` as origin-form
    /// per RFC 9112 section 3.2.1.
    pub fn set_origin_form_path(&mut self, path: Bytes) -> (r: Result<(), OriginFormError>)
        ensures
            r is Ok <==> is_origin_form(octets(path)),
            r == Err::<(), _>(OriginFormError::NotAbsolutePath) <==> (octets(path).len() == 0
                || octets(path)[0] != '/' as u8),
            final(self)@ == (if r is Ok {
                RequestView { path: octets(path), ..old(self)@ }
            } else {
                old(self)@
            }),
    {
        match validate_origin_form(&path) {
            Err(e) => Err(e),
            Ok(()) => {
                self.path = path;
                Ok(())
            },
        }
    }

    /// The version of the request.
    pub fn version(&self) -> (v: HttpVersion)
        ensures
            v == self@.version,
    {
        self.version
    }

    /// Headers associated with the request.
    pub fn headers(&self) -> (h: &Headers)
        ensures
            h@ == self@.headers,
            h.pairs() == self.header_pairs(),
    {
        &self.headers
    }

    /// A mutable reference to the headers associated with the request.
    pub fn headers_mut(&mut self) -> (h: &mut Headers)
        ensures
            h@ == old(self)@.headers,
            h.pairs() == old(self).header_pairs(),
            final(self)@ == (RequestView { headers: final(h)@, ..old(self)@ }),
            final(self).header_pairs() == final(h).pairs(),
    {
        &mut self.headers
    }

    /// The parsed framing from the headers.
    pub fn framing(&self) -> (r: Result<ParsedFraming, HeaderError>)
        ensures
            result_view(r) == framing_of(self@.headers),
    {
        self.headers.framing()
    }

    /// Updates self to remove headers matching the predicate. Returns the
    /// removed headers.
    pub fn remove_headers<P>(&mut self, pred: P) -> (removed: Headers) where
        P: Fn(&(Bytes, Bytes)) -> bool,

        requires
            forall|pair: (Bytes, Bytes)| call_requires(pred, (&pair,)),
        ensures
            final(self)@ == (RequestView { headers: final(self)@.headers, ..old(self)@ }),
            partitioned(
                pred,
                old(self).header_pairs(),
                removed.pairs(),
                final(self).header_pairs(),
            ),
    {
        self.headers.remove(pred)
    }
}

/// A HTTP response.
#[derive(Debug, Clone)]
pub struct Response {
    version: HttpVersion,
    code: u16,
    reason: Bytes,
    headers: Headers,
}

/// The model of a [`Response`].
#[verifier::ext_equal]
pub struct ResponseView {
    pub version: HttpVersion,
    pub code: u16,
    pub reason: Seq<u8>,
    pub headers: Seq<Field>,
}

impl View for Response {
    type V = ResponseView;

    closed spec fn view(&self) -> ResponseView {
        ResponseView {
            version: self.version,
            code: self.code,
            reason: octets(self.reason),
            headers: self.headers@,
        }
    }
}

/// A 1xx status code.
pub open spec fn is_informational_code(code: u16) -> bool {
    100 <= code < 200
}

impl Response {
    /// Assemble a [`Response`] directly from owned parts.
    ///
    /// Does not perform validation on components.
    pub fn from_parts(version: HttpVersion, code: u16, reason: Bytes, headers: Headers) -> (r: Self)
        ensures
            r@ == (ResponseView { version, code, reason: octets(reason), headers: headers@ }),
    {
        Self { version, code, reason, headers }
    }

    /// The response that a parsed head makes, with the length of the head;
    /// `None` where the head was not complete.
    pub fn from_raw(parsed: Result<Option<RawResponse<'_>>, HttpParseError>) -> (r: MessageResult<
        Option<(Response, usize)>,
    >)
        ensures
            parsed_head(r) == response_of(parsed_view(parsed)),
    {
        match parsed {
            Err(e) => Err(MessageError::Parse(e)),
            Ok(None) => Ok(None),
            Ok(Some(raw)) => {
                let minor: u8 = match raw.version {
                    Some(v) => v,
                    None => 0,
                };
                let code: u16 = match raw.code {
                    Some(c) => c,
                    None => 0,
                };
                match <HttpVersion as TryFrom<u8>>::try_from(minor) {
                    Err(v) => Err(MessageError::HttpVersion(v)),
                    Ok(version) => {
                        let res = Response {
                            version,
                            code,
                            reason: bytes_of(raw.reason),
                            headers: populate_headers(&raw.headers),
                        };
                        Ok(Some((res, raw.head_len)))
                    },
                }
            },
        }
    }

    /// The response version.
    pub fn version(&self) -> (v: HttpVersion)
        ensures
            v == self@.version,
    {
        self.version
    }

    /// The response code.
    pub fn code(&self) -> (c: u16)
        ensures
            c == self@.code,
    {
        self.code
    }

    /// The response reason.
    pub fn reason(&self) -> (b: &Bytes)
        ensures
            octets(*b) == self@.reason,
    {
        &self.reason
    }

    /// The response headers.
    pub fn headers(&self) -> (h: &Headers)
        ensures
            h@ == self@.headers,
    {
        &self.headers
    }

    /// The response headers as a mutable reference.
    pub fn headers_mut(&mut self) -> (h: &mut Headers)
        ensures
            h@ == old(self)@.headers,
            final(self)@ == (ResponseView { headers: final(h)@, ..old(self)@ }),
    {
        &mut self.headers
    }

    /// Detect the framing indicated by the response. Note: this does not take
    /// into account the response code. If the response contains framing
    /// headers, this will attempt to interpret them.
    pub fn framing(&self) -> (r: Result<ParsedFraming, HeaderError>)
        ensures
            result_view(r) == framing_of(self@.headers),
    {
        self.headers.framing()
    }

    /// Returns `Some(1xx)` when the response is an informational response.
    pub fn is_informational(&self) -> (r: Option<u16>)
        ensures
            r == (if is_informational_code(self@.code) {
                Some(self@.code)
            } else {
                None
            }),
    {
        if self.code >= 100 && self.code < 200 {
            Some(self.code)
        } else {
            None
        }
    }
}

/// How many headers a message may have.
#[derive(Debug)]
pub struct ParseSlots {
    slot_count: usize,
}

impl View for ParseSlots {
    type V = nat;

    closed spec fn view(&self) -> nat {
        self.slot_count as nat
    }
}

impl Default for ParseSlots {
    fn default() -> (s: Self)
        ensures
            s@ == 16,
    {
        Self::new(16)
    }
}

impl ParseSlots {
    #[verifier::type_invariant]
    spec fn inv(self) -> bool {
        self.slot_count * 32 <= isize::MAX
    }

    /// Create a new [`ParseSlots`] with space to parse up to `slot_count`
    /// headers. This slot count is a maximum. There has to be memory for that
    /// many slots.
    pub fn new(slot_count: usize) -> (s: Self)
        requires
            slot_count * 32 <= isize::MAX,
        ensures
            s@ == slot_count,
    {
        Self { slot_count }
    }

    /// Parse a request off the front of the unread bytes. `None` where the
    /// head is not complete; the bytes then stay unread. A head with more headers
    /// than there are slots is refused.
    pub fn parse_request<I>(&mut self, buf: &mut BytesReader<I>) -> (r: MessageResult<
        Option<Request>,
    >)
        ensures
            final(self)@ == old(self)@,
            match (r, request_of(httparse_request(old(buf)@.buf, old(self)@))) {
                (Err(e), Err(f)) => e@ == f && final(buf)@ == old(buf)@,
                (Ok(None), Ok(None)) => final(buf)@ == old(buf)@,
                (Ok(Some(m)), Ok(Some((v, head_len)))) => m@ == v && head_len
                    <= old(buf)@.buf.len() && final(buf)@ == old(buf)@.skip(head_len as int),
                _ => false,
            },
            forall|room: nat|
                (#[trigger] httparse_request(old(buf)@.buf, room)) matches Ok(Some(raw)) ==> if raw.headers.len()
                    <= old(self)@ {
                    httparse_request(old(buf)@.buf, old(self)@) == httparse_request(old(buf)@.buf, room)
                } else {
                    r matches Err(MessageError::Parse(HttpParseError::TooManyHeaders))
                },
            forall|version: HttpVersion, method: Seq<u8>, path: Seq<u8>, fields: Seq<Field>, rest: Seq<u8>|
                old(buf)@.buf == #[trigger] (raw::versioned_request_text(version, method, path, fields) + rest)
                    && raw::is_plain_request(method, path, fields) && fields.len() <= old(self)@ ==> (
                r matches Ok(Some(m)) && m@ == (RequestView {
                    method,
                    path,
                    version,
                    headers: fields,
                }) && final(buf)@.buf == rest),
            forall|version: HttpVersion, method: Seq<u8>, path: Seq<u8>, fields: Seq<Field>, rest: Seq<u8>|
                old(buf)@.buf == #[trigger] (raw::versioned_request_text(version, method, path, fields) + rest)
                    && raw::is_plain_request(method, path, fields) && fields.len() > old(self)@ ==> (
                r matches Err(MessageError::Parse(HttpParseError::TooManyHeaders))),
            forall|version: HttpVersion, method: Seq<u8>, path: Seq<u8>, fields: Seq<Field>|
                old(buf)@.buf.len() < (#[trigger] raw::versioned_request_text(version, method, path, fields)).len()
                    && old(buf)@.buf == raw::versioned_request_text(version, method, path, fields).take(
                    old(buf)@.buf.len() as int,
                ) && raw::is_plain_request(method, path, fields) && fields.len() <= old(self)@ ==> (
                r matches Ok(None)),
    {
        proof {
            use_type_invariant(&*self);
        }
        let parsed = raw::parse_request(buf.as_bytes(), self.slot_count);
        match Request::from_raw(parsed) {
            Err(e) => Err(e),
            Ok(None) => Ok(None),
            Ok(Some((req, head_len))) => {
                let _head = buf.split_to(head_len);
                Ok(Some(req))
            },
        }
    }

    /// Parse a response off the front of the unread bytes. `None` where the
    /// head is not complete; the bytes then stay unread. A head with more headers
    /// than there are slots is refused.
    pub fn parse_response<I>(&mut self, buf: &mut BytesReader<I>) -> (r: MessageResult<
        Option<Response>,
    >)
        ensures
            final(self)@ == old(self)@,
            match (r, response_of(httparse_response(old(buf)@.buf, old(self)@))) {
                (Err(e), Err(f)) => e@ == f && final(buf)@ == old(buf)@,
                (Ok(None), Ok(None)) => final(buf)@ == old(buf)@,
                (Ok(Some(m)), Ok(Some((v, head_len)))) => m@ == v && head_len
                    <= old(buf)@.buf.len() && final(buf)@ == old(buf)@.skip(head_len as int),
                _ => false,
            },
            forall|room: nat|
                (#[trigger] httparse_response(old(buf)@.buf, room)) matches Ok(Some(raw)) ==> if raw.headers.len()
                    <= old(self)@ {
                    httparse_response(old(buf)@.buf, old(self)@) == httparse_response(old(buf)@.buf, room)
                } else {
                    r matches Err(MessageError::Parse(HttpParseError::TooManyHeaders))
                },
            forall|version: HttpVersion, code: u16, reason: Seq<u8>, fields: Seq<Field>, rest: Seq<u8>|
                old(buf)@.buf == #[trigger] (raw::versioned_response_text(version, code, reason, fields) + rest)
                    && raw::is_plain_response(code, reason, fields) && fields.len() <= old(self)@ ==> (
                r matches Ok(Some(m)) && m@ == (ResponseView {
                    version,
                    code,
                    reason,
                    headers: fields,
                }) && final(buf)@.buf == rest),
            forall|version: HttpVersion, code: u16, reason: Seq<u8>, fields: Seq<Field>, rest: Seq<u8>|
                old(buf)@.buf == #[trigger] (raw::versioned_response_text(version, code, reason, fields) + rest)
                    && raw::is_plain_response(code, reason, fields) && fields.len() > old(self)@ ==> (
                r matches Err(MessageError::Parse(HttpParseError::TooManyHeaders))),
            forall|version: HttpVersion, code: u16, reason: Seq<u8>, fields: Seq<Field>|
                old(buf)@.buf.len() < (#[trigger] raw::versioned_response_text(version, code, reason, fields)).len()
                    && old(buf)@.buf == raw::versioned_response_text(version, code, reason, fields).take(
                    old(buf)@.buf.len() as int,
                ) && raw::is_plain_response(code, reason, fields) && fields.len() <= old(self)@ ==> (
                r matches Ok(None)),
    {
        proof {
            use_type_invariant(&*self);
        }
        let parsed = raw::parse_response(buf.as_bytes(), self.slot_count);
        match Response::from_raw(parsed) {
            Err(e) => Err(e),
            Ok(None) => Ok(None),
            Ok(Some((res, head_len))) => {
                let _head = buf.split_to(head_len);
                Ok(Some(res))
            },
        }
    }

    /// Parse headers off the front of the unread bytes, up to and with an
    /// empty line. `None` where there is none; the bytes then stay unread.
    pub fn parse_headers<I>(&mut self, buf: &mut BytesReader<I>) -> (r: MessageResult<
        Option<Headers>,
    >)
        ensures
            final(self)@ == old(self)@,
            match (r, httparse_headers(old(buf)@.buf, old(self)@)) {
                (Err(e), Err(f)) => e@ == MessageErrorView::Parse(f) && final(buf)@ == old(buf)@,
                (Ok(None), Ok(None)) => final(buf)@ == old(buf)@,
                (Ok(Some(h)), Ok(Some(raw))) => h@ == raw.headers && raw.block_len
                    <= old(buf)@.buf.len() && final(buf)@ == old(buf)@.skip(raw.block_len as int),
                _ => false,
            },
            forall|fields: Seq<Field>, rest: Seq<u8>|
                old(buf)@.buf == #[trigger] (raw::field_lines(fields) + crate::text::crlf() + rest)
                    && fields.len() <= old(self)@ && raw::are_plain_fields(fields) ==> (
                r matches Ok(Some(h)) && h@ == fields && final(buf)@.buf == rest),
            forall|fields: Seq<Field>, rest: Seq<u8>|
                old(buf)@.buf == #[trigger] (raw::field_lines(fields) + crate::text::crlf() + rest)
                    && fields.len() > old(self)@ && raw::are_plain_fields(fields) ==> (
                r matches Err(MessageError::Parse(HttpParseError::TooManyHeaders))),
            forall|fields: Seq<Field>|
                old(buf)@.buf.len() < (#[trigger] raw::field_lines(fields) + crate::text::crlf()).len()
                    && old(buf)@.buf == (raw::field_lines(fields) + crate::text::crlf()).take(
                    old(buf)@.buf.len() as int,
                ) && fields.len() <= old(self)@ && raw::are_plain_fields(fields) ==> (
                r matches Ok(None)),
    {
        proof {
            use_type_invariant(&*self);
        }
        let parsed = raw::parse_headers(buf.as_bytes(), self.slot_count);
        match parsed {
            Err(e) => Err(MessageError::Parse(e)),
            Ok(None) => Ok(None),
            Ok(Some(raw)) => {
                let headers = populate_headers(&raw.headers);
                let block_len: usize = raw.block_len;
                let _block = buf.split_to(block_len);
                proof {
                    assert forall|fields: Seq<Field>, rest: Seq<u8>|
                        old(buf)@.buf == #[trigger] (raw::field_lines(fields) + crate::text::crlf()
                            + rest) && fields.len() <= old(self)@ && raw::are_plain_fields(fields)
                            implies headers@ == fields && buf@.buf == rest by {
                        assert(buf@.buf =~= rest);
                    }
                }
                Ok(Some(headers))
            },
        }
    }
}

/// What a builder holds of a header: a name and a value.
pub type BuiltHeader = (Seq<char>, Seq<u8>);

/// The first thing that is wrong with builder-supplied headers, if any.
pub open spec fn check_built(headers: Seq<BuiltHeader>) -> Result<(), BuildErrorView>
    decreases headers.len(),
{
    if headers.len() == 0 {
        Ok(())
    } else {
        let (name, value) = headers[0];
        if !is_field_name(encode_utf8(name)) {
            Err(BuildErrorView::InvalidFieldName(name))
        } else if !is_field_value(value) {
            Err(BuildErrorView::InvalidFieldValue(lossy_text(value)))
        } else {
            check_built(headers.skip(1))
        }
    }
}

/// The fields that builder-supplied headers make.
pub open spec fn built_fields(headers: Seq<BuiltHeader>) -> Seq<Field> {
    headers.map_values(|h: BuiltHeader| (encode_utf8(h.0), h.1))
}

/// The headers that pairs of a name and a value hold.
pub open spec fn built_headers(pairs: Seq<(&str, &[u8])>) -> Seq<BuiltHeader> {
    pairs.map_values(|pair: (&str, &[u8])| (pair.0@, pair.1@))
}

/// The characters of an optional string.
pub open spec fn text_of(s: Option<&str>) -> Option<Seq<char>> {
    match s {
        None => None,
        Some(s) => Some(s@),
    }
}

/// Validate builder-supplied header pairs, rejecting a name or value whose
/// bytes could split the header block (RFC 9110 sections 5.1, 5.5).
fn validate_built_headers(headers: &Vec<(&str, &[u8])>) -> (r: Result<(), BuildError>)
    ensures
        result_view(r) == check_built(built_headers(headers@)),
{
    let ghost all = built_headers(headers@);
    let mut i: usize = 0;
    assert(all.skip(0) =~= all);
    while i < headers.len()
        invariant
            i <= headers@.len(),
            all == built_headers(headers@),
            check_built(all) == check_built(all.skip(i as int)),
        decreases headers@.len() - i,
    {
        let (name, value) = headers[i];
        assert(all.skip(i as int)[0] == (name@, value@));
        assert(all.skip(i as int).skip(1) =~= all.skip(i + 1));
        if !is_valid_field_name(name.as_bytes()) {
            return Err(BuildError::InvalidFieldName(name.to_owned()));
        }
        if !is_valid_field_value(value) {
            return Err(BuildError::InvalidFieldValue(from_utf8_lossy(value)));
        }
        i = i + 1;
    }
    Ok(())
}

/// Copy a piece through the buffer of a builder.
fn piece(buf: &mut BytesMut, s: &[u8]) -> (b: Bytes)
    requires
        octets_mut(*old(buf)).len() == 0,
    ensures
        octets(b) == s@,
        octets_mut(*final(buf)).len() == 0,
{
    let n: usize = s.len();
    assert(n == s@.len());
    buf.extend_from_slice(s);
    let b = buf.split().freeze();
    assert(octets(b) =~= s@);
    b
}

/// The headers that a builder was given.
fn build_headers(pairs: &Vec<(&str, &[u8])>, buf: &mut BytesMut) -> (h: Headers)
    requires
        octets_mut(*old(buf)).len() == 0,
    ensures
        h@ == built_fields(built_headers(pairs@)),
        octets_mut(*final(buf)).len() == 0,
{
    let mut headers = Headers::with_capacity(pairs.len());
    let ghost all = built_fields(built_headers(pairs@));
    let mut i: usize = 0;
    assert(all.take(0) =~= Seq::empty());
    while i < pairs.len()
        invariant
            i <= pairs@.len(),
            all == built_fields(built_headers(pairs@)),
            headers@ == all.take(i as int),
            octets_mut(*buf).len() == 0,
        decreases pairs@.len() - i,
    {
        let (name, value) = pairs[i];
        let name = piece(buf, name.as_bytes());
        let value = piece(buf, value);
        headers.push(name, value);
        assert(headers@ =~= all.take(i + 1));
        i = i + 1;
    }
    assert(all.take(i as int) =~= all);
    headers
}

/// A builder for a HTTP request.
#[derive(Debug)]
pub struct RequestBuilder<'s> {
    method: Option<&'s str>,
    path: Option<&'s str>,
    version: Option<HttpVersion>,
    headers: Vec<(&'s str, &'s [u8])>,
}

/// The model of a [`RequestBuilder`].
#[verifier::ext_equal]
pub struct RequestBuilderView {
    pub method: Option<Seq<char>>,
    pub path: Option<Seq<char>>,
    pub version: Option<HttpVersion>,
    pub headers: Seq<BuiltHeader>,
}

impl<'s> View for RequestBuilder<'s> {
    type V = RequestBuilderView;

    closed spec fn view(&self) -> RequestBuilderView {
        RequestBuilderView {
            method: text_of(self.method),
            path: text_of(self.path),
            version: self.version,
            headers: built_headers(self.headers@),
        }
    }
}

impl RequestBuilderView {
    /// What the builder builds: a request, or the first thing that is missing
    /// or wrong.
    pub open spec fn build(self) -> Result<RequestView, BuildErrorView> {
        match (self.method, self.path, self.version) {
            (None, _, _) => Err(BuildErrorView::MissingMethod),
            (_, None, _) => Err(BuildErrorView::MissingPath),
            (_, _, None) => Err(BuildErrorView::MissingVersion),
            (Some(method), Some(path), Some(version)) => if !all_tchars(encode_utf8(method)) {
                Err(BuildErrorView::InvalidMethod(method))
            } else if !is_request_target(encode_utf8(path)) {
                Err(BuildErrorView::InvalidPath(path))
            } else {
                match check_built(self.headers) {
                    Err(e) => Err(e),
                    Ok(()) => Ok(
                        RequestView {
                            method: encode_utf8(method),
                            path: encode_utf8(path),
                            version,
                            headers: built_fields(self.headers),
                        },
                    ),
                }
            },
        }
    }
}

impl<'s> Default for RequestBuilder<'s> {
    fn default() -> (b: Self)
        ensures
            b@ == (RequestBuilderView {
                method: None,
                path: None,
                version: None,
                headers: Seq::empty(),
            }),
    {
        RequestBuilder::new(0)
    }
}

impl<'s> RequestBuilder<'s> {
    /// Create a new [`RequestBuilder`] with an initial header capacity of
    /// `capacity`.
    pub fn new(capacity: usize) -> (b: Self)
        ensures
            b@ == (RequestBuilderView {
                method: None,
                path: None,
                version: None,
                headers: Seq::empty(),
            }),
    {
        let b = Self {
            method: None,
            path: None,
            version: None,
            headers: Vec::with_capacity(capacity),
        };
        assert(b@.headers =~= Seq::empty());
        b
    }

    /// Specify the request method.
    pub fn with_method(&mut self, method: &'s str) -> (b: &mut Self)
        ensures
            b@ == (RequestBuilderView { method: Some(method@), ..old(self)@ }),
            *final(self) == *final(b),
    {
        self.method = Some(method);
        self
    }

    /// Specify the request path.
    pub fn with_path(&mut self, path: &'s str) -> (b: &mut Self)
        ensures
            b@ == (RequestBuilderView { path: Some(path@), ..old(self)@ }),
            *final(self) == *final(b),
    {
        self.path = Some(path);
        self
    }

    /// Specify the request version.
    pub fn with_version(&mut self, version: HttpVersion) -> (b: &mut Self)
        ensures
            b@ == (RequestBuilderView { version: Some(version), ..old(self)@ }),
            *final(self) == *final(b),
    {
        self.version = Some(version);
        self
    }

    /// Add a request header. Does not replace any previously set header.
    pub fn with_header(&mut self, name: &'s str, value: &'s [u8]) -> (b: &mut Self)
        ensures
            b@ == (RequestBuilderView {
                headers: old(self)@.headers.push((name@, value@)),
                ..old(self)@
            }),
            *final(self) == *final(b),
    {
        self.headers.push((name, value));
        assert(self@.headers =~= old(self)@.headers.push((name@, value@)));
        self
    }

    /// Build the request after checking for request validity.
    pub fn build(&self) -> (r: Result<Request, BuildError>)
        ensures
            match (r, self@.build()) {
                (Ok(req), Ok(v)) => req@ == v,
                (Err(e), Err(f)) => e@ == f,
                _ => false,
            },
    {
        let method = match self.method {
            Some(method) => method,
            None => return Err(BuildError::MissingMethod),
        };
        let path = match self.path {
            Some(path) => path,
            None => return Err(BuildError::MissingPath),
        };
        let version = match self.version {
            Some(version) => version,
            None => return Err(BuildError::MissingVersion),
        };
        if !is_all_tchars(method.as_bytes()) {
            return Err(BuildError::InvalidMethod(method.to_owned()));
        }
        if !is_valid_request_target(path.as_bytes()) {
            return Err(BuildError::InvalidPath(path.to_owned()));
        }
        match validate_built_headers(&self.headers) {
            Err(e) => return Err(e),
            Ok(()) => {},
        }
        let mut buf = BytesMut::with_capacity(128);
        let method = piece(&mut buf, method.as_bytes());
        let path = piece(&mut buf, path.as_bytes());
        let headers = build_headers(&self.headers, &mut buf);
        Ok(Request { method, path, version, headers })
    }
}

/// A builder for a HTTP response.
#[derive(Debug)]
pub struct ResponseBuilder<'s> {
    version: Option<HttpVersion>,
    code: Option<u16>,
    reason: Option<&'s str>,
    headers: Vec<(&'s str, &'s [u8])>,
}

/// The model of a [`ResponseBuilder`].
#[verifier::ext_equal]
pub struct ResponseBuilderView {
    pub version: Option<HttpVersion>,
    pub code: Option<u16>,
    pub reason: Option<Seq<char>>,
    pub headers: Seq<BuiltHeader>,
}

impl<'s> View for ResponseBuilder<'s> {
    type V = ResponseBuilderView;

    closed spec fn view(&self) -> ResponseBuilderView {
        ResponseBuilderView {
            version: self.version,
            code: self.code,
            reason: text_of(self.reason),
            headers: built_headers(self.headers@),
        }
    }
}

impl ResponseBuilderView {
    /// What the builder builds: a response, or the first thing that is
    /// missing or wrong.
    pub open spec fn build(self) -> Result<ResponseView, BuildErrorView> {
        match (self.version, self.code, self.reason) {
            (None, _, _) => Err(BuildErrorView::MissingVersion),
            (_, None, _) => Err(BuildErrorView::MissingCode),
            (_, _, None) => Err(BuildErrorView::MissingResult),
            (Some(version), Some(code), Some(reason)) => if !is_field_value(encode_utf8(reason)) {
                Err(BuildErrorView::InvalidReason(reason))
            } else {
                match check_built(self.headers) {
                    Err(e) => Err(e),
                    Ok(()) => Ok(
                        ResponseView {
                            version,
                            code,
                            reason: encode_utf8(reason),
                            headers: built_fields(self.headers),
                        },
                    ),
                }
            },
        }
    }
}

impl<'s> Default for ResponseBuilder<'s> {
    fn default() -> (b: Self)
        ensures
            b@ == (ResponseBuilderView {
                version: None,
                code: None,
                reason: None,
                headers: Seq::empty(),
            }),
    {
        ResponseBuilder::new(0)
    }
}

impl<'s> ResponseBuilder<'s> {
    /// Create a new [`ResponseBuilder`] with an initial header capacity of
    /// `capacity`.
    pub fn new(capacity: usize) -> (b: Self)
        ensures
            b@ == (ResponseBuilderView {
                version: None,
                code: None,
                reason: None,
                headers: Seq::empty(),
            }),
    {
        let b = Self {
            version: None,
            code: None,
            reason: None,
            headers: Vec::with_capacity(capacity),
        };
        assert(b@.headers =~= Seq::empty());
        b
    }

    /// Specify the response version.
    pub fn with_version(&mut self, version: HttpVersion) -> (b: &mut Self)
        ensures
            b@ == (ResponseBuilderView { version: Some(version), ..old(self)@ }),
            *final(self) == *final(b),
    {
        self.version = Some(version);
        self
    }

    /// Specify the response code.
    pub fn with_code(&mut self, code: u16) -> (b: &mut Self)
        ensures
            b@ == (ResponseBuilderView { code: Some(code), ..old(self)@ }),
            *final(self) == *final(b),
    {
        self.code = Some(code);
        self
    }

    /// Specify the response reason phrase.
    pub fn with_reason(&mut self, reason: &'s str) -> (b: &mut Self)
        ensures
            b@ == (ResponseBuilderView { reason: Some(reason@), ..old(self)@ }),
            *final(self) == *final(b),
    {
        self.reason = Some(reason);
        self
    }

    /// Add a response header. Does not replace any previously set header.
    pub fn with_header(&mut self, name: &'s str, value: &'s [u8]) -> (b: &mut Self)
        ensures
            b@ == (ResponseBuilderView {
                headers: old(self)@.headers.push((name@, value@)),
                ..old(self)@
            }),
            *final(self) == *final(b),
    {
        self.headers.push((name, value));
        assert(self@.headers =~= old(self)@.headers.push((name@, value@)));
        self
    }

    /// Build the response after checking for response validity.
    pub fn build(&self) -> (r: Result<Response, BuildError>)
        ensures
            match (r, self@.build()) {
                (Ok(res), Ok(v)) => res@ == v,
                (Err(e), Err(f)) => e@ == f,
                _ => false,
            },
    {
        let version = match self.version {
            Some(version) => version,
            None => return Err(BuildError::MissingVersion),
        };
        let code: u16 = match self.code {
            Some(code) => code,
            None => return Err(BuildError::MissingCode),
        };
        let reason = match self.reason {
            Some(reason) => reason,
            None => return Err(BuildError::MissingResult),
        };
        // A reason-phrase draws from the same byte set as a field value
        // (RFC 9112 section 4), so the field-value check covers it.
        if !is_valid_field_value(reason.as_bytes()) {
            return Err(BuildError::InvalidReason(reason.to_owned()));
        }
        match validate_built_headers(&self.headers) {
            Err(e) => return Err(e),
            Ok(()) => {},
        }
        let mut buf = BytesMut::with_capacity(128);
        let reason = piece(&mut buf, reason.as_bytes());
        let headers = build_headers(&self.headers, &mut buf);
        Ok(Response { version, code, reason, headers })
    }
}

/// No byte of `s` ends a line.
pub open spec fn is_one_line(s: Seq<u8>) -> bool {
    forall|i: int| 0 <= i < s.len() ==> #[trigger] s[i] != CR && s[i] != LF
}

/// No name or value among the fields ends a line.
pub open spec fn are_one_line_each(fields: Seq<Field>) -> bool {
    forall|i: int|
        0 <= i < fields.len() ==> is_one_line((#[trigger] fields[i]).0) && is_one_line(fields[i].1)
}

proof fn lemma_checked_fields(headers: Seq<BuiltHeader>)
    requires
        check_built(headers) is Ok,
    ensures
        are_one_line_each(built_fields(headers)),
    decreases headers.len(),
{
    if headers.len() > 0 {
        lemma_checked_fields(headers.skip(1));
        let fields = built_fields(headers);
        assert forall|i: int| 0 <= i < fields.len() implies is_one_line((#[trigger] fields[i]).0)
            && is_one_line(fields[i].1) by {
            if i > 0 {
                assert(built_fields(headers.skip(1))[i - 1] == fields[i]);
            } else {
                assert(fields[0] == (encode_utf8(headers[0].0), headers[0].1));
                assert forall|j: int| 0 <= j < fields[0].0.len() implies #[trigger] fields[0].0[j]
                    != CR && fields[0].0[j] != LF by {
                    assert(is_tchar(fields[0].0[j]));
                }
                assert forall|j: int| 0 <= j < fields[0].1.len() implies #[trigger] fields[0].1[j]
                    != CR && fields[0].1[j] != LF by {
                    assert(is_field_byte(fields[0].1[j]));
                }
            }
        }
    }
}

/// Nothing that a builder is given can split the head of a request that it
/// builds: no part of it holds the end of a line.
pub proof fn built_request_is_not_split(b: RequestBuilderView)
    ensures
        b.build() matches Ok(req) ==> is_one_line(req.method) && is_one_line(req.path)
            && are_one_line_each(req.headers),
{
    if let Ok(req) = b.build() {
        lemma_checked_fields(b.headers);
        assert forall|j: int| 0 <= j < req.method.len() implies #[trigger] req.method[j] != CR
            && req.method[j] != LF by {
            assert(is_tchar(req.method[j]));
        }
        assert forall|j: int| 0 <= j < req.path.len() implies #[trigger] req.path[j] != CR
            && req.path[j] != LF by {
            assert(is_vchar(req.path[j]));
        }
    }
}

/// Nothing that a builder is given can split the head of a response that it
/// builds.
pub proof fn built_response_is_not_split(b: ResponseBuilderView)
    ensures
        b.build() matches Ok(res) ==> is_one_line(res.reason) && are_one_line_each(res.headers),
{
    if let Ok(res) = b.build() {
        lemma_checked_fields(b.headers);
        assert forall|j: int| 0 <= j < res.reason.len() implies #[trigger] res.reason[j] != CR
            && res.reason[j] != LF by {
            assert(is_field_byte(res.reason[j]));
        }
    }
}

/// A parsed response has the code, the reason and the fields that were parsed, whatever the
/// version; the version of a head is that of its minor number, and a head with another minor
/// number than 0 or 1 is refused. A head that is incomplete or wrong gives no response.
pub proof fn parsed_responses_are_kept(raw: RawResponseView, e: HttpParseError)
    ensures
        response_of(Err(e)) == Err::<Option<(ResponseView, nat)>, _>(MessageErrorView::Parse(e)),
        response_of(Ok(None)) == Ok::<Option<(ResponseView, nat)>, MessageErrorView>(None),
        match (raw.version, response_of(Ok(Some(raw)))) {
            (Some(v), Err(f)) => v > 1 && f == MessageErrorView::HttpVersion(v),
            (version, Ok(Some((res, head_len)))) => {
                &&& version is None || version == Some(0u8) || version == Some(1u8)
                &&& res.version == HttpVersion::Http11 <==> version == Some(1u8)
                &&& raw.code matches Some(code) ==> res.code == code
                &&& raw.code is None ==> res.code == 0
                &&& raw.reason matches Some(reason) ==> res.reason == reason
                &&& raw.reason is None ==> res.reason.len() == 0
                &&& res.headers == raw.headers
                &&& head_len == raw.head_len
            },
            _ => false,
        },
{
}

/// A parsed request has the method, the path and the fields that were parsed, whatever the
/// version; versions are told as those of responses are.
pub proof fn parsed_requests_are_kept(raw: RawRequestView, e: HttpParseError)
    ensures
        request_of(Err(e)) == Err::<Option<(RequestView, nat)>, _>(MessageErrorView::Parse(e)),
        request_of(Ok(None)) == Ok::<Option<(RequestView, nat)>, MessageErrorView>(None),
        match (raw.version, request_of(Ok(Some(raw)))) {
            (Some(v), Err(f)) => v > 1 && f == MessageErrorView::HttpVersion(v),
            (version, Ok(Some((req, head_len)))) => {
                &&& version is None || version == Some(0u8) || version == Some(1u8)
                &&& req.version == HttpVersion::Http11 <==> version == Some(1u8)
                &&& raw.method matches Some(method) ==> req.method == method
                &&& raw.method is None ==> req.method.len() == 0
                &&& raw.path matches Some(path) ==> req.path == path
                &&& raw.path is None ==> req.path.len() == 0
                &&& req.headers == raw.headers
                &&& head_len == raw.head_len
            },
            _ => false,
        },
{
}

/// Two parsed heads that differ only in their version give the same response but for the
/// version.
pub proof fn the_version_decides_nothing_else(raw: RawResponseView, a: u8, b: u8)
    requires
        a <= 1,
        b <= 1,
    ensures
        ({
            let old = response_of(Ok(Some(RawResponseView { version: Some(a), ..raw })));
            let new = response_of(Ok(Some(RawResponseView { version: Some(b), ..raw })));
            match (old, new) {
                (Ok(Some((m, i))), Ok(Some((n, j)))) => i == j && m == (ResponseView {
                    version: m.version,
                    ..n
                }),
                _ => false,
            }
        }),
{
}

/// The headers that a builder was given are accepted exactly where every name and every value
/// is one of a field; otherwise the first that is not is named, the name before the value.
pub proof fn the_first_wrong_header_is_named(headers: Seq<BuiltHeader>)
    ensures
        match check_built(headers) {
            Ok(()) => forall|i: int|
                0 <= i < headers.len() ==> is_field_name(encode_utf8((#[trigger] headers[i]).0))
                    && is_field_value(headers[i].1),
            Err(e) => exists|i: int|
                {
                    &&& 0 <= i < headers.len()
                    &&& forall|k: int|
                        0 <= k < i ==> is_field_name(encode_utf8((#[trigger] headers[k]).0))
                            && is_field_value(headers[k].1)
                    &&& if is_field_name(encode_utf8((#[trigger] headers[i]).0)) {
                        !is_field_value(headers[i].1) && e == BuildErrorView::InvalidFieldValue(
                            lossy_text(headers[i].1),
                        )
                    } else {
                        e == BuildErrorView::InvalidFieldName(headers[i].0)
                    }
                },
        },
    decreases headers.len(),
{
    if headers.len() > 0 && is_field_name(encode_utf8(headers[0].0)) && is_field_value(
        headers[0].1,
    ) {
        let rest = headers.skip(1);
        the_first_wrong_header_is_named(rest);
        match check_built(rest) {
            Ok(()) => {
                assert forall|i: int| 0 <= i < headers.len() implies is_field_name(
                    encode_utf8((#[trigger] headers[i]).0),
                ) && is_field_value(headers[i].1) by {
                    if i > 0 {
                        assert(headers[i] == rest[i - 1]);
                    }
                }
            },
            Err(e) => {
                let j = choose|i: int|
                    {
                        &&& 0 <= i < rest.len()
                        &&& forall|k: int|
                            0 <= k < i ==> is_field_name(encode_utf8((#[trigger] rest[k]).0))
                                && is_field_value(rest[k].1)
                        &&& if is_field_name(encode_utf8((#[trigger] rest[i]).0)) {
                            !is_field_value(rest[i].1) && e == BuildErrorView::InvalidFieldValue(
                                lossy_text(rest[i].1),
                            )
                        } else {
                            e == BuildErrorView::InvalidFieldName(rest[i].0)
                        }
                    };
                assert(rest[j] == headers[j + 1]);
                assert forall|k: int| 0 <= k < j + 1 implies is_field_name(
                    encode_utf8((#[trigger] headers[k]).0),
                ) && is_field_value(headers[k].1) by {
                    if k > 0 {
                        assert(headers[k] == rest[k - 1]);
                    }
                }
            },
        }
    } else if headers.len() > 0 {
        assert(headers[0] == headers[0]);
    }
}

/// A request is built exactly where its method, path and version were given, the method is
/// made of token characters, the path is a request target, and the headers are accepted. It
/// then has just what was given, header by header; otherwise the first of these that is
/// missing, and then the first that is wrong, is told.
pub proof fn requests_are_built_as_given(b: RequestBuilderView)
    ensures
        match b.build() {
            Ok(req) => {
                &&& b.method matches Some(method) && req.method == encode_utf8(method)
                    && all_tchars(req.method)
                &&& b.path matches Some(path) && req.path == encode_utf8(path)
                    && is_request_target(req.path)
                &&& b.version == Some(req.version)
                &&& check_built(b.headers) is Ok
                &&& req.headers.len() == b.headers.len()
                &&& forall|i: int|
                    0 <= i < b.headers.len() ==> (#[trigger] req.headers[i]) == (
                        encode_utf8(b.headers[i].0),
                        b.headers[i].1,
                    )
            },
            Err(BuildErrorView::MissingMethod) => b.method is None,
            Err(BuildErrorView::MissingPath) => b.method is Some && b.path is None,
            Err(BuildErrorView::MissingVersion) => b.method is Some && b.path is Some
                && b.version is None,
            Err(BuildErrorView::InvalidMethod(m)) => b.method == Some(m) && b.path is Some
                && b.version is Some && !all_tchars(encode_utf8(m)),
            Err(BuildErrorView::InvalidPath(p)) => b.method matches Some(m) && all_tchars(
                encode_utf8(m),
            ) && b.path == Some(p) && b.version is Some && !is_request_target(encode_utf8(p)),
            Err(e) => {
                &&& b.method matches Some(m) && all_tchars(encode_utf8(m))
                &&& b.path matches Some(p) && is_request_target(encode_utf8(p))
                &&& b.version is Some
                &&& check_built(b.headers) == Err::<(), _>(e)
            },
        },
{
    the_first_wrong_header_is_named(b.headers);
}

/// A response is built exactly where its version, code and reason were given, the reason is
/// made of the bytes of a field value, and the headers are accepted. It then has just what
/// was given, header by header; otherwise the first of these that is missing, and then the
/// first that is wrong, is told.
pub proof fn responses_are_built_as_given(b: ResponseBuilderView)
    ensures
        match b.build() {
            Ok(res) => {
                &&& b.version == Some(res.version)
                &&& b.code == Some(res.code)
                &&& b.reason matches Some(reason) && res.reason == encode_utf8(reason)
                    && is_field_value(res.reason)
                &&& check_built(b.headers) is Ok
                &&& res.headers.len() == b.headers.len()
                &&& forall|i: int|
                    0 <= i < b.headers.len() ==> (#[trigger] res.headers[i]) == (
                        encode_utf8(b.headers[i].0),
                        b.headers[i].1,
                    )
            },
            Err(BuildErrorView::MissingVersion) => b.version is None,
            Err(BuildErrorView::MissingCode) => b.version is Some && b.code is None,
            Err(BuildErrorView::MissingResult) => b.version is Some && b.code is Some
                && b.reason is None,
            Err(BuildErrorView::InvalidReason(r)) => b.version is Some && b.code is Some && b.reason
                == Some(r) && !is_field_value(encode_utf8(r)),
            Err(e) => {
                &&& b.version is Some && b.code is Some
                &&& b.reason matches Some(r) && is_field_value(encode_utf8(r))
                &&& check_built(b.headers) == Err::<(), _>(e)
            },
        },
{
    the_first_wrong_header_is_named(b.headers);
}

/// A response is made of just what was parsed: the code, the reason and the fields, in order,
/// are those of the head, whatever its version.
pub proof fn responses_are_made_of_what_was_parsed<'b>(
    parsed: Result<Option<RawResponse<'b>>, HttpParseError>,
    r: MessageResult<Option<(Response, usize)>>,
)
    requires
        call_ensures(Response::from_raw, (parsed,), r),
    ensures
        match (parsed, r) {
            (Err(e), Err(MessageError::Parse(f))) => f == e,
            (Ok(None), Ok(None)) => true,
            (Ok(Some(raw)), Err(MessageError::HttpVersion(v))) => raw.version == Some(v) && v > 1,
            (Ok(Some(raw)), Ok(Some((res, head_len)))) => {
                &&& head_len == raw.head_len
                &&& res@.version == HttpVersion::Http11 <==> raw.version == Some(1u8)
                &&& raw.version matches Some(v) ==> v <= 1
                &&& raw.code matches Some(code) ==> res@.code == code
                &&& raw.code is None ==> res@.code == 0
                &&& raw.reason matches Some(reason) ==> res@.reason == reason@
                &&& raw.reason is None ==> res@.reason.len() == 0
                &&& res@.headers.len() == raw.headers@.len()
                &&& forall|i: int|
                    0 <= i < raw.headers@.len() ==> (#[trigger] res@.headers[i]) == (
                        raw.headers@[i].0@,
                        raw.headers@[i].1@,
                    )
            },
            _ => false,
        },
{
}

/// A request is made of just what was parsed: the method, the path and the fields, in order,
/// are those of the head, whatever its version.
pub proof fn requests_are_made_of_what_was_parsed<'b>(
    parsed: Result<Option<RawRequest<'b>>, HttpParseError>,
    r: MessageResult<Option<(Request, usize)>>,
)
    requires
        call_ensures(Request::from_raw, (parsed,), r),
    ensures
        match (parsed, r) {
            (Err(e), Err(MessageError::Parse(f))) => f == e,
            (Ok(None), Ok(None)) => true,
            (Ok(Some(raw)), Err(MessageError::HttpVersion(v))) => raw.version == Some(v) && v > 1,
            (Ok(Some(raw)), Ok(Some((req, head_len)))) => {
                &&& head_len == raw.head_len
                &&& req@.version == HttpVersion::Http11 <==> raw.version == Some(1u8)
                &&& raw.version matches Some(v) ==> v <= 1
                &&& raw.method matches Some(method) ==> req@.method == method@
                &&& raw.method is None ==> req@.method.len() == 0
                &&& raw.path matches Some(path) ==> req@.path == path@
                &&& raw.path is None ==> req@.path.len() == 0
                &&& req@.headers.len() == raw.headers@.len()
                &&& forall|i: int|
                    0 <= i < raw.headers@.len() ==> (#[trigger] req@.headers[i]) == (
                        raw.headers@[i].0@,
                        raw.headers@[i].1@,
                    )
            },
            _ => false,
        },
{
}

/// A plain response head, of either version, is read back as it was written: the code is the
/// one in its status line, and the reason and the fields are its own. Just the head is
/// consumed.
pub proof fn plain_responses_are_read_back<I>(
    slots: &mut ParseSlots,
    buf: &mut BytesReader<I>,
    r: MessageResult<Option<Response>>,
    version: HttpVersion,
    code: u16,
    reason: Seq<u8>,
    fields: Seq<Field>,
    rest: Seq<u8>,
)
    requires
        call_ensures(ParseSlots::parse_response::<I>, (slots, buf), r),
        raw::is_plain_response(code, reason, fields),
        fields.len() <= old(slots)@,
        old(buf)@.buf == (match version {
            HttpVersion::Http10 => crate::text::ascii("HTTP/1.0 "),
            HttpVersion::Http11 => crate::text::ascii("HTTP/1.1 "),
        }) + crate::text::decimal(code as nat) + crate::text::ascii(" ") + reason
            + crate::text::crlf() + raw::field_lines(fields) + crate::text::crlf() + rest,
    ensures
        r matches Ok(Some(m)) && m@.version == version && m@.code == code && m@.reason == reason
            && m@.headers == fields,
        final(buf)@.buf == rest,
        final(slots)@ == old(slots)@,
{
    assert(old(buf)@.buf == raw::versioned_response_text(version, code, reason, fields) + rest);
}

/// A plain request head, of either version, is read back as it was written. Just the head is
/// consumed.
pub proof fn plain_requests_are_read_back<I>(
    slots: &mut ParseSlots,
    buf: &mut BytesReader<I>,
    r: MessageResult<Option<Request>>,
    version: HttpVersion,
    method: Seq<u8>,
    path: Seq<u8>,
    fields: Seq<Field>,
    rest: Seq<u8>,
)
    requires
        call_ensures(ParseSlots::parse_request::<I>, (slots, buf), r),
        raw::is_plain_request(method, path, fields),
        fields.len() <= old(slots)@,
        old(buf)@.buf == method + crate::text::ascii(" ") + path + (match version {
            HttpVersion::Http10 => crate::text::ascii(" HTTP/1.0"),
            HttpVersion::Http11 => crate::text::ascii(" HTTP/1.1"),
        }) + crate::text::crlf() + raw::field_lines(fields) + crate::text::crlf() + rest,
    ensures
        r matches Ok(Some(m)) && m@.version == version && m@.method == method && m@.path == path
            && m@.headers == fields,
        final(buf)@.buf == rest,
        final(slots)@ == old(slots)@,
{
    assert(old(buf)@.buf == raw::versioned_request_text(version, method, path, fields) + rest);
}

/// What a builder builds, or why it does not, is what its parts say; and building does not
/// depend on what was built before.
pub proof fn builders_build_what_they_were_given<'s>(
    b: &RequestBuilder<'s>,
    r: Result<Request, BuildError>,
    c: &ResponseBuilder<'s>,
    s: Result<Response, BuildError>,
)
    requires
        call_ensures(RequestBuilder::<'s>::build, (b,), r),
        call_ensures(ResponseBuilder::<'s>::build, (c,), s),
    ensures
        match (r, b@.build()) {
            (Ok(req), Ok(v)) => req@ == v,
            (Err(e), Err(f)) => e@ == f,
            _ => false,
        },
        match (s, c@.build()) {
            (Ok(res), Ok(v)) => res@ == v,
            (Err(e), Err(f)) => e@ == f,
            _ => false,
        },
{
}

/// The path of a request is replaced exactly where the new one is in origin form: it starts
/// with a slash, and is made of the bytes of a path and a query. Otherwise the request stays
/// as it is; and nothing else of it ever changes.
pub proof fn paths_are_replaced_where_they_are_valid(
    req: &mut Request,
    path: Bytes,
    r: Result<(), OriginFormError>,
)
    requires
        call_ensures(Request::set_origin_form_path, (req, path), r),
    ensures
        r is Ok <==> is_origin_form(octets(path)),
        r is Ok ==> final(req)@.path == octets(path),
        r is Err ==> final(req)@.path == old(req)@.path,
        final(req)@.method == old(req)@.method,
        final(req)@.version == old(req)@.version,
        final(req)@.headers == old(req)@.headers,
        (octets(path).len() == 0 || octets(path)[0] != 47u8) <==> r == Err::<(), _>(
            OriginFormError::NotAbsolutePath,
        ),
{
}

/// A response is informational exactly where its code is from 100 to 199.
pub proof fn informational_codes_are_1xx(res: &Response, r: Option<u16>)
    requires
        call_ensures(Response::is_informational, (res,), r),
    ensures
        r is Some <==> 100 <= res@.code <= 199,
        r matches Some(code) ==> code == res@.code,
{
}

/// What a builder is given replaces what it was given before for the same part, and nothing
/// else; a header goes behind those that were given before.
pub proof fn builders_keep_what_they_are_given<'a, 's>(
    b: &'a mut RequestBuilder<'s>,
    method: &'s str,
    with_method: &'a mut RequestBuilder<'s>,
    c: &'a mut RequestBuilder<'s>,
    path: &'s str,
    with_path: &'a mut RequestBuilder<'s>,
    d: &'a mut RequestBuilder<'s>,
    name: &'s str,
    value: &'s [u8],
    with_header: &'a mut RequestBuilder<'s>,
)
    requires
        call_ensures(RequestBuilder::<'s>::with_method, (b, method), with_method),
        call_ensures(RequestBuilder::<'s>::with_path, (c, path), with_path),
        call_ensures(RequestBuilder::<'s>::with_header, (d, name, value), with_header),
    ensures
        old(with_method)@.method == Some(method@),
        old(with_method)@.path == old(b)@.path,
        old(with_method)@.version == old(b)@.version,
        old(with_method)@.headers == old(b)@.headers,
        *final(b) == *final(with_method),
        old(with_path)@.path == Some(path@),
        old(with_path)@.method == old(c)@.method,
        old(with_path)@.version == old(c)@.version,
        old(with_path)@.headers == old(c)@.headers,
        *final(c) == *final(with_path),
        old(with_header)@.headers.len() == old(d)@.headers.len() + 1,
        old(with_header)@.headers.last() == (name@, value@),
        old(with_header)@.headers.drop_last() == old(d)@.headers,
        old(with_header)@.method == old(d)@.method,
        old(with_header)@.path == old(d)@.path,
        old(with_header)@.version == old(d)@.version,
        *final(d) == *final(with_header),
{
    assert(old(with_header)@.headers.drop_last() =~= old(d)@.headers);
}

/// The model of an error is of the same kind as the error.
pub proof fn message_errors_keep_their_kind(e: MessageError)
    ensures
        e is Parse <==> e@ is Parse,
        e is HttpVersion <==> e@ is HttpVersion,
        e is BuildError <==> e@ is BuildError,
{
}

/// The model of an error is of the same kind as the error.
pub proof fn build_errors_keep_their_kind(e: BuildError)
    ensures
        e is MissingMethod <==> e@ is MissingMethod,
        e is MissingPath <==> e@ is MissingPath,
        e is MissingVersion <==> e@ is MissingVersion,
        e is MissingCode <==> e@ is MissingCode,
        e is MissingResult <==> e@ is MissingResult,
        e is InvalidMethod <==> e@ is InvalidMethod,
        e is InvalidPath <==> e@ is InvalidPath,
        e is InvalidReason <==> e@ is InvalidReason,
        e is InvalidFieldName <==> e@ is InvalidFieldName,
        e is InvalidFieldValue <==> e@ is InvalidFieldValue,
{
}

} // verus!
