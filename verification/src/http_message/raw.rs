//! What the `httparse` crate reads off the front of a buffer.
use httparse::{Error as E, Status, EMPTY_HEADER};
use vstd::prelude::*;

use crate::http_message::header::Field;
use crate::http_message::version::HttpVersion;
use crate::parse::{is_field_name, is_field_value, is_request_target};
use crate::text::{
    all_hex_digits, ascii, crlf, decimal, hex, hex_length, hex_round_trip, hex_value, is_space, CR,
    HTAB, SP,
};

verus! {

/// Why a message head could not be parsed.
#[derive(Debug, Clone, Copy, PartialEq, Eq, Structural)]
pub enum HttpParseError {
    /// Invalid byte in header name.
    HeaderName,
    /// Invalid byte in header value.
    HeaderValue,
    /// Invalid byte in new line.
    NewLine,
    /// Invalid byte in response status.
    Status,
    /// Invalid byte where token is required.
    Token,
    /// More headers than there are slots for.
    TooManyHeaders,
    /// Invalid byte in HTTP version.
    Version,
}

/// A chunk header that does not state a size.
#[derive(Debug, Clone, Copy, PartialEq, Eq, Structural)]
pub struct InvalidChunkSize;

/// A request head, as slices of the buffer that it was parsed from.
pub struct RawRequest<'b> {
    /// The length of the head.
    pub head_len: usize,
    pub method: Option<&'b [u8]>,
    pub path: Option<&'b [u8]>,
    /// The minor version.
    pub version: Option<u8>,
    pub headers: Vec<(&'b [u8], &'b [u8])>,
}

/// The model of a [`RawRequest`].
pub struct RawRequestView {
    pub head_len: nat,
    pub method: Option<Seq<u8>>,
    pub path: Option<Seq<u8>>,
    pub version: Option<u8>,
    pub headers: Seq<Field>,
}

/// A response head, as slices of the buffer that it was parsed from.
pub struct RawResponse<'b> {
    /// The length of the head.
    pub head_len: usize,
    /// The minor version.
    pub version: Option<u8>,
    pub code: Option<u16>,
    pub reason: Option<&'b [u8]>,
    pub headers: Vec<(&'b [u8], &'b [u8])>,
}

/// The model of a [`RawResponse`].
pub struct RawResponseView {
    pub head_len: nat,
    pub version: Option<u8>,
    pub code: Option<u16>,
    pub reason: Option<Seq<u8>>,
    pub headers: Seq<Field>,
}

/// A block of headers, as slices of the buffer that it was parsed from.
pub struct RawHeaders<'b> {
    /// The length of the block, with the empty line that ends it.
    pub block_len: usize,
    pub headers: Vec<(&'b [u8], &'b [u8])>,
}

/// The model of [`RawHeaders`].
pub struct RawHeadersView {
    pub block_len: nat,
    pub headers: Seq<Field>,
}

/// The fields that pairs of slices hold.
pub open spec fn raw_fields(pairs: Seq<(&[u8], &[u8])>) -> Seq<Field> {
    pairs.map_values(|pair: (&[u8], &[u8])| (pair.0@, pair.1@))
}

/// The bytes of an optional slice.
pub open spec fn raw_bytes(s: Option<&[u8]>) -> Option<Seq<u8>> {
    match s {
        None => None,
        Some(s) => Some(s@),
    }
}

impl<'b> View for RawRequest<'b> {
    type V = RawRequestView;

    open spec fn view(&self) -> RawRequestView {
        RawRequestView {
            head_len: self.head_len as nat,
            method: raw_bytes(self.method),
            path: raw_bytes(self.path),
            version: self.version,
            headers: raw_fields(self.headers@),
        }
    }
}

impl<'b> View for RawResponse<'b> {
    type V = RawResponseView;

    open spec fn view(&self) -> RawResponseView {
        RawResponseView {
            head_len: self.head_len as nat,
            version: self.version,
            code: self.code,
            reason: raw_bytes(self.reason),
            headers: raw_fields(self.headers@),
        }
    }
}

impl<'b> View for RawHeaders<'b> {
    type V = RawHeadersView;

    open spec fn view(&self) -> RawHeadersView {
        RawHeadersView {
            block_len: self.block_len as nat,
            headers: raw_fields(self.headers@),
        }
    }
}

/// The view of the result of a parse: an error, nothing yet, or a value.
pub open spec fn parsed_view<T: View>(r: Result<Option<T>, HttpParseError>) -> Result<
    Option<T::V>,
    HttpParseError,
> {
    match r {
        Err(e) => Err(e),
        Ok(None) => Ok(None),
        Ok(Some(v)) => Ok(Some(v@)),
    }
}

/// A field that is written as `name: value` and parsed back as it was: a field
/// name, and a field value without whitespace around it.
pub open spec fn is_plain_field(f: Field) -> bool {
    &&& is_field_name(f.0)
    &&& is_field_value(f.1)
    &&& f.1.len() > 0 ==> !is_space(f.1[0]) && !is_space(f.1.last())
}

/// A field on a line of its own.
pub open spec fn field_line(f: Field) -> Seq<u8> {
    f.0 + ascii(": ") + f.1 + crlf()
}

/// Fields, each on a line of its own.
pub open spec fn field_lines(fields: Seq<Field>) -> Seq<u8>
    decreases fields.len(),
{
    if fields.len() == 0 {
        Seq::empty()
    } else {
        field_lines(fields.drop_last()) + field_line(fields.last())
    }
}

/// Fields that are written each on a line of its own and parsed back as they
/// were.
pub open spec fn are_plain_fields(fields: Seq<Field>) -> bool {
    forall|i: int| 0 <= i < fields.len() ==> is_plain_field(#[trigger] fields[i])
}

/// The minor number of a version.
pub open spec fn minor(version: HttpVersion) -> u8 {
    match version {
        HttpVersion::Http10 => 0,
        HttpVersion::Http11 => 1,
    }
}

/// The head of a request in a version: the request line, the fields, and an empty line.
pub open spec fn versioned_request_text(
    version: HttpVersion,
    method: Seq<u8>,
    path: Seq<u8>,
    fields: Seq<Field>,
) -> Seq<u8> {
    method + ascii(" ") + path + (match version {
        HttpVersion::Http10 => ascii(" HTTP/1.0"),
        HttpVersion::Http11 => ascii(" HTTP/1.1"),
    }) + crlf() + field_lines(fields) + crlf()
}

/// The head of a request in the later version, the one that is written.
#[verifier::inline]
pub open spec fn request_text(method: Seq<u8>, path: Seq<u8>, fields: Seq<Field>) -> Seq<u8> {
    versioned_request_text(HttpVersion::Http11, method, path, fields)
}

/// What makes up a request head that is parsed back as it was written.
pub open spec fn is_plain_request(method: Seq<u8>, path: Seq<u8>, fields: Seq<Field>) -> bool {
    is_field_name(method) && is_request_target(path) && are_plain_fields(fields)
}

/// The head of a response in a version: the status line, the fields, and an empty line.
pub open spec fn versioned_response_text(
    version: HttpVersion,
    code: u16,
    reason: Seq<u8>,
    fields: Seq<Field>,
) -> Seq<u8> {
    (match version {
        HttpVersion::Http10 => ascii("HTTP/1.0 "),
        HttpVersion::Http11 => ascii("HTTP/1.1 "),
    }) + decimal(code as nat) + ascii(" ") + reason + crlf() + field_lines(fields) + crlf()
}

/// The head of a response in the later version, the one that is written.
#[verifier::inline]
pub open spec fn response_text(code: u16, reason: Seq<u8>, fields: Seq<Field>) -> Seq<u8> {
    versioned_response_text(HttpVersion::Http11, code, reason, fields)
}

/// What makes up a response head that is parsed back as it was written: a code
/// of three digits, and a reason in ASCII.
pub open spec fn is_plain_response(code: u16, reason: Seq<u8>, fields: Seq<Field>) -> bool {
    &&& 100 <= code <= 999
    &&& is_field_value(reason)
    &&& forall|i: int| 0 <= i < reason.len() ==> #[trigger] reason[i] < 128
    &&& are_plain_fields(fields)
}

/// What `httparse::Request::parse` reads off the front of a buffer, with room
/// for so many headers: an error, nothing where the head is not complete, or
/// the head.
pub uninterp spec fn httparse_request(buf: Seq<u8>, max_headers: nat) -> Result<
    Option<RawRequestView>,
    HttpParseError,
>;

/// What `httparse::Response::parse` reads off the front of a buffer, with room
/// for so many headers.
pub uninterp spec fn httparse_response(buf: Seq<u8>, max_headers: nat) -> Result<
    Option<RawResponseView>,
    HttpParseError,
>;

/// What `httparse::parse_headers` reads off the front of a buffer, with room
/// for so many headers.
pub uninterp spec fn httparse_headers(buf: Seq<u8>, max_headers: nat) -> Result<
    Option<RawHeadersView>,
    HttpParseError,
>;

/// What `httparse::parse_chunk_size` reads off the front of a buffer: the
/// length of the chunk header and the size that it states.
pub uninterp spec fn httparse_chunk_size(buf: Seq<u8>) -> Result<
    Option<(nat, u64)>,
    InvalidChunkSize,
>;

/// Blanks up to `k`, and from there on nothing, or a semicolon and anything.
pub open spec fn is_ext_from(s: Seq<u8>, k: int) -> bool {
    &&& 0 <= k <= s.len()
    &&& k < s.len() ==> s[k] == ';' as u8
    &&& forall|i: int| 0 <= i < k ==> #[trigger] s[i] == SP || s[i] == HTAB
}

/// What may stand between the size and the end of a chunk header: blanks, and
/// then, behind a semicolon, chunk extensions.
pub open spec fn is_chunk_ext(s: Seq<u8>) -> bool {
    &&& forall|i: int| 0 <= i < s.len() ==> #[trigger] s[i] != CR
    &&& exists|k: int| is_ext_from(s, k)
}

/// A chunk header that states the size `n`: hexadecimal digits in either case,
/// possibly with leading zeros, and possibly with extensions.
pub open spec fn is_chunk_line(line: Seq<u8>, n: u64) -> bool {
    exists|digits: Seq<u8>, ext: Seq<u8>|
        line == #[trigger] (digits + ext + crlf()) && 1 <= digits.len() <= 16 && all_hex_digits(
            digits,
        ) && hex_value(digits) == n && is_chunk_ext(ext)
}

/// The header that a chunk of `n` bytes is written with is a chunk header.
pub proof fn written_header_is_chunk_line(n: u64)
    ensures
        is_chunk_line(hex(n as nat) + crlf(), n),
{
    hex_round_trip(n as nat);
    hex_length(n as nat);
    let none = Seq::<u8>::empty();
    assert(hex(n as nat) + none + crlf() =~= hex(n as nat) + crlf());
    assert(is_ext_from(none, 0));
}

/// The view of a parsed chunk header.
pub open spec fn chunk_size_view(r: Result<Option<(usize, u64)>, InvalidChunkSize>) -> Result<
    Option<(nat, u64)>,
    InvalidChunkSize,
> {
    match r {
        Err(e) => Err(e),
        Ok(None) => Ok(None),
        Ok(Some((n, size))) => Ok(Some((n as nat, size))),
    }
}

/// `httparse::Request::parse`. A head is no longer than the buffer; a plain head
/// of either version is parsed back as it was written, and is incomplete as long as a part of it
/// is missing at its end. The room for headers is a maximum: a head that is
/// complete with any room is the same wherever there is room for its headers, and
/// refused elsewhere; so is a plain head with more headers than there is room for.
#[verifier::external_body]
pub(crate) fn parse_request<'b>(buf: &'b [u8], max_headers: usize) -> (r: Result<
    Option<RawRequest<'b>>,
    HttpParseError,
>)
    requires
        max_headers * 32 <= isize::MAX,
    ensures
        parsed_view(r) == httparse_request(buf@, max_headers as nat),
        r matches Ok(Some(raw)) ==> raw.head_len <= buf@.len(),
        (forall|room: nat|
            (#[trigger] httparse_request(buf@, room)) matches Ok(Some(raw)) ==> parsed_view(r) == (
            if raw.headers.len() <= max_headers {
                Ok::<Option<RawRequestView>, HttpParseError>(Some(raw))
            } else {
                Err(HttpParseError::TooManyHeaders)
            })),
        (forall|version: HttpVersion, method: Seq<u8>, path: Seq<u8>, fields: Seq<Field>, rest: Seq<u8>|
            buf@ == #[trigger] (versioned_request_text(version, method, path, fields) + rest) && is_plain_request(
                method,
                path,
                fields,
            ) && fields.len() <= max_headers ==> parsed_view(r) == Ok::<_, HttpParseError>(
                Some(
                    RawRequestView {
                        head_len: versioned_request_text(version, method, path, fields).len(),
                        method: Some(method),
                        path: Some(path),
                        version: Some(minor(version)),
                        headers: fields,
                    },
                ),
            )),
        (forall|version: HttpVersion, method: Seq<u8>, path: Seq<u8>, fields: Seq<Field>, rest: Seq<u8>|
            buf@ == #[trigger] (versioned_request_text(version, method, path, fields) + rest) && is_plain_request(
                method,
                path,
                fields,
            ) && fields.len() > max_headers ==> parsed_view(r) == Err::<
                Option<RawRequestView>,
                HttpParseError,
            >(HttpParseError::TooManyHeaders)),
        (forall|version: HttpVersion, method: Seq<u8>, path: Seq<u8>, fields: Seq<Field>|
            buf@.len() < (#[trigger] versioned_request_text(version, method, path, fields)).len() && buf@
                == versioned_request_text(version, method, path, fields).take(buf@.len() as int) && is_plain_request(
                method,
                path,
                fields,
            ) && fields.len() <= max_headers ==> parsed_view(r) == Ok::<
                Option<RawRequestView>,
                HttpParseError,
            >(None)),
{
    let mut slots = vec![EMPTY_HEADER; max_headers];
    let mut req = httparse::Request::new(&mut slots);
    let Status::Complete(head_len) = req.parse(buf).map_err(|e| match e {
        E::HeaderName => HttpParseError::HeaderName,
        E::HeaderValue => HttpParseError::HeaderValue,
        E::NewLine => HttpParseError::NewLine,
        E::Status => HttpParseError::Status,
        E::Token => HttpParseError::Token,
        E::TooManyHeaders => HttpParseError::TooManyHeaders,
        E::Version => HttpParseError::Version,
    })? else { return Ok(None) };
    let headers = req.headers.iter().map(|h| (h.name.as_bytes(), h.value)).collect();
    let path = req.path.map(str::as_bytes);
    Ok(Some(RawRequest { head_len, method: req.method.map(str::as_bytes), path, version: req.version, headers }))
}

/// `httparse::Response::parse`. A head is no longer than the buffer; a plain head
/// of either version is parsed back as it was written, and is incomplete as long as a part of it
/// is missing at its end. The room for headers is a maximum: a head that is
/// complete with any room is the same wherever there is room for its headers, and
/// refused elsewhere; so is a plain head with more headers than there is room for.
#[verifier::external_body]
pub(crate) fn parse_response<'b>(buf: &'b [u8], max_headers: usize) -> (r: Result<
    Option<RawResponse<'b>>,
    HttpParseError,
>)
    requires
        max_headers * 32 <= isize::MAX,
    ensures
        parsed_view(r) == httparse_response(buf@, max_headers as nat),
        r matches Ok(Some(raw)) ==> raw.head_len <= buf@.len(),
        (forall|room: nat|
            (#[trigger] httparse_response(buf@, room)) matches Ok(Some(raw)) ==> parsed_view(r) == (
            if raw.headers.len() <= max_headers {
                Ok::<Option<RawResponseView>, HttpParseError>(Some(raw))
            } else {
                Err(HttpParseError::TooManyHeaders)
            })),
        (forall|version: HttpVersion, code: u16, reason: Seq<u8>, fields: Seq<Field>, rest: Seq<u8>|
            buf@ == #[trigger] (versioned_response_text(version, code, reason, fields) + rest) && is_plain_response(
                code,
                reason,
                fields,
            ) && fields.len() <= max_headers ==> parsed_view(r) == Ok::<_, HttpParseError>(
                Some(
                    RawResponseView {
                        head_len: versioned_response_text(version, code, reason, fields).len(),
                        version: Some(minor(version)),
                        code: Some(code),
                        reason: Some(reason),
                        headers: fields,
                    },
                ),
            )),
        (forall|version: HttpVersion, code: u16, reason: Seq<u8>, fields: Seq<Field>, rest: Seq<u8>|
            buf@ == #[trigger] (versioned_response_text(version, code, reason, fields) + rest) && is_plain_response(
                code,
                reason,
                fields,
            ) && fields.len() > max_headers ==> parsed_view(r) == Err::<
                Option<RawResponseView>,
                HttpParseError,
            >(HttpParseError::TooManyHeaders)),
        (forall|version: HttpVersion, code: u16, reason: Seq<u8>, fields: Seq<Field>|
            buf@.len() < (#[trigger] versioned_response_text(version, code, reason, fields)).len() && buf@
                == versioned_response_text(version, code, reason, fields).take(buf@.len() as int)
                && is_plain_response(code, reason, fields) && fields.len() <= max_headers
                ==> parsed_view(r) == Ok::<Option<RawResponseView>, HttpParseError>(None)),
{
    let mut slots = vec![EMPTY_HEADER; max_headers];
    let mut res = httparse::Response::new(&mut slots);
    let Status::Complete(head_len) = res.parse(buf).map_err(|e| match e {
        E::HeaderName => HttpParseError::HeaderName,
        E::HeaderValue => HttpParseError::HeaderValue,
        E::NewLine => HttpParseError::NewLine,
        E::Status => HttpParseError::Status,
        E::Token => HttpParseError::Token,
        E::TooManyHeaders => HttpParseError::TooManyHeaders,
        E::Version => HttpParseError::Version,
    })? else { return Ok(None) };
    let headers = res.headers.iter().map(|h| (h.name.as_bytes(), h.value)).collect();
    let reason = res.reason.map(str::as_bytes);
    Ok(Some(RawResponse { head_len, version: res.version, code: res.code, reason, headers }))
}

/// `httparse::parse_headers`. A block is no longer than the buffer; plain
/// fields, each written on a line of its own, are parsed back as they were; and
/// as long as a part of such a block is missing at its end, the block is
/// incomplete. The room for headers is a maximum: a block that is complete with
/// any room is the same wherever there is room for its headers, and refused
/// elsewhere; so are plain fields of which there are more than there is room for.
#[verifier::external_body]
pub(crate) fn parse_headers<'b>(buf: &'b [u8], max_headers: usize) -> (r: Result<
    Option<RawHeaders<'b>>,
    HttpParseError,
>)
    requires
        max_headers * 32 <= isize::MAX,
    ensures
        parsed_view(r) == httparse_headers(buf@, max_headers as nat),
        r matches Ok(Some(raw)) ==> raw.block_len <= buf@.len(),
        (forall|room: nat|
            (#[trigger] httparse_headers(buf@, room)) matches Ok(Some(raw)) ==> parsed_view(r) == (
            if raw.headers.len() <= max_headers {
                Ok::<Option<RawHeadersView>, HttpParseError>(Some(raw))
            } else {
                Err(HttpParseError::TooManyHeaders)
            })),
        (forall|fields: Seq<Field>, rest: Seq<u8>|
            buf@ == #[trigger] (field_lines(fields) + crlf() + rest) && fields.len() <= max_headers
                && are_plain_fields(fields) ==> parsed_view(r) == Ok::<_, HttpParseError>(
                Some(
                    RawHeadersView {
                        block_len: (field_lines(fields) + crlf()).len(),
                        headers: fields,
                    },
                ),
            )),
        (forall|fields: Seq<Field>, rest: Seq<u8>|
            buf@ == #[trigger] (field_lines(fields) + crlf() + rest) && fields.len() > max_headers
                && are_plain_fields(fields) ==> parsed_view(r) == Err::<
                Option<RawHeadersView>,
                HttpParseError,
            >(HttpParseError::TooManyHeaders)),
        (forall|fields: Seq<Field>|
            buf@.len() < (#[trigger] field_lines(fields) + crlf()).len() && buf@ == (field_lines(fields)
                + crlf()).take(buf@.len() as int) && fields.len() <= max_headers && are_plain_fields(fields)
                ==> parsed_view(r) == Ok::<Option<RawHeadersView>, HttpParseError>(None)),
{
    let mut slots = vec![EMPTY_HEADER; max_headers];
    let Status::Complete((block_len, parsed)) = httparse::parse_headers(buf, &mut slots).map_err(|e| match e {
        E::HeaderName => HttpParseError::HeaderName,
        E::HeaderValue => HttpParseError::HeaderValue,
        E::NewLine => HttpParseError::NewLine,
        E::Status => HttpParseError::Status,
        E::Token => HttpParseError::Token,
        E::TooManyHeaders => HttpParseError::TooManyHeaders,
        E::Version => HttpParseError::Version,
    })? else { return Ok(None) };
    let headers = parsed.iter().map(|h| (h.name.as_bytes(), h.value)).collect();
    Ok(Some(RawHeaders { block_len, headers }))
}

/// `httparse::parse_chunk_size`. A chunk header ends with a line end and is no
/// longer than the buffer; the size of a header of one to sixteen hexadecimal
/// digits is read, extensions or not, and the header is incomplete as long as a
/// part of it is missing at its end; and a header that starts with `x` is refused.
#[verifier::external_body]
pub(crate) fn parse_chunk_size(buf: &[u8]) -> (r: Result<Option<(usize, u64)>, InvalidChunkSize>)
    ensures
        chunk_size_view(r) == httparse_chunk_size(buf@),
        r matches Ok(Some((n, _))) ==> 2 <= n <= buf@.len(),
        (forall|line: Seq<u8>, size: u64, rest: Seq<u8>|
            #[trigger] is_chunk_line(line, size) && buf@ == #[trigger] (line + rest)
                ==> chunk_size_view(r) == Ok::<_, InvalidChunkSize>(Some((line.len(), size)))),
        (forall|line: Seq<u8>, size: u64|
            #[trigger] is_chunk_line(line, size) && buf@.len() < line.len() && buf@ == line.take(
                buf@.len() as int,
            ) ==> chunk_size_view(r) == Ok::<Option<(nat, u64)>, InvalidChunkSize>(None)),
        buf@.len() > 0 && buf@[0] == 'x' as u8 ==> r is Err,
{
    match httparse::parse_chunk_size(buf) {
        Err(httparse::InvalidChunkSize) => Err(InvalidChunkSize),
        Ok(Status::Partial) => Ok(None),
        Ok(Status::Complete((header_len, size))) => Ok(Some((header_len, size))),
    }
}

/// A field is written as its name, a colon and a space, its value, and the end of a line;
/// fields, one after the other.
pub proof fn fields_are_written_one_to_a_line(fields: Seq<Field>, f: Field)
    ensures
        field_lines(Seq::empty()) == Seq::<u8>::empty(),
        field_lines(fields.push(f)) == field_lines(fields) + f.0 + seq![':' as u8, ' ' as u8] + f.1
            + seq![13u8, 10u8],
{
    reveal_strlit(": ");
    assert(fields.push(f).drop_last() =~= fields);
    assert(ascii(": ") =~= seq![':' as u8, ' ' as u8]);
    assert(crlf() =~= seq![13u8, 10u8]);
}

/// A head is a first line, the lines of the fields, and an empty line. The first line of a
/// request holds the method, the target and the version; that of a response, the version,
/// the code in decimal, and the reason.
pub proof fn heads_start_with_their_first_line(
    method: Seq<u8>,
    path: Seq<u8>,
    code: u16,
    reason: Seq<u8>,
    fields: Seq<Field>,
    version: HttpVersion,
)
    ensures
        ({
            let digit = if version == HttpVersion::Http10 {
                '0' as u8
            } else {
                '1' as u8
            };
            let name = seq![
                'H' as u8,
                'T' as u8,
                'T' as u8,
                'P' as u8,
                '/' as u8,
                '1' as u8,
                '.' as u8,
                digit,
            ];
            let end = seq![13u8, 10u8];
            let space = seq![' ' as u8];
            &&& versioned_request_text(version, method, path, fields) == method + space + path
                + space + name + end + field_lines(fields) + end
            &&& versioned_response_text(version, code, reason, fields) == name + space + decimal(
                code as nat,
            ) + space + reason + end + field_lines(fields) + end
        }),
{
    reveal_strlit(" ");
    reveal_strlit(" HTTP/1.0");
    reveal_strlit(" HTTP/1.1");
    reveal_strlit("HTTP/1.0 ");
    reveal_strlit("HTTP/1.1 ");
    let digit = if version == HttpVersion::Http10 {
        '0' as u8
    } else {
        '1' as u8
    };
    let name = seq![
        'H' as u8,
        'T' as u8,
        'T' as u8,
        'P' as u8,
        '/' as u8,
        '1' as u8,
        '.' as u8,
        digit,
    ];
    let space = seq![' ' as u8];
    let end = seq![13u8, 10u8];
    assert(ascii(" ") =~= space);
    assert(crlf() =~= end);
    let before = match version {
        HttpVersion::Http10 => ascii("HTTP/1.0 "),
        HttpVersion::Http11 => ascii("HTTP/1.1 "),
    };
    let behind = match version {
        HttpVersion::Http10 => ascii(" HTTP/1.0"),
        HttpVersion::Http11 => ascii(" HTTP/1.1"),
    };
    assert(before =~= name + space);
    assert(behind =~= space + name);
    assert(method + space + path + (space + name) =~= method + space + path + space + name);
}

} // verus!
