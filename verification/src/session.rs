//! What the proxy decides of a request before and after it is forwarded.
use vstd::prelude::*;
use vstd::string::*;

use crate::body::body_reader::BodyReadMode;
use crate::frontend::error::FrontendError;
use crate::http_message::framing::WriteFraming;
use crate::http_message::header::find_field;
use crate::http_message::message::{
    BuildError, Request, Response, ResponseBuilder, ResponseBuilderView,
};
use crate::http_message::version::HttpVersion;
use crate::text::{ascii, ascii_bytes, same_bytes};

verus! {

/// What becomes of a request.
#[derive(Debug, Clone, Copy)]
pub enum Admission {
    /// The request is forwarded.
    Forward,
    /// The request is answered with this code, reason and message.
    Refuse { code: u16, reason: &'static str, message: &'static str },
}

/// Decide what becomes of a request: one without a host is refused.
pub fn examine(req: &Request) -> (r: Admission)
    ensures
        match r {
            Admission::Forward => find_field(req@.headers, ascii("host")) is Some,
            Admission::Refuse { code, reason, message } => {
                &&& find_field(req@.headers, ascii("host")) is None
                &&& code == 400
                &&& reason@ == "Bad Request"@
                &&& message@ == "missing host header"@
            },
        },
{
    proof {
        reveal_strlit("host");
        is_ascii_spec_bytes("host");
        assert("host".spec_bytes() =~= ascii("host"));
    }
    match req.headers().get_header("host") {
        Some(_host) => Admission::Forward,
        None => Admission::Refuse {
            code: 400,
            reason: "Bad Request",
            message: "missing host header",
        },
    }
}

/// What the head of an answer of the proxy itself is built from.
pub open spec fn answer_builder(
    req: crate::http_message::message::RequestView,
    code: u16,
    reason: Seq<char>,
) -> ResponseBuilderView {
    ResponseBuilderView {
        version: Some(req.version),
        code: Some(code),
        reason: Some(reason),
        headers: seq![("content-type"@, ascii("text-plain"))],
    }
}

/// The head of an answer of the proxy itself, in the version of the request, and
/// the length of the body that is to follow it.
pub fn answer(req: &Request, code: u16, reason: &str, message: &str) -> (r: Result<
    (Response, u64),
    BuildError,
>)
    ensures
        match (r, answer_builder(req@, code, reason@).build()) {
            (Ok((res, body_len)), Ok(v)) => res@ == v && body_len == message.spec_bytes().len(),
            (Err(e), Err(f)) => e@ == f,
            _ => false,
        },
{
    proof {
        reveal_strlit("text-plain");
    }
    let mut b = ResponseBuilder::new(8);
    b.with_code(code);
    b.with_reason(reason);
    b.with_version(req.version());
    b.with_header("content-type", ascii_bytes("text-plain"));
    assert(b@.headers =~= answer_builder(req@, code, reason@).headers);
    match b.build() {
        Ok(res) => Ok((res, message.as_bytes().len() as u64)),
        Err(e) => Err(e),
    }
}

/// How a request is framed when it is forwarded: as it came.
pub fn forward_framing(mode: BodyReadMode) -> (f: WriteFraming)
    ensures
        f == (match mode {
            BodyReadMode::ContentLength(cl) => WriteFraming::Length(cl),
            BodyReadMode::Chunk => WriteFraming::Chunked,
            BodyReadMode::Bodyless => WriteFraming::StripFraming,
            BodyReadMode::Eof => WriteFraming::StripFraming,
        }),
{
    match mode {
        BodyReadMode::ContentLength(cl) => WriteFraming::Length(cl),
        BodyReadMode::Chunk => WriteFraming::Chunked,
        BodyReadMode::Bodyless | BodyReadMode::Eof => WriteFraming::StripFraming,
    }
}

/// Whether a response to the request can have a body: a `HEAD` or `CONNECT`
/// request is answered without one, whatever the headers of the response say.
pub fn expects_body(req: &Request) -> (r: bool)
    ensures
        r == (req@.method != ascii("HEAD") && req@.method != ascii("CONNECT")),
{
    proof {
        reveal_strlit("HEAD");
        reveal_strlit("CONNECT");
    }
    let method: &[u8] = req.method();
    !same_bytes(method, ascii_bytes("HEAD")) && !same_bytes(method, ascii_bytes("CONNECT"))
}

/// How a response is handed on to the client.
#[derive(Debug, Clone, Copy, PartialEq, Eq, Structural)]
pub enum Reply {
    /// Without a body and without framing headers.
    NoContent,
    /// Without a body, with the framing headers that it came with.
    Bodyless,
    /// With a body of this length.
    ContentLength(u64),
    /// With a chunked body.
    Chunked,
    /// With a body that ends with the connection.
    UntilClose,
}

/// Decide how a response is handed on to a client of this version. A client
/// that cannot decode chunks gets a body that ends with the connection.
pub fn reply(version: HttpVersion, code: u16, mode: BodyReadMode) -> (r: Reply)
    ensures
        r == (if code == 204 {
            Reply::NoContent
        } else {
            match mode {
                BodyReadMode::Bodyless => Reply::Bodyless,
                BodyReadMode::ContentLength(n) => Reply::ContentLength(n),
                BodyReadMode::Chunk | BodyReadMode::Eof => match version {
                    HttpVersion::Http11 => Reply::Chunked,
                    HttpVersion::Http10 => Reply::UntilClose,
                },
            }
        }),
{
    if code == 204 {
        return Reply::NoContent;
    }
    match mode {
        BodyReadMode::Bodyless => Reply::Bodyless,
        BodyReadMode::ContentLength(n) => Reply::ContentLength(n),
        BodyReadMode::Chunk | BodyReadMode::Eof => match version {
            HttpVersion::Http11 => Reply::Chunked,
            HttpVersion::Http10 => Reply::UntilClose,
        },
    }
}

/// Whether a session that ends with this error has just run out of requests,
/// which is no failure.
pub fn ends_quietly(e: &FrontendError) -> (r: bool)
    ensures
        r == (*e is FirstReadEOF),
{
    match e {
        FrontendError::FirstReadEOF => true,
        _ => false,
    }
}

/// A request is forwarded exactly where one of its fields is named `host`, in any case; any
/// other is answered with the code 400.
pub proof fn requests_need_a_host(req: &Request, r: Admission)
    requires
        call_ensures(examine, (req,), r),
    ensures
        (r is Forward) == (exists|i: int|
            0 <= i < req@.headers.len() && crate::text::same_ignoring_case(
                ascii("host"),
                (#[trigger] req@.headers[i]).0,
            )),
        r matches Admission::Refuse { code, .. } ==> code == 400,
{
    crate::http_message::header::first_of_the_name_is_found(req@.headers, ascii("host"));
    if let Some(i) = find_field(req@.headers, ascii("host")) {
        assert(crate::text::same_ignoring_case(ascii("host"), req@.headers[i as int].0));
    }
}

/// An answer of the proxy itself has the version of the request, and the code and the reason
/// that were given, and states the length of the message that follows it. It can be built
/// exactly where the reason is made of the bytes of a field value.
pub proof fn answers_say_what_was_given(
    req: &Request,
    code: u16,
    reason: &str,
    message: &str,
    r: Result<(Response, u64), BuildError>,
)
    requires
        call_ensures(answer, (req, code, reason, message), r),
    ensures
        r is Ok <==> crate::parse::is_field_value(vstd::utf8::encode_utf8(reason@)),
        r matches Ok((res, n)) ==> {
            &&& res@.version == req@.version
            &&& res@.code == code
            &&& res@.reason == vstd::utf8::encode_utf8(reason@)
            &&& res@.headers.len() == 1
            &&& res@.headers[0] == (ascii("content-type"), ascii("text-plain"))
            &&& n == message.spec_bytes().len()
        },
        r matches Err(e) ==> e@ == crate::http_message::message::BuildErrorView::InvalidReason(
            reason@,
        ),
{
    let b = answer_builder(req@, code, reason@);
    reveal_strlit("content-type");
    reveal_strlit("text-plain");
    is_ascii_spec_bytes("content-type");
    assert("content-type".spec_bytes() =~= ascii("content-type"));
    reveal_with_fuel(crate::http_message::message::check_built, 2);
    let name = ascii("content-type");
    assert forall|i: int| 0 <= i < name.len() implies crate::parse::is_tchar(#[trigger] name[i]) by {}
    let value = ascii("text-plain");
    assert forall|i: int| 0 <= i < value.len() implies crate::parse::is_field_byte(
        #[trigger] value[i],
    ) by {}
    assert(b.headers.skip(1).len() == 0);
}

/// A request is forwarded with the framing that it came with; a response may have a body
/// unless the method of its request, in capitals, is HEAD or CONNECT; and a session ends
/// quietly only where no byte of another request came.
pub proof fn requests_are_forwarded_as_they_came(
    mode: BodyReadMode,
    f: WriteFraming,
    req: &Request,
    expects: bool,
    e: &FrontendError,
    quiet: bool,
)
    requires
        call_ensures(forward_framing, (mode,), f),
        call_ensures(expects_body, (req,), expects),
        call_ensures(ends_quietly, (e,), quiet),
    ensures
        mode matches BodyReadMode::ContentLength(n) ==> f == WriteFraming::Length(n),
        mode == BodyReadMode::Chunk <==> f == WriteFraming::Chunked,
        mode == BodyReadMode::Bodyless || mode == BodyReadMode::Eof <==> f
            == WriteFraming::StripFraming,
        !expects <==> req@.method == seq!['H' as u8, 'E' as u8, 'A' as u8, 'D' as u8] || req@.method
            == seq![
            'C' as u8,
            'O' as u8,
            'N' as u8,
            'N' as u8,
            'E' as u8,
            'C' as u8,
            'T' as u8,
        ],
        quiet <==> *e is FirstReadEOF,
{
    reveal_strlit("HEAD");
    reveal_strlit("CONNECT");
    assert(ascii("HEAD") =~= seq!['H' as u8, 'E' as u8, 'A' as u8, 'D' as u8]);
    assert(ascii("CONNECT") =~= seq![
        'C' as u8,
        'O' as u8,
        'N' as u8,
        'N' as u8,
        'E' as u8,
        'C' as u8,
        'T' as u8,
    ]);
}

/// A response is handed on with the length that it came with; one of chunks, or one that ends
/// with the connection, is handed on in chunks to a client of the later version, and to the
/// end of the connection to one of the earlier. Whatever its code, a response that came with
/// a body is handed on with one, but for the code 204, which never has one.
pub proof fn replies_keep_the_body(version: HttpVersion, code: u16, mode: BodyReadMode, r: Reply)
    requires
        call_ensures(reply, (version, code, mode), r),
    ensures
        code == 204 <==> r == Reply::NoContent,
        code != 204 ==> (mode == BodyReadMode::Bodyless <==> r == Reply::Bodyless),
        code != 204 ==> (mode matches BodyReadMode::ContentLength(n) ==> r
            == Reply::ContentLength(n)),
        code != 204 && (mode == BodyReadMode::Chunk || mode == BodyReadMode::Eof) ==> (version
            == HttpVersion::Http11 <==> r == Reply::Chunked),
        code != 204 && (mode == BodyReadMode::Chunk || mode == BodyReadMode::Eof) ==> (version
            == HttpVersion::Http10 <==> r == Reply::UntilClose),
{
}

} // verus!
