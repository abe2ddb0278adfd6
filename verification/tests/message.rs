use bytes::Bytes;
use jrpxy::http_message::framing::{
    is_framing_header, ParsedFraming, WriteFraming,
};
use jrpxy::http_message::head::{write_request_to, write_response_to};
use jrpxy::http_message::header::{ConnectionTokenParserError, HeaderError, HeaderIter, Headers};
use jrpxy::http_message::message::{
    BuildError, MessageError, ParseSlots, Request, RequestBuilder, Response, ResponseBuilder,
};
use jrpxy::http_message::raw::{HttpParseError, RawRequest, RawResponse};
use jrpxy::http_message::version::HttpVersion;
use jrpxy::io_buffer::BytesReader;
use jrpxy::parse::{
    is_valid_field_name, is_valid_field_value, is_valid_field_vchar, is_valid_request_target,
    is_valid_tchar, validate_origin_form, OriginFormError,
};
use jrpxy::text::{
    decimal_bytes, eq_ignore_ascii_case, hex_bytes, parse_u64, trim_ascii,
};

fn headers_of(pairs: &[(&'static str, &'static str)]) -> Headers {
    let mut headers = Headers::with_capacity(pairs.len());
    for (n, v) in pairs {
        headers.push(
            Bytes::from_static(n.as_bytes()),
            Bytes::from_static(v.as_bytes()),
        );
    }
    headers
}

#[test]
fn reject_message_with_both_cl_and_te_headers() {
    let mut headers = Headers::with_capacity(2);
    headers.push(
        Bytes::from_static(b"content-length"),
        Bytes::from_static(b"6"),
    );
    headers.push(
        Bytes::from_static(b"transfer-encoding"),
        Bytes::from_static(b"chunked"),
    );

    assert!(
        headers.framing().is_err(),
        "Requests with both content-length and transfer-encoding must be rejected"
    );
    assert!(matches!(headers.framing(), Err(HeaderError::BothTeAndCl)));
}

#[test]
fn reject_message_with_multiple_cl_headers() {
    let mut headers = Headers::with_capacity(2);
    headers.push(
        Bytes::from_static(b"content-length"),
        Bytes::from_static(b"6"),
    );
    headers.push(
        Bytes::from_static(b"content-length"),
        Bytes::from_static(b"5"),
    );

    assert!(
        headers.framing().is_err(),
        "Requests with multiple Content-Length headers must be rejected"
    );
    assert!(matches!(
        headers.framing(),
        Err(HeaderError::MultipleContentLength(6, 5))
    ));
}

#[test]
fn reject_message_with_multiple_te_headers() {
    let mut headers = Headers::with_capacity(2);
    headers.push(
        Bytes::from_static(b"transfer-encoding"),
        Bytes::from_static(b"chunked"),
    );
    headers.push(
        Bytes::from_static(b"transfer-encoding"),
        Bytes::from_static(b"chunked"),
    );

    assert!(
        headers.framing().is_err(),
        "Requests with multiple Content-Length headers must be rejected"
    );
    assert!(matches!(
        headers.framing(),
        Err(HeaderError::MultipleTransferEncodingHeaders)
    ));
}

#[test]
fn build_with_invalid_method() {
    let mut b = RequestBuilder::new(0);
    b.with_method("METHOD SPACE")
        .with_path("/")
        .with_version(HttpVersion::Http11);
    let req = b.build().unwrap_err();
    match &req {
        BuildError::InvalidMethod(v) if v == "METHOD SPACE" => {}
        _ => panic!("unexpected error: {req:?}"),
    }
}

#[test]
fn set_origin_form_path_round_trip() {
    let mut req = RequestBuilder::new(0)
        .with_method("GET")
        .with_path("/old")
        .with_version(HttpVersion::Http11)
        .build()
        .unwrap();
    req.set_origin_form_path(Bytes::from_static(b"/new?q=1"))
        .unwrap();
    assert_eq!(req.path().as_ref(), b"/new?q=1");
}

#[test]
fn set_origin_form_path_rejects_absolute_form() {
    let mut req = RequestBuilder::new(0)
        .with_method("GET")
        .with_path("/")
        .with_version(HttpVersion::Http11)
        .build()
        .unwrap();
    let err = req
        .set_origin_form_path(Bytes::from_static(b"http://example.com/"))
        .unwrap_err();
    assert!(matches!(err, OriginFormError::NotAbsolutePath));
    assert_eq!(req.path().as_ref(), b"/");
}

#[test]
fn request_build_rejects_crlf_in_path() {
    let mut b = RequestBuilder::new(0);
    b.with_method("GET")
        .with_path("/foo\r\nHost: evil")
        .with_version(HttpVersion::Http11);
    assert!(matches!(b.build(), Err(BuildError::InvalidPath(_))));
}

#[test]
fn request_build_rejects_crlf_in_header_value() {
    let mut b = RequestBuilder::new(1);
    b.with_method("GET")
        .with_path("/")
        .with_version(HttpVersion::Http11)
        .with_header("X-Trace", b"a\r\nInjected: 1");
    assert!(matches!(b.build(), Err(BuildError::InvalidFieldValue(_))));
}

#[test]
fn response_build_rejects_crlf_in_reason() {
    let mut b = ResponseBuilder::new(0);
    b.with_version(HttpVersion::Http11)
        .with_code(200)
        .with_reason("OK\r\nInjected: 1");
    assert!(matches!(b.build(), Err(BuildError::InvalidReason(_))));
}

#[test]
fn response_build_rejects_crlf_in_header_name() {
    let mut b = ResponseBuilder::new(1);
    b.with_version(HttpVersion::Http11)
        .with_code(200)
        .with_reason("OK")
        .with_header("bad\r\nname", b"v");
    assert!(matches!(b.build(), Err(BuildError::InvalidFieldName(_))));
}

#[test]
fn builders_tell_what_is_missing() {
    let mut b = RequestBuilder::default();
    assert!(matches!(b.build(), Err(BuildError::MissingMethod)));
    b.with_method("GET");
    assert!(matches!(b.build(), Err(BuildError::MissingPath)));
    b.with_path("/");
    assert!(matches!(b.build(), Err(BuildError::MissingVersion)));
    b.with_version(HttpVersion::Http10);
    assert!(b.build().is_ok());

    let mut b = ResponseBuilder::default();
    assert!(matches!(b.build(), Err(BuildError::MissingVersion)));
    b.with_version(HttpVersion::Http11);
    assert!(matches!(b.build(), Err(BuildError::MissingCode)));
    b.with_code(204);
    assert!(matches!(b.build(), Err(BuildError::MissingResult)));
    b.with_reason("No Content");
    let res = b.build().unwrap();
    assert_eq!(res.code(), 204);
    assert_eq!(res.reason().as_ref(), b"No Content");
}

#[test]
fn built_request_has_what_it_was_given() {
    let req = RequestBuilder::new(2)
        .with_method("POST")
        .with_path("/a?b=c")
        .with_version(HttpVersion::Http10)
        .with_header("Host", b"example")
        .with_header("X", b"\xff\t ")
        .build()
        .unwrap();
    assert_eq!(req.method().as_ref(), b"POST");
    assert_eq!(req.path().as_ref(), b"/a?b=c");
    assert_eq!(req.version(), HttpVersion::Http10);
    assert_eq!(req.headers().len(), 2);
    assert_eq!(req.headers().field(0), (&b"Host"[..], &b"example"[..]));
    assert_eq!(req.headers().field(1), (&b"X"[..], &b"\xff\t "[..]));
}

#[test]
fn an_empty_method_is_built() {
    assert!(RequestBuilder::new(0)
        .with_method("")
        .with_path("/")
        .with_version(HttpVersion::Http11)
        .build()
        .is_ok());
    assert!(matches!(
        RequestBuilder::new(0)
            .with_method("GET")
            .with_path("")
            .with_version(HttpVersion::Http11)
            .build(),
        Err(BuildError::InvalidPath(_))
    ));
}

#[test]
fn framing_of_headers() {
    assert_eq!(
        headers_of(&[("Host", "x")]).framing().unwrap(),
        ParsedFraming::NoFraming
    );
    assert_eq!(
        headers_of(&[("Content-LENGTH", " 42\t")]).framing().unwrap(),
        ParsedFraming::Length(42)
    );
    assert_eq!(
        headers_of(&[("content-length", "+7")]).framing().unwrap(),
        ParsedFraming::Length(7)
    );
    assert_eq!(
        headers_of(&[("content-length", "18446744073709551615")])
            .framing()
            .unwrap(),
        ParsedFraming::Length(u64::MAX)
    );
    assert_eq!(
        headers_of(&[("Transfer-Encoding", " chunked ")])
            .framing()
            .unwrap(),
        ParsedFraming::Chunked
    );
    match headers_of(&[("content-length", "18446744073709551616")]).framing() {
        Err(HeaderError::InvalidContentLength(s)) => assert_eq!(s, "18446744073709551616"),
        other => panic!("{other:?}"),
    }
    match headers_of(&[("content-length", " 1x ")]).framing() {
        Err(HeaderError::InvalidContentLength(s)) => assert_eq!(s, "1x"),
        other => panic!("{other:?}"),
    }
    match headers_of(&[("transfer-encoding", "gzip, chunked")]).framing() {
        Err(HeaderError::UnsupportedTransferEncoding(s)) => assert_eq!(s, "gzip, chunked"),
        other => panic!("{other:?}"),
    }
    let mut headers = Headers::default();
    headers.push(
        Bytes::from_static(b"content-length"),
        Bytes::from_static(b"\xff5"),
    );
    match headers.framing() {
        Err(HeaderError::InvalidContentLength(s)) => assert_eq!(s, "\u{fffd}5"),
        other => panic!("{other:?}"),
    }
    // the same length twice is refused too
    assert!(matches!(
        headers_of(&[("content-length", "5"), ("content-length", "5")]).framing(),
        Err(HeaderError::MultipleContentLength(5, 5))
    ));
}

#[test]
fn framing_instructions() {
    assert!(ParsedFraming::NoFraming.is_no_framing());
    assert!(!ParsedFraming::Chunked.is_no_framing());
    assert!(WriteFraming::PreserveFraming.preserves_framing());
    assert!(!WriteFraming::StripFraming.preserves_framing());
    assert_eq!(
        WriteFraming::from(ParsedFraming::Length(3)),
        WriteFraming::Length(3)
    );
    assert_eq!(
        WriteFraming::from(ParsedFraming::Chunked),
        WriteFraming::Chunked
    );
    assert_eq!(
        WriteFraming::from(ParsedFraming::NoFraming),
        WriteFraming::PreserveFraming
    );
    assert!(is_framing_header(b"CONTENT-length"));
    assert!(is_framing_header(b"Transfer-Encoding"));
    assert!(!is_framing_header(b"Content-Type"));
}

#[test]
fn get_header_is_the_first_in_any_case() {
    let headers = headers_of(&[("A", "1"), ("Host", "2"), ("hOST", "3")]);
    assert_eq!(headers.get_header("host").unwrap().as_ref(), b"2");
    assert!(headers.get_header("hos").is_none());
    let mut it = headers.iter();
    assert_eq!(it.next().unwrap().0.as_ref(), b"A");
    assert_eq!(it.next().unwrap().1.as_ref(), b"2");
    assert_eq!(it.next().unwrap().1.as_ref(), b"3");
    assert!(it.next().is_none());
    assert!(it.next().is_none());
    assert!(HeaderIter::new(&[]).next().is_none());
}

#[test]
fn remove_splits_in_order() {
    let mut headers = headers_of(&[("a", "1"), ("x-b", "2"), ("c", "3"), ("x-d", "4")]);
    let removed = headers.remove(|p: &(Bytes, Bytes)| p.0.starts_with(b"x-"));
    let removed = removed.into_inner();
    assert_eq!(removed.len(), 2);
    assert_eq!(removed[0].1.as_ref(), b"2");
    assert_eq!(removed[1].1.as_ref(), b"4");
    let kept = headers.into_inner();
    assert_eq!(kept.len(), 2);
    assert_eq!(kept[0].1.as_ref(), b"1");
    assert_eq!(kept[1].1.as_ref(), b"3");

    let mut req = RequestBuilder::new(2)
        .with_method("GET")
        .with_path("/")
        .with_version(HttpVersion::Http11)
        .with_header("a", b"1")
        .with_header("b", b"2")
        .build()
        .unwrap();
    let removed = req.remove_headers(|p: &(Bytes, Bytes)| p.0.as_ref() == b"a");
    assert_eq!(removed.len(), 1);
    assert_eq!(req.headers().field(0), (&b"b"[..], &b"2"[..]));
    req.headers_mut()
        .push(Bytes::from_static(b"c"), Bytes::from_static(b"3"));
    assert_eq!(req.headers().len(), 2);
}

#[test]
fn connection_persistence() {
    let p = |pairs: &[(&'static str, &'static str)], v| headers_of(pairs).connection_is_persistent(v);
    assert_eq!(p(&[], HttpVersion::Http11), Ok(true));
    assert_eq!(p(&[], HttpVersion::Http10), Ok(false));
    assert_eq!(
        p(&[("Connection", "Keep-Alive")], HttpVersion::Http10),
        Ok(true)
    );
    assert_eq!(p(&[("connection", "close")], HttpVersion::Http11), Ok(false));
    assert_eq!(
        p(
            &[("connection", "upgrade ,, CLOSE"), ("connection", "keep-alive")],
            HttpVersion::Http11
        ),
        Ok(false)
    );
    assert_eq!(
        p(&[("connection", "a b")], HttpVersion::Http11),
        Err(ConnectionTokenParserError::InvalidToken)
    );
}

#[test]
fn versions() {
    assert_eq!(HttpVersion::default(), HttpVersion::Http11);
    assert_eq!(HttpVersion::Http10.to_static(), "HTTP/1.0");
    assert_eq!(HttpVersion::Http11.to_static(), "HTTP/1.1");
    assert!(!HttpVersion::Http10.supports_informational_response());
    assert!(HttpVersion::Http11.supports_informational_response());
    assert_eq!(HttpVersion::try_from(0u8), Ok(HttpVersion::Http10));
    assert_eq!(HttpVersion::try_from(&1u8), Ok(HttpVersion::Http11));
    assert_eq!(HttpVersion::try_from(2u8), Err(2));
}

#[test]
fn parse_request_off_a_buffer() {
    let mut reader = BytesReader::from_parts((), b"GET /x HTTP/1.0\r\nHost:  a \r\n\r\nrest".to_vec());
    let mut slots = ParseSlots::default();
    let req = slots.parse_request(&mut reader).unwrap().unwrap();
    assert_eq!(req.method().as_ref(), b"GET");
    assert_eq!(req.path().as_ref(), b"/x");
    assert_eq!(req.version(), HttpVersion::Http10);
    assert_eq!(req.headers().field(0), (&b"Host"[..], &b"a"[..]));
    assert_eq!(reader.as_bytes(), b"rest");

    let mut reader = BytesReader::from_parts((), b"GET /x HTTP/1.1\r\nHost".to_vec());
    assert!(slots.parse_request(&mut reader).unwrap().is_none());
    assert_eq!(reader.len(), 21);

    let mut reader = BytesReader::from_parts((), b"GET /x HTTP/1.1\r\nA:1\r\nB:2\r\n\r\n".to_vec());
    let mut one = ParseSlots::new(1);
    assert!(matches!(
        one.parse_request(&mut reader),
        Err(MessageError::Parse(HttpParseError::TooManyHeaders))
    ));
    let errors = [
        (&b"GET\x01/ HTTP/1.1\r\n\r\n"[..], HttpParseError::Token),
        (&b"GET / HTTP/2.0\r\n\r\n"[..], HttpParseError::Version),
        (&b"GET / HTTP/1.1\rX\r\n"[..], HttpParseError::NewLine),
        (&b"GET / HTTP/1.1\r\nA B: 1\r\n\r\n"[..], HttpParseError::HeaderName),
        (&b"GET / HTTP/1.1\r\nA: \x01\r\n\r\n"[..], HttpParseError::HeaderValue),
    ];
    for (input, expected) in errors {
        let mut reader = BytesReader::from_parts((), input.to_vec());
        match slots.parse_request(&mut reader) {
            Err(MessageError::Parse(e)) => assert_eq!(e, expected),
            other => panic!("{other:?}"),
        }
    }
}

#[test]
fn parse_response_off_a_buffer() {
    let mut reader =
        BytesReader::from_parts((), b"HTTP/1.1 404 Not Found\r\nA: b\r\n\r\nbody".to_vec());
    let mut slots = ParseSlots::default();
    let mut res = slots.parse_response(&mut reader).unwrap().unwrap();
    assert_eq!(res.version(), HttpVersion::Http11);
    assert_eq!(res.code(), 404);
    assert_eq!(res.reason().as_ref(), b"Not Found");
    assert_eq!(res.headers().field(0), (&b"A"[..], &b"b"[..]));
    assert_eq!(res.is_informational(), None);
    assert_eq!(res.framing().unwrap(), ParsedFraming::NoFraming);
    assert_eq!(reader.as_bytes(), b"body");
    res.headers_mut()
        .push(Bytes::from_static(b"content-length"), Bytes::from_static(b"4"));
    assert_eq!(res.framing().unwrap(), ParsedFraming::Length(4));

    let mut reader = BytesReader::from_parts((), b"HTTP/1.1 2x0 Ok\r\n\r\n".to_vec());
    assert!(matches!(
        slots.parse_response(&mut reader),
        Err(MessageError::Parse(HttpParseError::Status))
    ));
    let mut reader = BytesReader::from_parts((), b"HTTP/1.1 100\r\n\r\n".to_vec());
    let res = slots.parse_response(&mut reader).unwrap().unwrap();
    assert_eq!(res.is_informational(), Some(100));
    assert_eq!(res.reason().as_ref(), b"");
}

#[test]
fn the_slot_count_is_a_maximum() {
    let heads = [
        &b"GET / HTTP/1.0\r\nA:1\r\nB:  2 \r\nC: 3\r\n\r\n"[..],
        &b"HTTP/1.1 200\r\nA:1\r\nB:  2 \r\nC: 3\r\n\r\n"[..],
        &b"A:1\r\nB:  2 \r\nC: 3\r\n\r\n"[..],
    ];
    for n in 0..6 {
        let mut slots = ParseSlots::new(n);
        let mut reader = BytesReader::from_parts((), heads[0].to_vec());
        let req = slots.parse_request(&mut reader).map(|m| m.unwrap().headers().len());
        let mut reader = BytesReader::from_parts((), heads[1].to_vec());
        let res = slots.parse_response(&mut reader).map(|m| m.unwrap().headers().len());
        let mut reader = BytesReader::from_parts((), heads[2].to_vec());
        let block = slots.parse_headers(&mut reader).map(|m| m.unwrap().len());
        for r in [req, res, block] {
            if n >= 3 {
                assert_eq!(r.unwrap(), 3);
            } else {
                assert!(matches!(
                    r,
                    Err(MessageError::Parse(HttpParseError::TooManyHeaders))
                ));
            }
        }
    }
}

#[test]
fn parse_headers_off_a_buffer() {
    let mut slots = ParseSlots::default();
    let mut reader = BytesReader::from_parts((), b"a: 1\r\nb: 2\r\n\r\nrest".to_vec());
    let headers = slots.parse_headers(&mut reader).unwrap().unwrap();
    assert_eq!(headers.len(), 2);
    assert_eq!(headers.field(1), (&b"b"[..], &b"2"[..]));
    assert_eq!(reader.as_bytes(), b"rest");
    let mut reader = BytesReader::from_parts((), b"a: 1\r\n".to_vec());
    assert!(slots.parse_headers(&mut reader).unwrap().is_none());
    let mut reader = BytesReader::from_parts((), b"\r\n".to_vec());
    assert_eq!(slots.parse_headers(&mut reader).unwrap().unwrap().len(), 0);
}

#[test]
fn messages_from_parsed_heads() {
    let raw = RawRequest {
        head_len: 9,
        method: Some(b"PUT"),
        path: None,
        version: Some(1),
        headers: vec![(b"a", b"1")],
    };
    let (req, head_len) = Request::from_raw(Ok(Some(raw))).unwrap().unwrap();
    assert_eq!(head_len, 9);
    assert_eq!(req.method().as_ref(), b"PUT");
    assert_eq!(req.path().as_ref(), b"");
    assert_eq!(req.headers().field(0), (&b"a"[..], &b"1"[..]));
    let raw = RawRequest {
        head_len: 9,
        method: None,
        path: None,
        version: Some(3),
        headers: vec![],
    };
    assert!(matches!(
        Request::from_raw(Ok(Some(raw))),
        Err(MessageError::HttpVersion(3))
    ));
    assert!(Request::from_raw(Ok(None)).unwrap().is_none());
    let raw = RawResponse {
        head_len: 2,
        version: None,
        code: Some(201),
        reason: Some(b"Created"),
        headers: vec![],
    };
    let (res, _) = Response::from_raw(Ok(Some(raw))).unwrap().unwrap();
    assert_eq!(res.version(), HttpVersion::Http10);
    assert_eq!(res.code(), 201);
    assert_eq!(res.reason().as_ref(), b"Created");
    assert!(matches!(
        Response::from_raw(Err(HttpParseError::Status)),
        Err(MessageError::Parse(HttpParseError::Status))
    ));
}

#[test]
fn heads_on_the_wire() {
    let res = Response::from_parts(
        HttpVersion::Http10,
        200,
        Bytes::from_static(b"Ok"),
        headers_of(&[("a", "1"), ("Content-Length", "9"), ("b", "2")]),
    );
    assert_eq!(
        write_response_to(&res, WriteFraming::Length(18446744073709551615)),
        b"HTTP/1.1 200 Ok\r\na: 1\r\nb: 2\r\ncontent-length: 18446744073709551615\r\n\r\n"
    );
    assert_eq!(
        write_response_to(&res, WriteFraming::Chunked),
        b"HTTP/1.1 200 Ok\r\na: 1\r\nb: 2\r\ntransfer-encoding: chunked\r\n\r\n"
    );
    assert_eq!(
        write_response_to(&res, WriteFraming::PreserveFraming),
        b"HTTP/1.1 200 Ok\r\na: 1\r\nContent-Length: 9\r\nb: 2\r\n\r\n"
    );
    assert_eq!(
        write_response_to(&res, WriteFraming::StripFraming),
        b"HTTP/1.1 200 Ok\r\na: 1\r\nb: 2\r\n\r\n"
    );
    let req = Request::from_parts(
        Bytes::from_static(b"GET"),
        Bytes::from_static(b"/"),
        HttpVersion::Http10,
        headers_of(&[("TRANSFER-encoding", "chunked"), ("a", "1")]),
    );
    assert_eq!(
        write_request_to(&req, WriteFraming::PreserveFraming),
        b"GET / HTTP/1.1\r\na: 1\r\n\r\n"
    );
    assert_eq!(
        write_request_to(&req, WriteFraming::Length(0)),
        b"GET / HTTP/1.1\r\na: 1\r\ncontent-length: 0\r\n\r\n"
    );
}

#[test]
fn a_written_head_is_parsed_back_with_its_framing() {
    for (framing, expected) in [
        (WriteFraming::Length(7), ParsedFraming::Length(7)),
        (WriteFraming::Chunked, ParsedFraming::Chunked),
        (WriteFraming::StripFraming, ParsedFraming::NoFraming),
    ] {
        let res = Response::from_parts(
            HttpVersion::Http11,
            200,
            Bytes::from_static(b"Ok"),
            headers_of(&[("content-length", "1"), ("content-length", "2"), ("a", "1")]),
        );
        let mut reader = BytesReader::from_parts((), write_response_to(&res, framing));
        let back = ParseSlots::default()
            .parse_response(&mut reader)
            .unwrap()
            .unwrap();
        assert_eq!(back.framing().unwrap(), expected);
        assert_eq!(back.headers().field(0), (&b"a"[..], &b"1"[..]));
        assert!(reader.is_empty());
    }
}

#[test]
fn character_classes() {
    for b in 0u8..=255 {
        let c = b as char;
        assert_eq!(
            is_valid_tchar(b),
            c.is_ascii_alphanumeric() || "!#$%&'*+-.^_`|~".contains(c),
            "{b}"
        );
        assert_eq!(
            is_valid_field_vchar(b),
            (0x21..=0x7e).contains(&b) || b >= 0x80,
            "{b}"
        );
    }
    assert!(!is_valid_field_name(b""));
    assert!(is_valid_field_name(b"X-A"));
    assert!(!is_valid_field_name(b"X A"));
    assert!(is_valid_field_value(b""));
    assert!(is_valid_field_value(b" a\tb\xff"));
    assert!(!is_valid_field_value(b"a\x00"));
    assert!(!is_valid_field_value(b"a\x7f"));
    assert!(is_valid_request_target(b"*"));
    assert!(!is_valid_request_target(b""));
    assert!(!is_valid_request_target(b"/a b"));
    assert_eq!(validate_origin_form(b"/a/b?c=d&e"), Ok(()));
    assert_eq!(
        validate_origin_form(b""),
        Err(OriginFormError::NotAbsolutePath)
    );
    assert_eq!(
        validate_origin_form(b"/a#b"),
        Err(OriginFormError::InvalidCharacter)
    );
}

#[test]
fn numbers_and_text() {
    assert_eq!(decimal_bytes(0), b"0");
    assert_eq!(decimal_bytes(u64::MAX), b"18446744073709551615");
    assert_eq!(hex_bytes(0), b"0");
    assert_eq!(hex_bytes(255), b"ff");
    assert_eq!(hex_bytes(u64::MAX), b"ffffffffffffffff");
    for n in [0u64, 9, 10, 99, 4096, u64::MAX] {
        assert_eq!(parse_u64(&decimal_bytes(n)), Some(n));
        assert_eq!(hex_bytes(n), format!("{n:x}").as_bytes());
    }
    assert_eq!(parse_u64(b""), None);
    assert_eq!(parse_u64(b"+"), None);
    assert_eq!(parse_u64(b"-1"), None);
    assert_eq!(parse_u64(b"+1"), Some(1));
    assert_eq!(parse_u64(b"007"), Some(7));
    assert_eq!(trim_ascii(b" \t\r\n\x0ca b "), b"a b");
    assert_eq!(trim_ascii(b"   "), b"");
    assert!(eq_ignore_ascii_case(b"aBc-1", b"AbC-1"));
    assert!(!eq_ignore_ascii_case(b"a@", b"a`"));
    assert!(!eq_ignore_ascii_case(b"a", b"ab"));
}
