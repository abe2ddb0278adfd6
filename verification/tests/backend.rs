use bytes::Bytes;
use jrpxy::backend::error::{BackendError, BackendResult};
use jrpxy::backend::reader::{
    BackendBodyReader, BackendReader, BackendStreamReader, Reading, ResponseStream, StreamReading,
};
use jrpxy::backend::writer::{BackendBodyWriter, BackendSend, BackendWriter};
use jrpxy::body::error::BodyError;
use jrpxy::http_message::framing::WriteFraming;
use jrpxy::http_message::head::write_response_to;
use jrpxy::http_message::header::Headers;
use jrpxy::http_message::message::{Request, RequestBuilder, Response};
use jrpxy::http_message::version::HttpVersion;
use jrpxy::io_buffer::BytesReader;
use jrpxy::transport::{Context, Poll, Wants};

/// A connection in memory: what can be read from it, and what was written.
struct Wire {
    input: Vec<u8>,
    at: usize,
    /// How much one read gives at most.
    read_step: usize,
    output: Vec<u8>,
    /// How much one write takes at most.
    write_step: usize,
    /// How much can be written in all.
    capacity: usize,
    flushes: usize,
}

impl Wire {
    fn new(input: &[u8]) -> Wire {
        Wire {
            input: input.to_vec(),
            at: 0,
            read_step: usize::MAX,
            output: Vec::new(),
            write_step: usize::MAX,
            capacity: usize::MAX,
            flushes: 0,
        }
    }

    /// Perform the operation that a pending poll waits for.
    fn serve(&mut self, cx: &mut Context) {
        match cx.take_wants() {
            Wants::Read(n) => {
                let n = n.min(self.read_step).min(self.input.len() - self.at);
                let data = self.input[self.at..self.at + n].to_vec();
                self.at += n;
                cx.deliver_read(Ok(data));
            }
            Wants::Write(b) => {
                let n = b
                    .len()
                    .min(self.write_step)
                    .min(self.capacity - self.output.len());
                self.output.extend_from_slice(&b[..n]);
                cx.deliver_write(Ok(n));
            }
            Wants::Flush => {
                self.flushes += 1;
                cx.deliver_flush(Ok(()));
            }
            Wants::Nothing => panic!("a pending poll waits for nothing"),
        }
    }
}

/// Poll until ready.
fn drive<T>(wire: &mut Wire, mut poll: impl FnMut(&mut Context) -> Poll<T>) -> T {
    let mut cx = Context::new();
    loop {
        match poll(&mut cx) {
            Poll::Ready(t) => return t,
            Poll::Pending => wire.serve(&mut cx),
        }
    }
}

/// Read a response off the wire.
fn read_response(
    wire: &mut Wire,
    mut reader: BackendReader<()>,
    allow_body: bool,
) -> BackendResult<ResponseStream<()>> {
    let mut cx = Context::new();
    loop {
        match reader.read(&mut cx, allow_body, 128, 128) {
            Reading::Ready(r) => return r,
            Reading::Pending(r) => {
                reader = r;
                wire.serve(&mut cx);
            }
        }
    }
}

/// Read the response that follows an informational one.
fn read_next(
    wire: &mut Wire,
    mut reader: BackendStreamReader<()>,
) -> BackendResult<ResponseStream<()>> {
    let mut cx = Context::new();
    loop {
        match reader.read(&mut cx) {
            StreamReading::Ready(r) => return r,
            StreamReading::Pending(r) => {
                reader = r;
                wire.serve(&mut cx);
            }
        }
    }
}

fn read(
    wire: &mut Wire,
    body: &mut BackendBodyReader<()>,
    max_len: usize,
) -> BackendResult<Option<Bytes>> {
    drive(wire, |cx| body.poll_read(cx, max_len))
}

fn drain(
    wire: &mut Wire,
    mut body: BackendBodyReader<()>,
) -> BackendResult<Option<BackendReader<()>>> {
    drive(wire, |cx| body.poll_drain(cx))?;
    Ok(body.finish())
}

fn send<B>(wire: &mut Wire, mut head: BackendSend<B>) -> BackendResult<B> {
    drive(wire, |cx| head.poll_send(cx))?;
    Ok(head.into_next())
}

fn write(wire: &mut Wire, body: &mut BackendBodyWriter<()>, data: &[u8]) -> BackendResult<()> {
    let mut written = 0;
    drive(wire, |cx| body.poll_write(cx, data, &mut written))
}

fn finish(wire: &mut Wire, body: BackendBodyWriter<()>) -> BackendResult<BackendWriter<()>> {
    let mut finisher = body.into_finisher()?;
    drive(wire, |cx| finisher.poll_finish(cx))
}

#[test]
fn read_cl_backend() {
    let buf = b"\
        HTTP/1.1 200 Ok\r\n\
        x-req: second\r\n\
        content-length: 5\r\n\
        \r\n\
        01234\
        ";

    let mut wire = Wire::new(buf);
    let reader = BackendReader::new((), 256);
    let (res, mut br) = read_response(&mut wire, reader, true)
        .expect("can split into parts")
        .try_into_response()
        .ok()
        .unwrap()
        .into_parts();

    assert_eq!(HttpVersion::Http11, res.version());
    assert_eq!(200, res.code());
    assert_eq!(&b"Ok"[..], res.reason());

    let x = read(&mut wire, &mut br, 3).expect("can read").unwrap();
    assert_eq!(Bytes::from_static(b"012"), x);
    let x = read(&mut wire, &mut br, 3).expect("can read").unwrap();
    assert_eq!(Bytes::from_static(b"34"), x);

    let reader = drain(&mut wire, br).expect("failed to drain");

    let io_buffer = reader.unwrap().into_parts();
    let ((), rest_buffered) = io_buffer.into_parts();
    assert!(wire.input[wire.at..].is_empty());
    assert!(rest_buffered.is_empty());
}

#[test]
fn read_te_backend() {
    let buf = b"\
        HTTP/1.1 200 Ok\r\n\
        x-req: second\r\n\
        transfer-encoding: chunked\r\n\
        \r\n\
        3\r\n\
        012\r\n\
        3\r\n\
        345\r\n\
        0\r\n\
        \r\n\
        ";

    let mut wire = Wire::new(buf);
    let reader = BackendReader::new((), 256);
    let (res, mut br) = read_response(&mut wire, reader, true)
        .expect("can split into parts")
        .try_into_response()
        .ok()
        .unwrap()
        .into_parts();

    assert_eq!(HttpVersion::Http11, res.version());
    assert_eq!(200, res.code());
    assert_eq!(&b"Ok"[..], res.reason());

    let x = read(&mut wire, &mut br, 3).expect("can read").unwrap();
    assert_eq!(Bytes::from_static(b"012"), x);
    let x = read(&mut wire, &mut br, 3).expect("can read").unwrap();
    assert_eq!(Bytes::from_static(b"345"), x);

    let reader = drain(&mut wire, br).expect("failed to drain");

    let io_buffer = reader.unwrap().into_parts();
    let ((), rest_buffered) = io_buffer.into_parts();
    assert!(wire.input[wire.at..].is_empty());
    assert!(rest_buffered.is_empty());
}

#[test]
fn read_cl_bodyless_backend() {
    let buf = b"\
        HTTP/1.1 200 Ok\r\n\
        content-length: 5\r\n\
        \r\n\
        ";

    let mut wire = Wire::new(buf);
    let reader = BackendReader::new((), 256);
    let (res, mut br) = read_response(&mut wire, reader, false)
        .expect("can split into parts")
        .try_into_response()
        .ok()
        .unwrap()
        .into_parts();

    assert_eq!(HttpVersion::Http11, res.version());
    assert_eq!(200, res.code());
    assert_eq!(&b"Ok"[..], res.reason());

    assert!(read(&mut wire, &mut br, 5).expect("can read").is_none());
    let reader = drain(&mut wire, br).expect("failed to drain");

    let io_buffer = reader.unwrap().into_parts();
    let ((), rest_buffered) = io_buffer.into_parts();
    assert!(wire.input[wire.at..].is_empty());
    assert!(rest_buffered.is_empty());
}

#[test]
fn read_te_bodyless_backend() {
    let buf = b"\
        HTTP/1.1 200 Ok\r\n\
        transfer-encoding: chunked\r\n\
        \r\n\
        ";

    let mut wire = Wire::new(buf);
    let reader = BackendReader::new((), 256);
    let (res, mut br) = read_response(&mut wire, reader, false)
        .expect("can split into parts")
        .try_into_response()
        .ok()
        .unwrap()
        .into_parts();

    assert_eq!(HttpVersion::Http11, res.version());
    assert_eq!(200, res.code());
    assert_eq!(&b"Ok"[..], res.reason());

    assert!(read(&mut wire, &mut br, 5).expect("can read").is_none());
    let reader = drain(&mut wire, br).expect("failed to drain");

    let io_buffer = reader.unwrap().into_parts();
    let ((), rest_buffered) = io_buffer.into_parts();
    assert!(wire.input[wire.at..].is_empty());
    assert!(rest_buffered.is_empty());
}

#[test]
fn backend_has_no_framing_headers() {
    let buf = b"\
        HTTP/1.1 204 No Content\r\n\
        \r\n\
        ";

    let mut wire = Wire::new(buf);
    let reader = BackendReader::new((), 256);
    let (_res, mut br) = read_response(&mut wire, reader, true)
        .expect("can split into parts")
        .try_into_response()
        .ok()
        .unwrap()
        .into_parts();
    let body = read(&mut wire, &mut br, 1024).expect("can read");
    assert!(body.is_none());
}

/// RFC 9112 section 6.3 point 8: when a 200 response has no framing headers,
/// the body is terminated by connection close.
#[test]
fn read_200_no_framing_eof_body() {
    let buf = b"\
        HTTP/1.1 200 Ok\r\n\
        \r\n\
        body terminated by eof\
        ";

    let mut wire = Wire::new(buf);
    let reader = BackendReader::new((), 256);
    let (_res, mut br) = read_response(&mut wire, reader, true)
        .expect("can split into parts")
        .try_into_response()
        .ok()
        .unwrap()
        .into_parts();
    let body = read(&mut wire, &mut br, 1024)
        .expect("can read")
        .expect("body present");
    assert_eq!(body, &b"body terminated by eof"[..]);
}

/// RFC 9110 Section 8.6 states: "A server MUST NOT send a Content-Length
/// header field in any response with a status code of 1xx (Informational)
/// or 204 (No Content)."
#[test]
fn status_1xx_and_204_response_with_content_length_rejected() {
    let buf = b"\
        HTTP/1.1 100 Continue\r\n\
        content-length: 500\r\n\
        \r\n\
        HTTP/1.1 200 Ok\r\n\
        content-length: 5\r\n\
        \r\n\
        01234\
        ";

    let mut wire = Wire::new(buf);
    let reader = BackendReader::new((), 256);
    let result = read_response(&mut wire, reader, true);

    assert!(result.is_err());

    let buf = b"\
        HTTP/1.1 204 No Content\r\n\
        content-length: 0\r\n\
        \r\n\
        ";

    let mut wire = Wire::new(buf);
    let reader = BackendReader::new((), 256);
    let result = read_response(&mut wire, reader, true);

    assert!(result.is_err());
}

/// RFC 9112 Section 6.1 states: "A server MUST NOT send a Transfer-Encoding
/// header field in any response with a status code of 1xx (Informational)
/// or 204 (No Content)."
#[test]
fn status_1xx_and_204_response_with_transfer_encoding_rejected() {
    let buf = b"\
        HTTP/1.1 100 Continue\r\n\
        transfer-encoding: chunked\r\n\
        \r\n\
        HTTP/1.1 200 Ok\r\n\
        content-length: 5\r\n\
        \r\n\
        01234\
        ";

    let mut wire = Wire::new(buf);
    let reader = BackendReader::new((), 256);
    let result = read_response(&mut wire, reader, true);

    assert!(matches!(
        result,
        Err(BackendError::FramingHeadersOnInformationalResponse)
    ));

    let buf = b"\
        HTTP/1.1 204 No Content\r\n\
        transfer-encoding: chunked\r\n\
        \r\n\
        ";

    let mut wire = Wire::new(buf);
    let reader = BackendReader::new((), 256);
    let result = read_response(&mut wire, reader, true);

    assert!(matches!(
        result,
        Err(BackendError::FramingHeadersOn204NoContentResponse)
    ));
}

#[test]
fn status_1xx_stream() {
    let buf = b"\
        HTTP/1.1 100 Continue\r\n\
        x-res: 1\r\n\
        \r\n\
        HTTP/1.1 100 Continue\r\n\
        x-res: 2\r\n\
        \r\n\
        HTTP/1.1 200 Ok\r\n\
        x-res: 3\r\n\
        content-length: 0\r\n\
        \r\n\
        ";

    let mut wire = Wire::new(buf);
    let reader = BackendReader::new((), 256);
    let result = read_response(&mut wire, reader, true).expect("failed to read");

    let (res, reader) = result
        .try_into_informational()
        .ok()
        .expect("not informational");
    let xres = res
        .headers()
        .get_header("x-res")
        .expect("header not present");
    assert_eq!(xres, b"1".as_ref());

    let result = read_next(&mut wire, reader).expect("failed to read");
    let (res, reader) = result
        .try_into_informational()
        .ok()
        .expect("not informational");
    let xres = res
        .headers()
        .get_header("x-res")
        .expect("header not present");
    assert_eq!(xres, b"2".as_ref());

    let result = read_next(&mut wire, reader).expect("read failed");
    let res = result.try_into_response().ok().expect("not response");
    let (res, body_reader) = res.into_parts();
    let xres = res
        .headers()
        .get_header("x-res")
        .expect("header not present");
    assert_eq!(xres, b"3".as_ref());
    let _out = drain(&mut wire, body_reader).expect("failed to drain");
}

/// RFC 9110 section 15.2: a client MUST be able to parse 1xx responses
/// even when it does not expect one. The reader must surface
/// unrecognized 1xx codes as Informational rather than hard-error, so
/// the caller can decide whether to forward or drop them.
#[test]
fn unknown_1xx_surfaced_as_informational() {
    let buf = b"\
        HTTP/1.1 199 Custom Info\r\n\
        x-hint: maybe\r\n\
        \r\n\
        HTTP/1.1 200 Ok\r\n\
        content-length: 0\r\n\
        \r\n";

    let mut wire = Wire::new(buf);
    let reader = BackendReader::new((), 256);
    let result = read_response(&mut wire, reader, true).expect("failed to read");

    let (res, reader) = result
        .try_into_informational()
        .ok()
        .expect("unknown 1xx must be surfaced as Informational, not an error");
    assert_eq!(res.code(), 199);

    let result = read_next(&mut wire, reader).expect("failed to read");
    let res = result.try_into_response().ok().expect("not response");
    assert_eq!(res.res().code(), 200);
}

#[test]
fn status_304_has_no_body() {
    let buf = b"\
        HTTP/1.1 304 Ok\r\n\
        content-length: 200\r\n\
        \r\n\
        dangling-ignored-data\
        ";
    let mut wire = Wire::new(buf);
    let reader = BackendReader::new((), 256);
    let result = read_response(&mut wire, reader, true).expect("failed to read");
    let response = result.try_into_response().ok().expect("not a response");
    let (_response, mut body_reader) = response.into_parts();
    let body = read(&mut wire, &mut body_reader, 200).expect("failed to read body");
    assert!(body.is_none());
    let reader = drain(&mut wire, body_reader).expect("failed to drain");

    let io_buffer = reader.unwrap().into_parts();
    let ((), rest_buffered) = io_buffer.into_parts();
    let rest = wire.input[wire.at..]
        .iter()
        .chain(rest_buffered.iter())
        .copied()
        .collect::<Vec<_>>();
    assert_eq!("dangling-ignored-data".as_bytes(), rest);
}

#[test]
fn write_cl_backend() {
    let mut wire = Wire::new(b"");
    let writer = BackendWriter::new(());

    let mut b = RequestBuilder::new(8);
    let req = b
        .with_method("GET")
        .with_path("/cl")
        .with_version(HttpVersion::Http11)
        .with_header("hello", b"world")
        .build()
        .expect("failed to build");

    let mut w = send(&mut wire, writer.send_as_content_length(&req, 0)).expect("failed to send");

    // expect that attempting to write to the body results in an unexpected EOF
    let e = write(&mut wire, &mut w, &b"hello"[..]).expect_err("wasn't an error");
    assert!(matches!(
        e,
        BackendError::BodyWriteError(BodyError::BodyOverflow(0))
    ));

    let w = finish(&mut wire, w).expect("could not finish");
    w.into_inner();

    let expected = b"\
        GET /cl HTTP/1.1\r\n\
        hello: world\r\n\
        content-length: 0\r\n\
        \r\n\
        ";

    assert_eq!(&expected[..], wire.output);
}

#[test]
fn write_te_backend() {
    let mut wire = Wire::new(b"");
    let writer = BackendWriter::new(());

    let mut b = RequestBuilder::new(8);
    let req = b
        .with_method("GET")
        .with_path("/te")
        .with_version(HttpVersion::Http11)
        .with_header("hello", b"world")
        .build()
        .expect("failed to build");

    let mut w = send(&mut wire, writer.send_as_chunked(&req)).expect("failed to send");

    write(&mut wire, &mut w, &b"01234"[..]).expect("failed to write");
    write(&mut wire, &mut w, &b"56"[..]).expect("failed to write");
    write(&mut wire, &mut w, &b"7"[..]).expect("failed to write");
    write(&mut wire, &mut w, &b""[..]).expect("failed to write"); // should not result in a zero chunk
    write(&mut wire, &mut w, &b"8"[..]).expect("failed to write");

    let w = finish(&mut wire, w).expect("could not finish");
    w.into_inner();

    let expected = b"\
        GET /te HTTP/1.1\r\n\
        hello: world\r\n\
        transfer-encoding: chunked\r\n\
        \r\n\
        5\r\n\
        01234\r\n\
        2\r\n\
        56\r\n\
        1\r\n\
        7\r\n\
        1\r\n\
        8\r\n\
        0\r\n\
        \r\n\
        ";

    assert_eq!(&expected[..], wire.output);
}

/// The response to a head, read with a body allowed.
fn outcome(head: &[u8]) -> BackendResult<ResponseStream<()>> {
    let mut wire = Wire::new(b"");
    let reader = BackendReader::new_with_iobuffer(BytesReader::from_parts((), head.to_vec()), 16);
    read_response(&mut wire, reader, true)
}

#[test]
fn refused_responses() {
    assert!(matches!(outcome(b""), Err(BackendError::FirstReadEOF)));
    assert!(matches!(
        outcome(b"HTTP/1.1 200 Ok\r\n"),
        Err(BackendError::UnexpectedEOF)
    ));
    assert!(matches!(
        outcome(b"HTTP/1.1 2000 Ok\r\n\r\n"),
        Err(BackendError::HttpResponseParseError(_))
    ));
    assert!(matches!(
        outcome(b"HTTP/1.1 200 Ok\r\nContent-Length: x\r\n\r\n"),
        Err(BackendError::HeaderError(_))
    ));
    assert!(matches!(
        outcome(b"HTTP/1.1 200 Ok\r\nConnection: a b\r\n\r\n"),
        Err(BackendError::InvalidConnectionHeader(_))
    ));
    assert!(matches!(
        outcome(b"HTTP/1.1 101 Switching Protocols\r\n\r\n"),
        Err(BackendError::HttpSwitchingProtocolsUnsupported)
    ));
    assert!(matches!(
        outcome(b"HTTP/1.1 102 Processing\r\n\r\n"),
        Err(BackendError::HttpProcessingUnsupported)
    ));
    assert!(matches!(
        outcome(b"HTTP/1.0 200 Ok\r\nTransfer-Encoding: chunked\r\n\r\n"),
        Err(BackendError::TransferEncodingOnHttp10Server)
    ));
    let long = format!("HTTP/1.1 200 Ok\r\nx: {}", "y".repeat(200));
    assert!(matches!(
        outcome(long.as_bytes()),
        Err(BackendError::MaxHeadLenExceeded(_, 128))
    ));
}

#[test]
fn a_written_response_is_read_back_piece_by_piece() {
    let mut fields = Headers::default();
    for (n, v) in [("x-a", "1 2"), ("Content-Length", "77"), ("x-b", "")] {
        fields.push(
            Bytes::from_static(n.as_bytes()),
            Bytes::from_static(v.as_bytes()),
        );
    }
    let res = Response::from_parts(
        HttpVersion::Http10,
        418,
        Bytes::from_static(b"I'm a\tteapot"),
        fields,
    );
    let mut input = write_response_to(&res, WriteFraming::Length(3));
    let head_len = input.len();
    input.extend_from_slice(b"abcnext");
    for step in 1..=input.len() {
        let mut wire = Wire::new(&input);
        wire.read_step = step;
        let (got, mut br) = read_response(&mut wire, BackendReader::new((), 3), true)
            .unwrap()
            .try_into_response()
            .ok()
            .unwrap()
            .into_parts();
        assert_eq!(got.version(), HttpVersion::Http11);
        assert_eq!(got.code(), 418);
        assert_eq!(got.reason().as_ref(), b"I'm a\tteapot");
        assert_eq!(got.headers().len(), 3);
        assert_eq!(got.headers().field(0), (&b"x-a"[..], &b"1 2"[..]));
        assert_eq!(got.headers().field(1), (&b"x-b"[..], &b""[..]));
        assert_eq!(
            got.headers().field(2),
            (&b"content-length"[..], &b"3"[..])
        );
        let mut body = Vec::new();
        while let Some(data) = read(&mut wire, &mut br, 2).unwrap() {
            body.extend_from_slice(&data);
        }
        assert_eq!(body, b"abc");
        let ((), mut rest) = drain(&mut wire, br)
            .unwrap()
            .unwrap()
            .into_parts()
            .into_parts();
        rest.extend_from_slice(&wire.input[wire.at..]);
        assert_eq!(rest, b"next");
    }
    // all but the last byte of the head is not enough
    let mut wire = Wire::new(&input[..head_len - 1]);
    assert!(matches!(
        read_response(&mut wire, BackendReader::new((), 3), true),
        Err(BackendError::UnexpectedEOF)
    ));
}

#[test]
fn recyclable_connections() {
    let recyclable = |head: &[u8]| {
        outcome(head)
            .unwrap()
            .try_into_response()
            .ok()
            .unwrap()
            .recyclable()
    };
    assert!(recyclable(b"HTTP/1.1 200 Ok\r\nContent-Length: 1\r\n\r\n"));
    assert!(!recyclable(
        b"HTTP/1.1 200 Ok\r\nContent-Length: 1\r\nConnection: close\r\n\r\n"
    ));
    assert!(!recyclable(b"HTTP/1.0 200 Ok\r\nContent-Length: 1\r\n\r\n"));
    assert!(recyclable(
        b"HTTP/1.0 200 Ok\r\nContent-Length: 1\r\nConnection: keep-alive\r\n\r\n"
    ));
    // the end of the connection is the end of the body
    assert!(!recyclable(b"HTTP/1.1 200 Ok\r\n\r\n"));
}

#[test]
fn a_connection_that_closes_is_not_handed_back() {
    let mut wire = Wire::new(b"HTTP/1.1 200 Ok\r\nContent-Length: 2\r\nConnection: close\r\n\r\nab");
    let (_, mut br) = read_response(&mut wire, BackendReader::new((), 16), true)
        .unwrap()
        .try_into_response()
        .ok()
        .unwrap()
        .into_parts();
    assert_eq!(read(&mut wire, &mut br, 8).unwrap().unwrap().as_ref(), b"ab");
    assert!(br.drained());
    assert!(drain(&mut wire, br).unwrap().is_none());

    let mut wire = Wire::new(b"HTTP/1.1 200 Ok\r\n\r\nuntil the end");
    let (_, mut br) = read_response(&mut wire, BackendReader::new((), 16), true)
        .unwrap()
        .try_into_response()
        .ok()
        .unwrap()
        .into_parts();
    let mut seen = Vec::new();
    while let Some(data) = read(&mut wire, &mut br, 4).unwrap() {
        seen.extend_from_slice(&data);
    }
    assert_eq!(seen, b"until the end");
    assert!(drain(&mut wire, br).unwrap().is_none());
}

#[test]
fn response_streams_tell_their_kind() {
    let stream = outcome(b"HTTP/1.1 103 Early Hints\r\n\r\n").unwrap();
    let stream = match stream.try_into_response() {
        Err(stream) => stream,
        Ok(_) => panic!("not a final response"),
    };
    let (res, _) = stream.try_into_informational().ok().unwrap();
    assert_eq!(res.code(), 103);
    let stream = outcome(b"HTTP/1.1 200 Ok\r\n\r\n").unwrap();
    let stream = match stream.try_into_informational() {
        Err(stream) => stream,
        Ok(_) => panic!("not an informational response"),
    };
    let mut res = stream.try_into_response().ok().unwrap();
    res.res_mut()
        .headers_mut()
        .push(Bytes::from_static(b"a"), Bytes::from_static(b"1"));
    assert_eq!(res.res().headers().len(), 1);
}

#[test]
fn bodyless_request() {
    let mut wire = Wire::new(b"");
    let req: Request = RequestBuilder::new(2)
        .with_method("GET")
        .with_path("/")
        .with_version(HttpVersion::Http11)
        .with_header("Host", b"a")
        .with_header("Content-Length", b"9")
        .build()
        .unwrap();
    let mut w = send(&mut wire, BackendWriter::new(()).send_as_bodyless(&req)).unwrap();
    assert!(matches!(
        write(&mut wire, &mut w, b"abc"),
        Err(BackendError::BodyWriteError(BodyError::BodyOverflow(3)))
    ));
    assert!(w.into_abort().is_none());
    assert_eq!(wire.output, b"GET / HTTP/1.1\r\nHost: a\r\n\r\n");
}
