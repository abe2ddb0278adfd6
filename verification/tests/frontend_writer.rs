use jrpxy::body::error::BodyError;
use jrpxy::frontend::error::{FrontendError, FrontendResult};
use jrpxy::frontend::writer::{FrontendBodyWriter, FrontendSend, FrontendWriter};
use jrpxy::http_message::header::Headers;
use jrpxy::http_message::message::{Response, ResponseBuilder};
use jrpxy::http_message::version::HttpVersion;
use jrpxy::transport::{Context, Poll, Wants, WriteFailure};

/// A connection in memory: what can be read from it, and what was written.
struct Wire {
    input: Vec<u8>,
    at: usize,
    /// How much one read gives at most.
    read_step: usize,
    output: Vec<u8>,
    /// How much one write takes at most.
    write_step: usize,
    /// How much can be written in all.
    capacity: usize,
    flushes: usize,
}

impl Wire {
    fn new(input: &[u8]) -> Wire {
        Wire {
            input: input.to_vec(),
            at: 0,
            read_step: usize::MAX,
            output: Vec::new(),
            write_step: usize::MAX,
            capacity: usize::MAX,
            flushes: 0,
        }
    }

    /// Perform the operation that a pending poll waits for.
    fn serve(&mut self, cx: &mut Context) {
        match cx.take_wants() {
            Wants::Read(n) => {
                let n = n.min(self.read_step).min(self.input.len() - self.at);
                let data = self.input[self.at..self.at + n].to_vec();
                self.at += n;
                cx.deliver_read(Ok(data));
            }
            Wants::Write(b) => {
                let n = b
                    .len()
                    .min(self.write_step)
                    .min(self.capacity - self.output.len());
                self.output.extend_from_slice(&b[..n]);
                cx.deliver_write(Ok(n));
            }
            Wants::Flush => {
                self.flushes += 1;
                cx.deliver_flush(Ok(()));
            }
            Wants::Nothing => panic!("a pending poll waits for nothing"),
        }
    }
}

/// Poll until ready.
fn drive<T>(wire: &mut Wire, mut poll: impl FnMut(&mut Context) -> Poll<T>) -> T {
    let mut cx = Context::new();
    loop {
        match poll(&mut cx) {
            Poll::Ready(t) => return t,
            Poll::Pending => wire.serve(&mut cx),
        }
    }
}

/// Send a head, and go on to the body.
fn send<B>(wire: &mut Wire, mut head: FrontendSend<B>) -> FrontendResult<B> {
    drive(wire, |cx| head.poll_send(cx))?;
    Ok(head.into_next())
}

fn write(wire: &mut Wire, body: &mut FrontendBodyWriter<()>, data: &[u8]) -> FrontendResult<()> {
    let mut written = 0;
    drive(wire, |cx| body.poll_write(cx, data, &mut written))
}

fn finish(wire: &mut Wire, body: FrontendBodyWriter<()>) -> FrontendResult<Option<FrontendWriter<()>>> {
    let mut finisher = body.into_finisher()?;
    drive(wire, |cx| finisher.poll_finish(cx))
}

/// A connection that takes one byte at a time.
fn slow_wire() -> Wire {
    let mut wire = Wire::new(b"");
    wire.write_step = 1;
    wire
}

fn plain_response() -> Response {
    ResponseBuilder::new(8)
        .with_code(200)
        .with_reason("Ok")
        .with_version(HttpVersion::Http11)
        .build()
        .expect("failed to build response")
}

#[test]
fn lib_frontend_writer() {
    let mut cr = ResponseBuilder::new(8);
    let res = cr
        .with_code(200)
        .with_reason("Ok")
        .with_version(HttpVersion::Http11)
        .with_header("x-hello", &b"World"[..])
        .with_header("content-LENGTH", &b"400"[..])
        .with_header("TRANSFER-ENCODING", &b"chunked"[..])
        .build()
        .expect("failed to build response");

    let mut wire = Wire::new(b"");
    let cw = FrontendWriter::new(());
    let r = send(&mut wire, cw.send_as_content_length(&res, 0)).expect("can write");

    finish(&mut wire, r)
        .expect("failed to finish")
        .unwrap()
        .into_inner();

    // now we validate that the response contains what we expect. Notably:
    // - expect that the content-length has been replaced with 0
    // - expect we strip out transfer-encoding header
    // - expect the remaining header to be present

    let expected = b"\
        HTTP/1.1 200 Ok\r\n\
        x-hello: World\r\n\
        content-length: 0\r\n\
        \r\n\
    ";
    assert_eq!(&expected[..], wire.output);
}

#[test]
fn lib_frontend_writer_no_body() {
    let res = plain_response();

    let mut wire = Wire::new(b"");
    let cw = FrontendWriter::new(());
    let mut r = send(&mut wire, cw.send_as_content_length(&res, 0)).expect("can write");

    // expect that attempting to write to the body results in an unexpected EOF
    let r = write(&mut wire, &mut r, &b"hello"[..]).expect_err("wasn't an error");
    assert!(matches!(
        r,
        FrontendError::BodyWriteError(BodyError::BodyOverflow(0))
    ));
}

#[test]
fn lib_frontend_writer_with_content_length() {
    let res = plain_response();

    let mut wire = Wire::new(b"");
    let cw = FrontendWriter::new(());
    let mut r = send(&mut wire, cw.send_as_content_length(&res, 10)).expect("can write");

    write(&mut wire, &mut r, &b"01234"[..]).expect("write works");
    write(&mut wire, &mut r, &b"56789"[..]).expect("write works");

    assert!(matches!(
        write(&mut wire, &mut r, &b"X"[..]).expect_err("this overflows"),
        FrontendError::BodyWriteError(BodyError::BodyOverflow(10))
    ));

    finish(&mut wire, r)
        .expect("failed to finish")
        .unwrap()
        .into_inner();
    assert!(wire.output.ends_with(b"\r\n\r\n0123456789"));
}

#[test]
fn lib_frontend_writer_with_content_length_incomplete_body() {
    let res = plain_response();

    let mut wire = Wire::new(b"");
    let cw = FrontendWriter::new(());
    let mut r = send(&mut wire, cw.send_as_content_length(&res, 10)).expect("can write");

    write(&mut wire, &mut r, &b"01234"[..]).expect("write works");

    // do not write all 10 bytes, and then try to finish. finishing will fail.

    match finish(&mut wire, r) {
        Err(e) => assert!(matches!(
            e,
            FrontendError::BodyWriteError(BodyError::IncompleteBody {
                expected: 10,
                actual: 5
            })
        )),
        Ok(_) => panic!("failed to emit error"),
    }
}

#[test]
fn lib_frontend_writer_with_chunk_encoding() {
    let res = plain_response();

    let mut wire = Wire::new(b"");
    let cw = FrontendWriter::new(());
    let mut r = send(&mut wire, cw.send_as_chunked(&res)).expect("can write");

    write(&mut wire, &mut r, &b"01234"[..]).expect("write works");
    write(&mut wire, &mut r, &b"56789"[..]).expect("write works");
    write(&mut wire, &mut r, &b""[..]).expect("works, but shouldn't generate a chunk");

    finish(&mut wire, r)
        .expect("failed to finish")
        .unwrap()
        .into_inner();
    assert!(wire
        .output
        .ends_with(b"\r\n\r\n5\r\n01234\r\n5\r\n56789\r\n0\r\n\r\n"));
}

#[test]
fn lib_frontend_writer_pipeline() {
    let mut wire = Wire::new(b"");
    let cw = FrontendWriter::new(());

    // first response
    let mut cr = ResponseBuilder::new(8);
    let res = cr
        .with_code(200)
        .with_reason("Ok")
        .with_version(HttpVersion::Http11)
        .with_header("x-req", b"first")
        .build()
        .expect("failed to build response");
    let body_writer =
        send(&mut wire, cw.send_as_content_length(&res, 0)).expect("first write works");
    let cw = finish(&mut wire, body_writer)
        .expect("failed to finish")
        .expect("failed to return writer");

    // second response
    let mut cr = ResponseBuilder::new(8);
    let res = cr
        .with_code(200)
        .with_reason("Ok")
        .with_version(HttpVersion::Http11)
        .with_header("x-req", b"second")
        .build()
        .expect("failed to build response");
    let mut body_writer =
        send(&mut wire, cw.send_as_content_length(&res, 5)).expect("first write works");
    write(&mut wire, &mut body_writer, b"01234").expect("failed to write");
    let cw = finish(&mut wire, body_writer)
        .expect("failed to finish")
        .expect("failed to return writer");

    // third response
    let mut cr = ResponseBuilder::new(8);
    let res = cr
        .with_code(200)
        .with_reason("Ok")
        .with_version(HttpVersion::Http11)
        .with_header("x-req", b"third")
        .build()
        .expect("failed to build response");
    let mut body_writer = send(&mut wire, cw.send_as_chunked(&res)).expect("first write works");
    write(&mut wire, &mut body_writer, b"01234").expect("failed to write");
    write(&mut wire, &mut body_writer, b"5").expect("failed to write");
    write(&mut wire, &mut body_writer, b"6789").expect("failed to write");
    let cw = finish(&mut wire, body_writer).expect("failed to finish");

    // check the output
    cw.unwrap().into_inner();

    let expected = b"\
        HTTP/1.1 200 Ok\r\n\
        x-req: first\r\n\
        content-length: 0\r\n\
        \r\n\
        HTTP/1.1 200 Ok\r\n\
        x-req: second\r\n\
        content-length: 5\r\n\
        \r\n\
        01234\
        HTTP/1.1 200 Ok\r\n\
        x-req: third\r\n\
        transfer-encoding: chunked\r\n\
        \r\n\
        5\r\n\
        01234\r\n\
        1\r\n\
        5\r\n\
        4\r\n\
        6789\r\n\
        0\r\n\
        \r\n\
    ";

    assert_eq!(&expected[..], wire.output);
}

#[test]
fn writer_frontend_writer() {
    let mut cr = ResponseBuilder::new(8);
    let res = cr
        .with_code(200)
        .with_reason("Ok")
        .with_version(HttpVersion::Http11)
        .with_header("x-hello", &b"World"[..])
        .with_header("content-LENGTH", &b"400"[..])
        .with_header("TRANSFER-ENCODING", &b"chunked"[..])
        .build()
        .expect("failed to build response");

    let mut wire = slow_wire();
    let cw = FrontendWriter::new(());
    let r = send(&mut wire, cw.send_as_content_length(&res, 0)).expect("can write");

    finish(&mut wire, r)
        .expect("failed to finish")
        .unwrap()
        .into_inner();

    // now we validate that the response contains what we expect. Notably:
    // - expect that the content-length has been replaced with 0
    // - expect we strip out transfer-encoding header
    // - expect the remaining header to be present

    let expected = b"\
        HTTP/1.1 200 Ok\r\n\
        x-hello: World\r\n\
        content-length: 0\r\n\
        \r\n\
    ";
    assert_eq!(&expected[..], wire.output);
}

#[test]
fn writer_frontend_writer_no_body() {
    let res = plain_response();

    let mut wire = slow_wire();
    let cw = FrontendWriter::new(());
    let mut r = send(&mut wire, cw.send_as_content_length(&res, 0)).expect("can write");

    // expect that attempting to write to the body results in an unexpected EOF
    let r = write(&mut wire, &mut r, &b"hello"[..]).expect_err("wasn't an error");
    assert!(matches!(
        r,
        FrontendError::BodyWriteError(BodyError::BodyOverflow(0))
    ));
}

#[test]
fn writer_frontend_writer_with_content_length() {
    let res = plain_response();

    let mut wire = slow_wire();
    let cw = FrontendWriter::new(());
    let mut r = send(&mut wire, cw.send_as_content_length(&res, 10)).expect("can write");

    write(&mut wire, &mut r, &b"01234"[..]).expect("write works");
    write(&mut wire, &mut r, &b"56789"[..]).expect("write works");

    assert!(matches!(
        write(&mut wire, &mut r, &b"X"[..]).expect_err("this overflows"),
        FrontendError::BodyWriteError(BodyError::BodyOverflow(10))
    ));

    finish(&mut wire, r)
        .expect("failed to finish")
        .unwrap()
        .into_inner();
    assert!(wire.output.ends_with(b"\r\n\r\n0123456789"));
}

#[test]
fn writer_frontend_writer_with_content_length_incomplete_body() {
    let res = plain_response();

    let mut wire = slow_wire();
    let cw = FrontendWriter::new(());
    let mut r = send(&mut wire, cw.send_as_content_length(&res, 10)).expect("can write");

    write(&mut wire, &mut r, &b"01234"[..]).expect("write works");

    // do not write all 10 bytes, and then try to finish. finishing will fail.

    match finish(&mut wire, r) {
        Err(e) => assert!(matches!(
            e,
            FrontendError::BodyWriteError(BodyError::IncompleteBody {
                expected: 10,
                actual: 5
            })
        )),
        Ok(_) => panic!("failed to emit error"),
    }
}

#[test]
fn writer_frontend_writer_with_chunk_encoding() {
    let res = plain_response();

    let mut wire = slow_wire();
    let cw = FrontendWriter::new(());
    let mut r = send(&mut wire, cw.send_as_chunked(&res)).expect("can write");

    write(&mut wire, &mut r, &b"01234"[..]).expect("write works");
    write(&mut wire, &mut r, &b"56789"[..]).expect("write works");
    write(&mut wire, &mut r, &b""[..]).expect("works, but shouldn't generate a chunk");

    finish(&mut wire, r)
        .expect("failed to finish")
        .unwrap()
        .into_inner();
    assert!(wire
        .output
        .ends_with(b"\r\n\r\n5\r\n01234\r\n5\r\n56789\r\n0\r\n\r\n"));
}

#[test]
fn writer_frontend_writer_pipeline() {
    let mut wire = slow_wire();
    let cw = FrontendWriter::new(());

    // first response
    let mut cr = ResponseBuilder::new(8);
    let res = cr
        .with_code(200)
        .with_reason("Ok")
        .with_version(HttpVersion::Http11)
        .with_header("x-req", b"first")
        .build()
        .expect("failed to build response");
    let body_writer =
        send(&mut wire, cw.send_as_content_length(&res, 0)).expect("first write works");
    let cw = finish(&mut wire, body_writer)
        .expect("failed to finish")
        .expect("failed to return writer");

    // second response
    let mut cr = ResponseBuilder::new(8);
    let res = cr
        .with_code(200)
        .with_reason("Ok")
        .with_version(HttpVersion::Http11)
        .with_header("x-req", b"second")
        .build()
        .expect("failed to build response");
    let mut body_writer =
        send(&mut wire, cw.send_as_content_length(&res, 5)).expect("first write works");
    write(&mut wire, &mut body_writer, b"01234").expect("failed to write");
    let cw = finish(&mut wire, body_writer)
        .expect("failed to finish")
        .expect("failed to return writer");

    // third response
    let mut cr = ResponseBuilder::new(8);
    let res = cr
        .with_code(200)
        .with_reason("Ok")
        .with_version(HttpVersion::Http11)
        .with_header("x-req", b"third")
        .build()
        .expect("failed to build response");
    let mut body_writer = send(&mut wire, cw.send_as_chunked(&res)).expect("first write works");
    write(&mut wire, &mut body_writer, b"01234").expect("failed to write");
    write(&mut wire, &mut body_writer, b"5").expect("failed to write");
    write(&mut wire, &mut body_writer, b"6789").expect("failed to write");
    let cw = finish(&mut wire, body_writer).expect("failed to finish");

    // check the output
    cw.unwrap().into_inner();

    let expected = b"\
        HTTP/1.1 200 Ok\r\n\
        x-req: first\r\n\
        content-length: 0\r\n\
        \r\n\
        HTTP/1.1 200 Ok\r\n\
        x-req: second\r\n\
        content-length: 5\r\n\
        \r\n\
        01234\
        HTTP/1.1 200 Ok\r\n\
        x-req: third\r\n\
        transfer-encoding: chunked\r\n\
        \r\n\
        5\r\n\
        01234\r\n\
        1\r\n\
        5\r\n\
        4\r\n\
        6789\r\n\
        0\r\n\
        \r\n\
    ";

    assert_eq!(&expected[..], wire.output);
}

#[test]
fn eof_response_ends_with_the_connection() {
    let mut wire = Wire::new(b"");
    let cw = FrontendWriter::new(());
    let mut r = send(&mut wire, cw.send_as_eof(&plain_response())).unwrap();
    write(&mut wire, &mut r, b"all of it").unwrap();
    assert!(finish(&mut wire, r).unwrap().is_none());
    assert_eq!(wire.output, b"HTTP/1.1 200 Ok\r\n\r\nall of it");
    assert!(wire.flushes > 0);
}

#[test]
fn bodyless_response_keeps_its_framing_fields() {
    let res = ResponseBuilder::new(1)
        .with_code(304)
        .with_reason("Not Modified")
        .with_version(HttpVersion::Http11)
        .with_header("Content-Length", b"12")
        .build()
        .unwrap();
    let mut wire = Wire::new(b"");
    let cw = FrontendWriter::new(());
    let mut r = send(&mut wire, cw.send_as_bodyless_keep_framing(&res)).unwrap();
    assert!(matches!(
        write(&mut wire, &mut r, b"x"),
        Err(FrontendError::BodyWriteError(BodyError::BodyOverflow(1)))
    ));
    assert!(finish(&mut wire, r).unwrap().is_some());
    assert_eq!(
        wire.output,
        b"HTTP/1.1 304 Not Modified\r\nContent-Length: 12\r\n\r\n"
    );

    let mut wire = Wire::new(b"");
    let cw = FrontendWriter::new(());
    let mut r = send(&mut wire, cw.send_as_bodyless(&res)).unwrap();
    write(&mut wire, &mut r, b"").unwrap();
    assert!(matches!(
        write(&mut wire, &mut r, b"x"),
        Err(FrontendError::BodyWriteError(BodyError::BodyOverflow(0)))
    ));
    assert!(finish(&mut wire, r).unwrap().is_some());
    assert_eq!(
        wire.output,
        b"HTTP/1.1 304 Not Modified\r\nContent-Length: 12\r\n\r\n"
    );

    let mut wire = Wire::new(b"");
    let cw = FrontendWriter::new(());
    let r = send(&mut wire, cw.send_as_no_content(&res)).unwrap();
    assert_eq!(r.finish().unwrap().as_inner(), &());
    assert_eq!(wire.output, b"HTTP/1.1 304 Not Modified\r\n\r\n");
}

#[test]
fn trailers_follow_the_last_chunk() {
    let mut wire = Wire::new(b"");
    let cw = FrontendWriter::new(());
    let r = send(&mut wire, cw.send_as_chunked(&plain_response())).unwrap();
    let mut r = match r {
        FrontendBodyWriter::TE(r) => r,
        _ => panic!("not chunked"),
    };
    drive(&mut wire, |cx| r.poll_write(cx, b"abc")).unwrap();
    let mut trailers = Headers::default();
    trailers.push(
        bytes::Bytes::from_static(b"x"),
        bytes::Bytes::from_static(b"y"),
    );
    let mut r = r.into_finisher(&trailers).unwrap();
    drive(&mut wire, |cx| r.poll_finish(cx)).unwrap();
    assert!(wire
        .output
        .ends_with(b"\r\n\r\n3\r\nabc\r\n0\r\nx: y\r\n\r\n"));
}

#[test]
fn an_aborted_chunked_body_cannot_be_taken_for_a_whole_one() {
    let mut wire = Wire::new(b"");
    let cw = FrontendWriter::new(());
    let mut r = send(&mut wire, cw.send_as_chunked(&plain_response())).unwrap();
    write(&mut wire, &mut r, b"abc").unwrap();
    let mut abort = r.into_abort().unwrap();
    drive(&mut wire, |cx| abort.poll_abort(cx)).unwrap();
    assert!(wire.output.ends_with(b"\r\n\r\n3\r\nabc\r\nx"));
}

#[test]
fn a_failed_write_is_passed_on() {
    let cw = FrontendWriter::new(());
    let mut head = cw.send_as_eof(&plain_response());
    let mut cx = Context::new();
    assert!(matches!(head.poll_send(&mut cx), Poll::Pending));
    cx.deliver_write(Err(std::io::Error::from(std::io::ErrorKind::BrokenPipe)));
    match head.poll_send(&mut cx) {
        Poll::Ready(Err(FrontendError::WriteError(WriteFailure::Io(e)))) => {
            assert_eq!(e.kind(), std::io::ErrorKind::BrokenPipe)
        }
        _ => panic!("not a write error"),
    }
}
