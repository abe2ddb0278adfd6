use bytes::{Bytes, BytesMut};
use jrpxy::body::body_reader::BodyReadMode;
use jrpxy::body::error::{BodyError, TrailerError};
use jrpxy::frontend::error::{FrontendError, FrontendResult};
use jrpxy::frontend::reader::{
    FrontendBodyReader, FrontendBodyReaderKind, FrontendPeekableBodyReader, FrontendReader,
    FrontendRequest, Reading,
};
use jrpxy::http_message::framing::WriteFraming;
use jrpxy::http_message::head::write_request_to;
use jrpxy::http_message::header::HeaderError;
use jrpxy::http_message::message::{MessageError, RequestBuilder};
use jrpxy::http_message::version::HttpVersion;
use jrpxy::io_buffer::BytesReader;
use jrpxy::transport::{Context, Poll, Wants};

/// A connection in memory: what can be read from it, and what was written.
struct Wire {
    input: Vec<u8>,
    at: usize,
    /// How much one read gives at most.
    read_step: usize,
    output: Vec<u8>,
    /// How much one write takes at most.
    write_step: usize,
    /// How much can be written in all.
    capacity: usize,
    flushes: usize,
}

impl Wire {
    fn new(input: &[u8]) -> Wire {
        Wire {
            input: input.to_vec(),
            at: 0,
            read_step: usize::MAX,
            output: Vec::new(),
            write_step: usize::MAX,
            capacity: usize::MAX,
            flushes: 0,
        }
    }

    /// Perform the operation that a pending poll waits for.
    fn serve(&mut self, cx: &mut Context) {
        match cx.take_wants() {
            Wants::Read(n) => {
                let n = n.min(self.read_step).min(self.input.len() - self.at);
                let data = self.input[self.at..self.at + n].to_vec();
                self.at += n;
                cx.deliver_read(Ok(data));
            }
            Wants::Write(b) => {
                let n = b
                    .len()
                    .min(self.write_step)
                    .min(self.capacity - self.output.len());
                self.output.extend_from_slice(&b[..n]);
                cx.deliver_write(Ok(n));
            }
            Wants::Flush => {
                self.flushes += 1;
                cx.deliver_flush(Ok(()));
            }
            Wants::Nothing => panic!("a pending poll waits for nothing"),
        }
    }
}

/// Poll until ready.
fn drive<T>(wire: &mut Wire, mut poll: impl FnMut(&mut Context) -> Poll<T>) -> T {
    let mut cx = Context::new();
    loop {
        match poll(&mut cx) {
            Poll::Ready(t) => return t,
            Poll::Pending => wire.serve(&mut cx),
        }
    }
}

/// Read a request off the wire in one go.
fn read_request(
    wire: &mut Wire,
    mut reader: FrontendReader<()>,
    max_head: usize,
) -> FrontendResult<FrontendRequest<()>> {
    let mut cx = Context::new();
    loop {
        match reader.read(&mut cx, max_head) {
            Reading::Ready(r) => return r,
            Reading::Pending(r) => {
                reader = r;
                wire.serve(&mut cx);
            }
        }
    }
}

/// Read a request off the wire, first the head and then what frames the body.
fn read_request_in_steps(
    wire: &mut Wire,
    mut reader: FrontendReader<()>,
    max_head: usize,
) -> FrontendResult<FrontendRequest<()>> {
    let req = drive(wire, |cx| reader.poll_head(cx, max_head))?;
    reader.into_request(req)
}

fn read(
    wire: &mut Wire,
    body: &mut FrontendBodyReader<()>,
    max_len: usize,
) -> FrontendResult<Option<Bytes>> {
    drive(wire, |cx| body.poll_read(cx, max_len))
}

fn read_peekable(
    wire: &mut Wire,
    body: &mut FrontendPeekableBodyReader<()>,
    max_len: usize,
) -> FrontendResult<Option<Bytes>> {
    drive(wire, |cx| body.poll_read(cx, max_len))
}

fn peek(
    wire: &mut Wire,
    body: &mut FrontendPeekableBodyReader<()>,
    len: usize,
) -> FrontendResult<(bool, Vec<u8>)> {
    drive(wire, |cx| match body.poll_peek(cx, len) {
        Poll::Pending => Poll::Pending,
        Poll::Ready(r) => Poll::Ready(r.map(|(complete, data)| (complete, data.to_vec()))),
    })
}

#[test]
fn lib_read_cl_frontend() {
    let buf = b"\
        GET /cl HTTP/1.1\r\n\
        Content-Length: 5\r\n\
        \r\n\
        01234\
        extra bytes\
        ";

    let mut wire = Wire::new(buf);
    let reader = FrontendReader::new((), 256);
    let (req, mut body) = read_request(&mut wire, reader, 128)
        .expect("can't break into parts")
        .into_parts();

    assert_eq!(&b"GET"[..], req.method());
    assert_eq!(&b"/cl"[..], req.path());

    assert_eq!(&b"0"[..], read(&mut wire, &mut body, 1).unwrap().unwrap());
    assert_eq!(&b""[..], read(&mut wire, &mut body, 0).unwrap().unwrap());
    assert_eq!(&b"1234"[..], read(&mut wire, &mut body, 4).unwrap().unwrap());

    // once the body is fully drained, always return none.
    assert!(read(&mut wire, &mut body, 1).unwrap().is_none());
    assert!(read(&mut wire, &mut body, 0).unwrap().is_none());
}

#[test]
fn lib_peek_cl_frontend() {
    let buf = b"\
        GET /cl HTTP/1.1\r\n\
        Content-Length: 5\r\n\
        \r\n\
        01234\
        extra bytes\
        ";

    let mut wire = Wire::new(buf);
    let reader = FrontendReader::new((), 256);
    let (req, body) = read_request(&mut wire, reader, 128)
        .expect("can't break into parts")
        .into_parts();
    let mut body = FrontendPeekableBodyReader::new(body);

    assert_eq!(&b"GET"[..], req.method());
    assert_eq!(&b"/cl"[..], req.path());

    // same as read tests, but peek first.
    let (complete, x) = peek(&mut wire, &mut body, 5).expect("can peek");
    assert!(complete);
    assert_eq!(&b"01234"[..], x);

    assert_eq!(&b"0"[..], read_peekable(&mut wire, &mut body, 1).unwrap().unwrap());
    assert_eq!(&b""[..], read_peekable(&mut wire, &mut body, 0).unwrap().unwrap());
    assert_eq!(&b"1234"[..], read_peekable(&mut wire, &mut body, 4).unwrap().unwrap());

    // peek again after reading all the data, make sure we're complete with
    // no data.
    let (complete, x) = peek(&mut wire, &mut body, 5).expect("can peek");
    assert!(complete);
    assert_eq!(&b""[..], x);

    // once the body is fully drained, always return none.
    assert!(read_peekable(&mut wire, &mut body, 1).unwrap().is_none());
    assert!(read_peekable(&mut wire, &mut body, 0).unwrap().is_none());
}

#[test]
fn lib_read_te_frontend() {
    let buf = b"\
        GET /te HTTP/1.1\r\n\
        Transfer-Encoding: chunked\r\n\
        \r\n\
        3;extensions=suck\r\n\
        012\r\n\
        2\r\n\
        34\r\n\
        0\r\n\
        first-trailer: 1\r\n\
        second-trailer: 2\r\n\
        \r\n\
        extra bytes\
        ";

    let mut wire = Wire::new(buf);
    let reader = FrontendReader::new((), 256);
    let (req, mut body) = read_request(&mut wire, reader, 128)
        .expect("can't break into parts")
        .into_parts();

    assert_eq!(&b"GET"[..], req.method());
    assert_eq!(&b"/te"[..], req.path());

    // read one byte out
    assert_eq!(&b"0"[..], read(&mut wire, &mut body, 1).unwrap().unwrap());
    // read zero bytes out
    assert_eq!(&b""[..], read(&mut wire, &mut body, 0).unwrap().unwrap());
    // try to read out 4 bytes, but only 2 remain in the chunk
    assert_eq!(&b"12"[..], read(&mut wire, &mut body, 4).unwrap().unwrap());
    // try to read out 4 bytes, but the next chunk is only two bytes
    assert_eq!(&b"34"[..], read(&mut wire, &mut body, 4).unwrap().unwrap());

    // once the body is fully drained, always return none.
    assert!(read(&mut wire, &mut body, 1).unwrap().is_none());
    assert!(read(&mut wire, &mut body, 0).unwrap().is_none());
}

#[test]
fn lib_pipeline() {
    let buf = b"\
        GET /te HTTP/1.1\r\n\
        Transfer-Encoding: chunked\r\n\
        \r\n\
        3\r\n\
        012\r\n\
        2\r\n\
        34\r\n\
        0\r\n\
        first-trailer: 1\r\n\
        second-trailer: 2\r\n\
        \r\n\
        POST /cl HTTP/1.1\r\n\
        Content-Length: 5\r\n\
        \r\n\
        01234\
        ";

    let mut wire = Wire::new(buf);
    let reader = FrontendReader::new((), 256);
    let (req, mut body) = read_request(&mut wire, reader, 128)
        .expect("can't break into parts")
        .into_parts();
    assert_eq!(&b"GET"[..], req.method());
    assert_eq!(&b"/te"[..], req.path());

    // first request finished. get another reader out for the following request
    drive(&mut wire, |cx| body.poll_drain(cx)).unwrap();
    let reader = body.finish();
    let (req, mut body) = read_request(&mut wire, reader, 128)
        .expect("can't break into parts")
        .into_parts();
    assert_eq!(&b"POST"[..], req.method());
    assert_eq!(&b"/cl"[..], req.path());
    let buf = read(&mut wire, &mut body, 128).unwrap().unwrap();
    assert_eq!(b"01234".as_slice(), buf);
}

#[test]
fn lib_partial_head() {
    // missing header \r\n
    let buf = b"\
        GET /cl HTTP/1.1\r\n\
        Some-Header: xxx\
        ";

    let mut wire = Wire::new(buf);
    let reader = FrontendReader::new((), 256);
    assert!(matches!(
        read_request(&mut wire, reader, 128),
        Err(FrontendError::UnexpectedEOF)
    ));
}

#[test]
fn lib_partial_cl() {
    // stops part way through body
    let buf = b"\
        GET /cl HTTP/1.1\r\n\
        Content-Length: 5\r\n\
        \r\n\
        012\
        ";

    let mut wire = Wire::new(buf);
    let reader = FrontendReader::new((), 256);
    let (req, mut body) = read_request(&mut wire, reader, 128)
        .expect("can't break into parts")
        .into_parts();

    assert_eq!(&b"GET"[..], req.method());
    assert_eq!(&b"/cl"[..], req.path());

    assert_eq!(&b"0"[..], read(&mut wire, &mut body, 1).unwrap().unwrap());
    assert_eq!(&b""[..], read(&mut wire, &mut body, 0).unwrap().unwrap());
    assert_eq!(&b"12"[..], read(&mut wire, &mut body, 4).unwrap().unwrap());

    assert!(matches!(
        read(&mut wire, &mut body, 4),
        Err(FrontendError::BodyReadError(BodyError::UnexpectedEOF)),
    ));
}

#[test]
fn lib_partial_te() {
    // stops part way through chunk extension
    let buf = b"\
        GET /te HTTP/1.1\r\n\
        Transfer-Encoding: chunked\r\n\
        \r\n\
        3;extensions=su\
        ";

    let mut wire = Wire::new(buf);
    let reader = FrontendReader::new((), 256);
    let (_req, mut body) = read_request(&mut wire, reader, 128)
        .expect("can't break into parts")
        .into_parts();

    assert!(matches!(
        read(&mut wire, &mut body, 128),
        Err(FrontendError::BodyReadError(BodyError::UnexpectedEOF)),
    ));

    // stops part way through chunk
    let buf = b"\
        GET /te HTTP/1.1\r\n\
        Transfer-Encoding: chunked\r\n\
        \r\n\
        3;extensions=suck\r\n\
        01\
        ";

    let mut wire = Wire::new(buf);
    let reader = FrontendReader::new((), 256);
    let (_req, mut body) = read_request(&mut wire, reader, 128)
        .expect("can't break into parts")
        .into_parts();

    assert_eq!(&b"01"[..], read(&mut wire, &mut body, 128).unwrap().unwrap());
    assert!(matches!(
        read(&mut wire, &mut body, 128),
        Err(FrontendError::BodyReadError(BodyError::UnexpectedEOF)),
    ));

    // stops part way through trailers
    let buf = b"\
        GET /te HTTP/1.1\r\n\
        Transfer-Encoding: chunked\r\n\
        \r\n\
        3;extensions=suck\r\n\
        012\r\n\
        2\r\n\
        34\r\n\
        0\r\n\
        first-trai\
        ";

    let mut wire = Wire::new(buf);
    let reader = FrontendReader::new((), 256);
    let (req, mut body) = read_request(&mut wire, reader, 128)
        .expect("can't break into parts")
        .into_parts();

    assert_eq!(&b"GET"[..], req.method());
    assert_eq!(&b"/te"[..], req.path());

    // read one byte out
    assert_eq!(&b"0"[..], read(&mut wire, &mut body, 1).unwrap().unwrap());
    // read zero bytes out
    assert_eq!(&b""[..], read(&mut wire, &mut body, 0).unwrap().unwrap());
    // try to read out 4 bytes, but only 2 remain in the chunk
    assert_eq!(&b"12"[..], read(&mut wire, &mut body, 4).unwrap().unwrap());
    // try to read out 4 bytes, but the next chunk is only two bytes
    assert_eq!(&b"34"[..], read(&mut wire, &mut body, 4).unwrap().unwrap());

    assert!(matches!(
        read(&mut wire, &mut body, 128),
        Err(FrontendError::BodyReadError(BodyError::UnexpectedEOF)),
    ));
}

#[test]
fn lib_trickle_cl() {
    let buf = b"\
        GET /cl HTTP/1.1\r\n\
        Content-Length: 5\r\n\
        \r\n\
        01234\
        extra bytes\
        ";

    // feed bytes slowly
    let mut wire = Wire::new(buf);
    wire.read_step = 3;
    let reader = FrontendReader::new((), 256);
    let (req, mut body) = read_request(&mut wire, reader, 128)
        .expect("can't break into parts")
        .into_parts();

    assert_eq!(&b"GET"[..], req.method());
    assert_eq!(&b"/cl"[..], req.path());

    let mut body_buf = BytesMut::with_capacity(64);
    while let Some(buf) = read(&mut wire, &mut body, 64).unwrap() {
        body_buf.extend(buf);
    }

    assert_eq!(&b"01234"[..], body_buf);
}

#[test]
fn lib_trickle_te() {
    let buf = b"\
        GET /te HTTP/1.1\r\n\
        Transfer-Encoding: chunked\r\n\
        \r\n\
        3;extensions=suck\r\n\
        ABC\r\n\
        2\r\n\
        DE\r\n\
        0\r\n\
        first-trailer: 1\r\n\
        second-trailer: 2\r\n\
        \r\n\
        extra bytes\
        ";

    // feed bytes slowly
    let mut wire = Wire::new(buf);
    wire.read_step = 3;
    let reader = FrontendReader::new((), 256);
    let (req, mut body) = read_request(&mut wire, reader, 128)
        .expect("can't break into parts")
        .into_parts();

    assert_eq!(&b"GET"[..], req.method());
    assert_eq!(&b"/te"[..], req.path());

    let mut body_buf = BytesMut::with_capacity(64);
    while let Some(buf) = read(&mut wire, &mut body, 64).unwrap() {
        body_buf.extend(buf);
    }

    assert_eq!(&b"ABCDE"[..], body_buf);
}

#[test]
fn reader_read_cl_frontend() {
    let buf = b"\
        GET /cl HTTP/1.1\r\n\
        Content-Length: 5\r\n\
        \r\n\
        01234\
        extra bytes\
        ";

    let mut wire = Wire::new(buf);
    let reader = FrontendReader::new((), 256);
    let (req, mut body) = read_request_in_steps(&mut wire, reader, 128)
        .expect("can't break into parts")
        .into_parts();

    assert_eq!(&b"GET"[..], req.method());
    assert_eq!(&b"/cl"[..], req.path());

    assert_eq!(&b"0"[..], read(&mut wire, &mut body, 1).unwrap().unwrap());
    assert_eq!(&b""[..], read(&mut wire, &mut body, 0).unwrap().unwrap());
    assert_eq!(&b"1234"[..], read(&mut wire, &mut body, 4).unwrap().unwrap());

    // once the body is fully drained, always return none.
    assert!(read(&mut wire, &mut body, 1).unwrap().is_none());
    assert!(read(&mut wire, &mut body, 0).unwrap().is_none());
}

#[test]
fn reader_peek_cl_frontend() {
    let buf = b"\
        GET /cl HTTP/1.1\r\n\
        Content-Length: 5\r\n\
        \r\n\
        01234\
        extra bytes\
        ";

    let mut wire = Wire::new(buf);
    let reader = FrontendReader::new((), 256);
    let (req, body) = read_request_in_steps(&mut wire, reader, 128)
        .expect("can't break into parts")
        .into_parts();
    let mut body = body.peekable();

    assert_eq!(&b"GET"[..], req.method());
    assert_eq!(&b"/cl"[..], req.path());

    // same as read tests, but peek first.
    let (complete, x) = peek(&mut wire, &mut body, 5).expect("can peek");
    assert!(complete);
    assert_eq!(&b"01234"[..], x);

    assert_eq!(&b"0"[..], read_peekable(&mut wire, &mut body, 1).unwrap().unwrap());
    assert_eq!(&b""[..], read_peekable(&mut wire, &mut body, 0).unwrap().unwrap());
    assert_eq!(&b"1234"[..], read_peekable(&mut wire, &mut body, 4).unwrap().unwrap());

    // peek again after reading all the data, make sure we're complete with
    // no data.
    let (complete, x) = peek(&mut wire, &mut body, 5).expect("can peek");
    assert!(complete);
    assert_eq!(&b""[..], x);

    // once the body is fully drained, always return none.
    assert!(read_peekable(&mut wire, &mut body, 1).unwrap().is_none());
    assert!(read_peekable(&mut wire, &mut body, 0).unwrap().is_none());
}

#[test]
fn reader_read_te_frontend() {
    let buf = b"\
        GET /te HTTP/1.1\r\n\
        Transfer-Encoding: chunked\r\n\
        \r\n\
        3;extensions=suck\r\n\
        012\r\n\
        2\r\n\
        34\r\n\
        0\r\n\
        first-trailer: 1\r\n\
        second-trailer: 2\r\n\
        \r\n\
        extra bytes\
        ";

    let mut wire = Wire::new(buf);
    let reader = FrontendReader::new((), 256);
    let (req, mut body) = read_request_in_steps(&mut wire, reader, 128)
        .expect("can't break into parts")
        .into_parts();

    assert_eq!(&b"GET"[..], req.method());
    assert_eq!(&b"/te"[..], req.path());

    // read one byte out
    assert_eq!(&b"0"[..], read(&mut wire, &mut body, 1).unwrap().unwrap());
    // read zero bytes out
    assert_eq!(&b""[..], read(&mut wire, &mut body, 0).unwrap().unwrap());
    // try to read out 4 bytes, but only 2 remain in the chunk
    assert_eq!(&b"12"[..], read(&mut wire, &mut body, 4).unwrap().unwrap());
    // try to read out 4 bytes, but the next chunk is only two bytes
    assert_eq!(&b"34"[..], read(&mut wire, &mut body, 4).unwrap().unwrap());

    // once the body is fully drained, always return none.
    assert!(read(&mut wire, &mut body, 1).unwrap().is_none());
    assert!(read(&mut wire, &mut body, 0).unwrap().is_none());
}

#[test]
fn reader_pipeline() {
    let buf = b"\
        GET /te HTTP/1.1\r\n\
        Transfer-Encoding: chunked\r\n\
        \r\n\
        3\r\n\
        012\r\n\
        2\r\n\
        34\r\n\
        0\r\n\
        first-trailer: 1\r\n\
        second-trailer: 2\r\n\
        \r\n\
        POST /cl HTTP/1.1\r\n\
        Content-Length: 5\r\n\
        \r\n\
        01234\
        ";

    let mut wire = Wire::new(buf);
    let reader = FrontendReader::new((), 256);
    let (req, mut body) = read_request_in_steps(&mut wire, reader, 128)
        .expect("can't break into parts")
        .into_parts();
    assert_eq!(&b"GET"[..], req.method());
    assert_eq!(&b"/te"[..], req.path());

    // first request finished. get another reader out for the following request
    drive(&mut wire, |cx| body.poll_drain(cx)).unwrap();
    let reader = body.finish();
    let (req, mut body) = read_request_in_steps(&mut wire, reader, 128)
        .expect("can't break into parts")
        .into_parts();
    assert_eq!(&b"POST"[..], req.method());
    assert_eq!(&b"/cl"[..], req.path());
    let buf = read(&mut wire, &mut body, 128).unwrap().unwrap();
    assert_eq!(b"01234".as_slice(), buf);
}

#[test]
fn reader_partial_head() {
    // missing header \r\n
    let buf = b"\
        GET /cl HTTP/1.1\r\n\
        Some-Header: xxx\
        ";

    let mut wire = Wire::new(buf);
    let reader = FrontendReader::new((), 256);
    assert!(matches!(
        read_request_in_steps(&mut wire, reader, 128),
        Err(FrontendError::UnexpectedEOF)
    ));
}

#[test]
fn reader_partial_cl() {
    // stops part way through body
    let buf = b"\
        GET /cl HTTP/1.1\r\n\
        Content-Length: 5\r\n\
        \r\n\
        012\
        ";

    let mut wire = Wire::new(buf);
    let reader = FrontendReader::new((), 256);
    let (req, mut body) = read_request_in_steps(&mut wire, reader, 128)
        .expect("can't break into parts")
        .into_parts();

    assert_eq!(&b"GET"[..], req.method());
    assert_eq!(&b"/cl"[..], req.path());

    assert_eq!(&b"0"[..], read(&mut wire, &mut body, 1).unwrap().unwrap());
    assert_eq!(&b""[..], read(&mut wire, &mut body, 0).unwrap().unwrap());
    assert_eq!(&b"12"[..], read(&mut wire, &mut body, 4).unwrap().unwrap());

    assert!(matches!(
        read(&mut wire, &mut body, 4),
        Err(FrontendError::BodyReadError(BodyError::UnexpectedEOF)),
    ));
}

#[test]
fn reader_partial_te() {
    // stops part way through chunk extension
    let buf = b"\
        GET /te HTTP/1.1\r\n\
        Transfer-Encoding: chunked\r\n\
        \r\n\
        3;extensions=su\
        ";

    let mut wire = Wire::new(buf);
    let reader = FrontendReader::new((), 256);
    let (_req, mut body) = read_request_in_steps(&mut wire, reader, 128)
        .expect("can't break into parts")
        .into_parts();

    assert!(matches!(
        read(&mut wire, &mut body, 128),
        Err(FrontendError::BodyReadError(BodyError::UnexpectedEOF)),
    ));

    // stops part way through chunk
    let buf = b"\
        GET /te HTTP/1.1\r\n\
        Transfer-Encoding: chunked\r\n\
        \r\n\
        3;extensions=suck\r\n\
        01\
        ";

    let mut wire = Wire::new(buf);
    let reader = FrontendReader::new((), 256);
    let (_req, mut body) = read_request_in_steps(&mut wire, reader, 128)
        .expect("can't break into parts")
        .into_parts();

    assert_eq!(&b"01"[..], read(&mut wire, &mut body, 128).unwrap().unwrap());
    assert!(matches!(
        read(&mut wire, &mut body, 128),
        Err(FrontendError::BodyReadError(BodyError::UnexpectedEOF)),
    ));

    // stops part way through trailers
    let buf = b"\
        GET /te HTTP/1.1\r\n\
        Transfer-Encoding: chunked\r\n\
        \r\n\
        3;extensions=suck\r\n\
        012\r\n\
        2\r\n\
        34\r\n\
        0\r\n\
        first-trai\
        ";

    let mut wire = Wire::new(buf);
    let reader = FrontendReader::new((), 256);
    let (req, mut body) = read_request_in_steps(&mut wire, reader, 128)
        .expect("can't break into parts")
        .into_parts();

    assert_eq!(&b"GET"[..], req.method());
    assert_eq!(&b"/te"[..], req.path());

    // read one byte out
    assert_eq!(&b"0"[..], read(&mut wire, &mut body, 1).unwrap().unwrap());
    // read zero bytes out
    assert_eq!(&b""[..], read(&mut wire, &mut body, 0).unwrap().unwrap());
    // try to read out 4 bytes, but only 2 remain in the chunk
    assert_eq!(&b"12"[..], read(&mut wire, &mut body, 4).unwrap().unwrap());
    // try to read out 4 bytes, but the next chunk is only two bytes
    assert_eq!(&b"34"[..], read(&mut wire, &mut body, 4).unwrap().unwrap());

    assert!(matches!(
        read(&mut wire, &mut body, 128),
        Err(FrontendError::BodyReadError(BodyError::UnexpectedEOF)),
    ));
}

#[test]
fn reader_trickle_cl() {
    let buf = b"\
        GET /cl HTTP/1.1\r\n\
        Content-Length: 5\r\n\
        \r\n\
        01234\
        extra bytes\
        ";

    // feed bytes slowly
    let mut wire = Wire::new(buf);
    wire.read_step = 3;
    let reader = FrontendReader::new((), 256);
    let (req, mut body) = read_request_in_steps(&mut wire, reader, 128)
        .expect("can't break into parts")
        .into_parts();

    assert_eq!(&b"GET"[..], req.method());
    assert_eq!(&b"/cl"[..], req.path());

    let mut body_buf = BytesMut::with_capacity(64);
    while let Some(buf) = read(&mut wire, &mut body, 64).unwrap() {
        body_buf.extend(buf);
    }

    assert_eq!(&b"01234"[..], body_buf);
}

#[test]
fn reader_trickle_te() {
    let buf = b"\
        GET /te HTTP/1.1\r\n\
        Transfer-Encoding: chunked\r\n\
        \r\n\
        3;extensions=suck\r\n\
        ABC\r\n\
        2\r\n\
        DE\r\n\
        0\r\n\
        first-trailer: 1\r\n\
        second-trailer: 2\r\n\
        \r\n\
        extra bytes\
        ";

    // feed bytes slowly
    let mut wire = Wire::new(buf);
    wire.read_step = 3;
    let reader = FrontendReader::new((), 256);
    let (req, mut body) = read_request_in_steps(&mut wire, reader, 128)
        .expect("can't break into parts")
        .into_parts();

    assert_eq!(&b"GET"[..], req.method());
    assert_eq!(&b"/te"[..], req.path());

    let mut body_buf = BytesMut::with_capacity(64);
    while let Some(buf) = read(&mut wire, &mut body, 64).unwrap() {
        body_buf.extend(buf);
    }

    assert_eq!(&b"ABCDE"[..], body_buf);
}

#[test]
fn invalid_te_trailer_trailing_space() {
    // invalid trailing space before \r in first-trailer
    let buf = b"\
        GET /te HTTP/1.1\r\n\
        Transfer-Encoding: chunked\r\n\
        \r\n\
        3;extensions=suck\r\n\
        012\r\n\
        2\r\n\
        34\r\n\
        0\r\n\
        first-trailer: 1 \r\n\
        second-trailer: 2\r\n\
        \r\n\
        extra bytes\
        ";

    let mut wire = Wire::new(buf);
    let reader = FrontendReader::new((), 256);
    let (req, mut body) = read_request(&mut wire, reader, 128)
        .expect("can't break into parts")
        .into_parts();

    assert_eq!(&b"GET"[..], req.method());
    assert_eq!(&b"/te"[..], req.path());

    // read one byte out
    assert_eq!(&b"0"[..], read(&mut wire, &mut body, 1).unwrap().unwrap());
    // read zero bytes out
    assert_eq!(&b""[..], read(&mut wire, &mut body, 0).unwrap().unwrap());
    // try to read out 4 bytes, but only 2 remain in the chunk
    assert_eq!(&b"12"[..], read(&mut wire, &mut body, 4).unwrap().unwrap());
    // try to read out 4 bytes, but the next chunk is only two bytes
    assert_eq!(&b"34"[..], read(&mut wire, &mut body, 4).unwrap().unwrap());

    assert!(matches!(
        read(&mut wire, &mut body, 1).unwrap_err(),
        FrontendError::BodyReadError(BodyError::TrailerError(TrailerError::InvalidFieldValue))
    ));
}

#[test]
fn nothing_on_the_connection() {
    let mut wire = Wire::new(b"");
    assert!(matches!(
        read_request(&mut wire, FrontendReader::new((), 16), 128),
        Err(FrontendError::FirstReadEOF)
    ));
}

#[test]
fn head_too_long() {
    let mut wire = Wire::new(b"GET / HTTP/1.1\r\nHost: example\r\n\r\n");
    assert!(matches!(
        read_request(&mut wire, FrontendReader::new((), 16), 20),
        Err(FrontendError::MaxHeadLenExceeded(20, 20))
    ));
    // a head of just the limit is still read
    let mut wire = Wire::new(b"GET / HTTP/1.1\r\nHost: example\r\n\r\n");
    assert!(read_request(&mut wire, FrontendReader::new((), 16), 33).is_ok());
}

#[test]
fn bad_heads_are_refused() {
    let mut wire = Wire::new(b"GET / HTTP/9.9\r\n\r\n");
    assert!(matches!(
        read_request(&mut wire, FrontendReader::new((), 16), 128),
        Err(FrontendError::HttpRequestParseError(MessageError::Parse(_)))
    ));
    let mut wire = Wire::new(b"GET / HTTP/1.1\r\nTransfer-Encoding: gzip\r\n\r\n");
    assert!(matches!(
        read_request(&mut wire, FrontendReader::new((), 16), 128),
        Err(FrontendError::HeaderError(
            HeaderError::UnsupportedTransferEncoding(_)
        ))
    ));
}

#[test]
fn a_failed_read_is_passed_on() {
    let mut reader = FrontendReader::new((), 16);
    let mut cx = Context::new();
    assert!(matches!(reader.poll_head(&mut cx, 128), Poll::Pending));
    assert!(matches!(cx.take_wants(), Wants::Read(_)));
    cx.deliver_read(Err(std::io::Error::from(std::io::ErrorKind::TimedOut)));
    match reader.poll_head(&mut cx, 128) {
        Poll::Ready(Err(FrontendError::ReadError(e))) => {
            assert_eq!(e.kind(), std::io::ErrorKind::TimedOut)
        }
        _ => panic!("not a read error"),
    }
}

#[test]
fn requests_without_framing_follow_each_other() {
    let buf = b"GET /1 HTTP/1.1\r\n\r\nGET /2 HTTP/1.1\r\nContent-Length: 0\r\n\r\nrest";
    let mut wire = Wire::new(buf);
    let reader = FrontendReader::new((), 16);
    let req = read_request(&mut wire, reader, 128).unwrap();
    assert_eq!(req.mode(), BodyReadMode::Bodyless);
    let (req, mut body) = req.into_parts();
    assert_eq!(req.path().as_ref(), b"/1");
    assert!(body.drained());
    assert!(read(&mut wire, &mut body, 1).unwrap().is_none());
    let reader = body.finish();
    let (req, body) = read_request(&mut wire, reader, 128).unwrap().into_parts();
    assert_eq!(req.path().as_ref(), b"/2");
    assert_eq!(body.mode(), BodyReadMode::ContentLength(0));
    let reader = body.finish();
    assert_eq!(reader.as_buf_slice(), b"rest");
    assert_eq!(reader.as_inner(), &());
    let ((), rest) = reader.into_inner().into_parts();
    assert_eq!(rest, b"rest");
}

#[test]
fn trailers_are_handed_out() {
    let head = b"POST / HTTP/1.1\r\nTransfer-Encoding: chunked\r\n\r\n";
    let mut wire = Wire::new(b"2\r\nab\r\n0\r\nx: y\r\n\r\nGET");
    let reader = FrontendReader::new_with_buffer(BytesReader::from_parts((), head.to_vec()), 16);
    let (_, body) = read_request(&mut wire, reader, 128).unwrap().into_parts();
    match body.into_kind() {
        FrontendBodyReaderKind::TE(mut body) => {
            assert!(!body.drained());
            drive(&mut wire, |cx| body.poll_drain(cx)).unwrap();
            assert!(body.drained());
            let (reader, trailers) = body.finish();
            assert_eq!(trailers.len(), 1);
            assert_eq!(trailers.field(0), (&b"x"[..], &b"y"[..]));
            assert_eq!(reader.as_buf_slice(), b"GET");
        }
        _ => panic!("not chunked"),
    }
}

#[test]
fn a_written_request_is_read_back_piece_by_piece() {
    let req = RequestBuilder::new(2)
        .with_method("POST")
        .with_path("/a/b?c")
        .with_version(HttpVersion::Http11)
        .with_header("Host", b"example")
        .with_header("transfer-encoding", b"gzip")
        .build()
        .unwrap();
    let mut input = write_request_to(&req, WriteFraming::Chunked);
    input.extend_from_slice(b"3\r\nabc\r\nd\r\n0123456789def\r\n0\r\nt: v\r\n\r\nnext");
    for step in 1..=input.len() {
        let mut wire = Wire::new(&input);
        wire.read_step = step;
        let reader = FrontendReader::new((), 2);
        let (got, body) = read_request(&mut wire, reader, 128).unwrap().into_parts();
        assert_eq!(got.method().as_ref(), b"POST");
        assert_eq!(got.path().as_ref(), b"/a/b?c");
        assert_eq!(got.version(), HttpVersion::Http11);
        assert_eq!(got.headers().len(), 2);
        assert_eq!(got.headers().field(0), (&b"Host"[..], &b"example"[..]));
        assert_eq!(
            got.headers().field(1),
            (&b"transfer-encoding"[..], &b"chunked"[..])
        );
        let mut body = match body.into_kind() {
            FrontendBodyReaderKind::TE(body) => body,
            _ => panic!("not chunked"),
        };
        let mut seen = Vec::new();
        while let Some(data) = drive(&mut wire, |cx| body.poll_read(cx, 5)).unwrap() {
            assert!(!data.is_empty() && data.len() <= 5);
            seen.extend_from_slice(&data);
        }
        assert_eq!(seen, b"abc0123456789def");
        let (reader, trailers) = body.finish();
        assert_eq!(trailers.len(), 1);
        assert_eq!(trailers.field(0), (&b"t"[..], &b"v"[..]));
        let mut rest = reader.as_buf_slice().to_vec();
        rest.extend_from_slice(&wire.input[wire.at..]);
        assert_eq!(rest, b"next");
    }
}

#[test]
fn peeking_takes_nothing() {
    let mut wire = Wire::new(b"POST / HTTP/1.1\r\nContent-Length: 6\r\n\r\nabcdef");
    wire.read_step = 2;
    let reader = FrontendReader::new((), 16);
    let (_, body) = read_request(&mut wire, reader, 128).unwrap().into_parts();
    let mut body = body.peekable();
    assert_eq!(body.mode(), BodyReadMode::ContentLength(6));
    let first = peek(&mut wire, &mut body, 3).unwrap();
    assert!(!first.0);
    assert_eq!(&first.1[..3], b"abc");
    assert_eq!(peek(&mut wire, &mut body, 3).unwrap(), first);
    let all = peek(&mut wire, &mut body, 100).unwrap();
    assert_eq!(all, (true, b"abcdef".to_vec()));
    let mut seen = Vec::new();
    while let Some(data) = read_peekable(&mut wire, &mut body, 4).unwrap() {
        assert!(data.len() <= 4);
        seen.extend_from_slice(&data);
    }
    assert_eq!(seen, b"abcdef");
    assert!(body.drained());
    drive(&mut wire, |cx| body.poll_drain(cx)).unwrap();
    assert!(body.finish().is_some());
}
