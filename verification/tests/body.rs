use bytes::Bytes;
use jrpxy::body::body_reader::{BodyReadMode, BodyReader};
use jrpxy::body::error::{BodyError, BodyResult, TrailerError};
use jrpxy::body::peekable_reader::PeekableBodyReader;
use jrpxy::body::reader::bodyless::BodylessBodyReader;
use jrpxy::body::reader::chunk_head::{ChunkHeadReader, NextChunk};
use jrpxy::body::reader::chunked::ChunkedBodyReader;
use jrpxy::body::reader::content_length::ContentLengthBodyReader;
use jrpxy::body::reader::eof::EofBodyReader;
use jrpxy::body::writer::bodyless;
use jrpxy::body::writer::chunked;
use jrpxy::body::writer::chunked_body::ChunkedBodyWriter;
use jrpxy::body::writer::content_length;
use jrpxy::body::writer::content_length::ContentLengthBodyWriter;
use jrpxy::body::writer::eof;
use jrpxy::http_message::header::Headers;
use jrpxy::http_message::message::ParseSlots;
use jrpxy::io_buffer::{BytesReader, ReaderBufferError};
use jrpxy::transport::{Context, Poll, Wants, WriteFailure};

/// A connection in memory: what can be read from it, and what was written.
struct Wire {
    input: Vec<u8>,
    at: usize,
    /// How much one read gives at most.
    read_step: usize,
    output: Vec<u8>,
    /// How much one write takes at most.
    write_step: usize,
    /// How much can be written in all.
    capacity: usize,
    flushes: usize,
}

impl Wire {
    fn new(input: &[u8]) -> Wire {
        Wire {
            input: input.to_vec(),
            at: 0,
            read_step: usize::MAX,
            output: Vec::new(),
            write_step: usize::MAX,
            capacity: usize::MAX,
            flushes: 0,
        }
    }

    /// Perform the operation that a pending poll waits for.
    fn serve(&mut self, cx: &mut Context) {
        match cx.take_wants() {
            Wants::Read(n) => {
                let n = n.min(self.read_step).min(self.input.len() - self.at);
                let data = self.input[self.at..self.at + n].to_vec();
                self.at += n;
                cx.deliver_read(Ok(data));
            }
            Wants::Write(b) => {
                let n = b
                    .len()
                    .min(self.write_step)
                    .min(self.capacity - self.output.len());
                self.output.extend_from_slice(&b[..n]);
                cx.deliver_write(Ok(n));
            }
            Wants::Flush => {
                self.flushes += 1;
                cx.deliver_flush(Ok(()));
            }
            Wants::Nothing => panic!("a pending poll waits for nothing"),
        }
    }
}

/// Poll until ready.
fn drive<T>(wire: &mut Wire, mut poll: impl FnMut(&mut Context) -> Poll<T>) -> T {
    let mut cx = Context::new();
    loop {
        match poll(&mut cx) {
            Poll::Ready(t) => return t,
            Poll::Pending => wire.serve(&mut cx),
        }
    }
}

fn headers_of(pairs: &[(&'static str, &'static str)]) -> Headers {
    let mut headers = Headers::default();
    for (n, v) in pairs {
        headers.push(
            Bytes::from_static(n.as_bytes()),
            Bytes::from_static(v.as_bytes()),
        );
    }
    headers
}

fn read_chunked(
    wire: &mut Wire,
    br: &mut ChunkedBodyReader<()>,
    max_len: usize,
) -> BodyResult<Option<Bytes>> {
    drive(wire, |cx| br.poll_read(cx, max_len))
}

#[test]
fn chunked_read_empty_chunk_extension() {
    // Make sure we handle correctly parsing chunk-extensions without any
    // names. See
    // https://www.imperva.com/blog/smuggling-requests-with-chunked-extensions-a-new-http-desync-trick/
    let input = b"\
        4;\r\n\
        0123\r\n\
        3;a=b\r\n\
        012\r\n\
        0\r\n\
        \r\n\
        ";

    let mut wire = Wire::new(input);
    let mut br = ChunkedBodyReader::new(BytesReader::new(()), ParseSlots::default());
    let chunk = read_chunked(&mut wire, &mut br, 10)
        .expect("read works")
        .unwrap();
    assert_eq!(b"0123", chunk.as_ref());
    let chunk = read_chunked(&mut wire, &mut br, 10)
        .expect("read works")
        .unwrap();
    assert_eq!(b"012", chunk.as_ref());
    assert!(read_chunked(&mut wire, &mut br, 10)
        .expect("read works")
        .is_none());
}

#[test]
fn chunked_reject_invalid_chunk_footer() {
    // Note that the 'X' is where the '\r' should be.
    let input = b"\
        4\r\n\
        0123X\r\n\
        0\r\n\
        \r\n\
        ";

    let mut wire = Wire::new(input);
    let mut br = ChunkedBodyReader::new(BytesReader::new(()), ParseSlots::default());

    // The body bytes themselves are valid and should be readable.
    let chunk = read_chunked(&mut wire, &mut br, 4)
        .expect("reading body bytes works")
        .unwrap();
    assert_eq!(b"0123", chunk.as_ref());

    // Reading past the body must result in an error.
    assert!(matches!(
        read_chunked(&mut wire, &mut br, 1).unwrap_err(),
        BodyError::InvalidChunkFooter(b'\r', b'X'),
    ));

    // Note that the 'X' is where the '\n' should be.
    let input = b"\
        4\r\n\
        0123\rX\n\
        0\r\n\
        \r\n\
        ";

    let mut wire = Wire::new(input);
    let mut br = ChunkedBodyReader::new(BytesReader::new(()), ParseSlots::default());

    // The body bytes themselves are valid and should be readable.
    let chunk = read_chunked(&mut wire, &mut br, 4)
        .expect("reading body bytes works")
        .unwrap();
    assert_eq!(b"0123", chunk.as_ref());

    // Reading past the body must result in an error.
    assert!(matches!(
        read_chunked(&mut wire, &mut br, 1).unwrap_err(),
        BodyError::InvalidChunkFooter(b'\n', b'X'),
    ));
}

/// Drive a full Open/Write/Close cycle for `data`.
fn drive_chunk(wire: &mut Wire, ready: chunked::Ready<()>, data: &[u8]) -> chunked::Ready<()> {
    let mut open = ready.open(data.len() as u64);
    drive(wire, |cx| open.poll_open(cx)).expect("open");
    let mut write = open.into_write().expect("into_write");
    let mut written = 0;
    drive(wire, |cx| write.poll_write_all(cx, data, &mut written)).expect("write_all");
    let mut close = write.into_close().expect("into_close");
    drive(wire, |cx| close.poll_close(cx)).expect("close");
    close.into_ready().expect("into_ready")
}

fn finish_chunked(wire: &mut Wire, mut finish: chunked::Finish<()>) -> BodyResult<()> {
    drive(wire, |cx| finish.poll_finish(cx))?;
    finish.into_writer()
}

#[test]
fn chunked_two_chunks_finish() {
    let mut wire = Wire::new(b"");
    let ready = chunked::Ready::new(());
    let ready = drive_chunk(&mut wire, ready, b"hello");
    let ready = drive_chunk(&mut wire, ready, b"there");
    finish_chunked(&mut wire, ready.finish()).unwrap();
    assert_eq!(
        "5\r\nhello\r\n5\r\nthere\r\n0\r\n\r\n",
        std::str::from_utf8(&wire.output).unwrap()
    );
}

#[test]
fn chunked_two_chunks_abort() {
    let mut wire = Wire::new(b"");
    let ready = chunked::Ready::new(());
    let ready = drive_chunk(&mut wire, ready, b"hello");
    let ready = drive_chunk(&mut wire, ready, b"there");
    let mut abort = ready.abort();
    drive(&mut wire, |cx| abort.poll_abort(cx)).unwrap();
    abort.discard().unwrap();
    assert_eq!(
        "5\r\nhello\r\n5\r\nthere\r\nx",
        std::str::from_utf8(&wire.output).unwrap()
    );
}

#[test]
fn chunked_open_zero_is_noop_cycle() {
    let mut wire = Wire::new(b"");
    let ready = chunked::Ready::new(());
    let mut open = ready.open(0);
    drive(&mut wire, |cx| open.poll_open(cx)).unwrap();
    let mut write = open.into_write().unwrap();
    let mut written = 0;
    drive(&mut wire, |cx| write.poll_write_all(cx, b"", &mut written)).unwrap();
    let mut close = write.into_close().unwrap();
    drive(&mut wire, |cx| close.poll_close(cx)).unwrap();
    let ready = close.into_ready().unwrap();
    finish_chunked(&mut wire, ready.finish()).unwrap();
    assert_eq!("0\r\n\r\n", std::str::from_utf8(&wire.output).unwrap());
}

#[test]
fn chunked_open_zero_rejects_data() {
    let mut wire = Wire::new(b"");
    let ready = chunked::Ready::new(());
    let mut open = ready.open(0);
    drive(&mut wire, |cx| open.poll_open(cx)).unwrap();
    let mut write = open.into_write().unwrap();
    let mut written = 0;
    let err = drive(&mut wire, |cx| write.poll_write_all(cx, b"x", &mut written))
        .expect_err("write_all on empty chunk should overflow");
    assert!(matches!(err, BodyError::BodyOverflow(0)));
}

#[test]
fn chunked_into_close_incomplete_chunk() {
    let mut wire = Wire::new(b"");
    let ready = chunked::Ready::new(());
    let mut open = ready.open(5);
    drive(&mut wire, |cx| open.poll_open(cx)).unwrap();
    let mut write = open.into_write().unwrap();
    let mut written = 0;
    drive(&mut wire, |cx| {
        write.poll_write_all(cx, b"abc", &mut written)
    })
    .unwrap();
    let err = write
        .into_close()
        .err()
        .expect("into_close should error on partial chunk");
    assert!(matches!(
        err,
        BodyError::IncompleteBody {
            expected: 5,
            actual: 3
        }
    ));
}

#[test]
fn chunked_finish_with_trailers() {
    let mut wire = Wire::new(b"");
    let ready = chunked::Ready::new(());
    let ready = drive_chunk(&mut wire, ready, b"hi");
    let trailers = headers_of(&[("x-foo", "bar")]);
    finish_chunked(&mut wire, ready.finish_with_trailers(&trailers)).unwrap();
    assert_eq!(
        "2\r\nhi\r\n0\r\nx-foo: bar\r\n\r\n",
        std::str::from_utf8(&wire.output).unwrap()
    );
}

#[test]
fn content_length_write_overflow() {
    let mut wire = Wire::new(b"");
    let mut bw = ContentLengthBodyWriter::new(10, ());
    let mut written = 0;
    let () = drive(&mut wire, |cx| {
        bw.poll_write_all(cx, b"01234", &mut written)
    })
    .unwrap();
    let mut written = 0;
    let e = drive(&mut wire, |cx| {
        bw.poll_write_all(cx, b"567890", &mut written)
    })
    .unwrap_err();
    assert!(matches!(e, BodyError::BodyOverflow(10)));
}

#[test]
fn content_length_zero_write() {
    let mut wire = Wire::new(b"");
    wire.capacity = 4;
    let mut bw = ContentLengthBodyWriter::new(10, ());
    let mut written = 0;
    let e = drive(&mut wire, |cx| {
        bw.poll_write_all(cx, b"01234", &mut written)
    })
    .unwrap_err();
    let BodyError::BodyWriteError(e) = e else {
        panic!("unexpected error: {e:?}");
    };
    assert!(matches!(e, WriteFailure::WriteZero));
}

/// Drive a full Open/Write/Close cycle, writing `data` of declared
/// chunk length `data.len()`.
fn drive_eof_chunk(wire: &mut Wire, ready: eof::Ready<()>, data: &[u8]) -> eof::Ready<()> {
    let mut open = ready.open(data.len() as u64);
    drive(wire, |cx| open.poll_open(cx)).expect("open");
    let mut write = open.into_write().expect("into_write");
    let mut written = 0;
    drive(wire, |cx| write.poll_write_all(cx, data, &mut written)).expect("write");
    let mut close = write.into_close().expect("into_close");
    drive(wire, |cx| close.poll_close(cx)).expect("close");
    close.into_ready().expect("into_ready")
}

#[test]
fn eof_full_body_single_chunk() {
    let mut wire = Wire::new(b"");
    let ready = eof::Ready::new(());
    let ready = drive_eof_chunk(&mut wire, ready, b"hello");
    let mut finish = ready.finish();
    drive(&mut wire, |cx| finish.poll_finish(cx)).unwrap();
    finish.discard().unwrap();
    assert_eq!(wire.output, b"hello");
}

#[test]
fn eof_full_body_two_chunks() {
    let mut wire = Wire::new(b"");
    let ready = eof::Ready::new(());
    let ready = drive_eof_chunk(&mut wire, ready, b"abc");
    let _ready = drive_eof_chunk(&mut wire, ready, b"defg");
    assert_eq!(wire.output, b"abcdefg");
}

#[test]
fn eof_write_overflow_in_chunk() {
    let mut wire = Wire::new(b"");
    let ready = eof::Ready::new(());
    let mut open = ready.open(3);
    drive(&mut wire, |cx| open.poll_open(cx)).unwrap();
    let mut write = open.into_write().unwrap();
    let mut written = 0;
    let err = drive(&mut wire, |cx| {
        write.poll_write_all(cx, b"abcde", &mut written)
    })
    .expect_err("write should overflow");
    assert!(matches!(err, BodyError::BodyOverflow(3)));
}

#[test]
fn eof_into_close_incomplete_chunk() {
    let mut wire = Wire::new(b"");
    let ready = eof::Ready::new(());
    let mut open = ready.open(5);
    drive(&mut wire, |cx| open.poll_open(cx)).unwrap();
    let mut write = open.into_write().unwrap();
    let mut written = 0;
    drive(&mut wire, |cx| {
        write.poll_write_all(cx, b"abc", &mut written)
    })
    .unwrap();
    let err = write
        .into_close()
        .err()
        .expect("into_close should error on partial chunk");
    assert!(matches!(
        err,
        BodyError::IncompleteBody {
            expected: 5,
            actual: 3
        }
    ));
}

#[test]
fn eof_finish_unflushed_errors() {
    let ready = eof::Ready::new(());
    let finish = ready.finish();
    let err = finish.discard().expect_err("discard should error");
    assert!(matches!(err, BodyError::UnflushedFinish));
}

#[test]
fn eof_abort_unflushed_errors() {
    let ready = eof::Ready::new(());
    let abort = ready.abort();
    let err = abort.discard().expect_err("discard should error");
    assert!(matches!(err, BodyError::UnflushedAbort));
}

#[test]
fn states_left_too_early() {
    // the head of a chunk of 300 bytes is "12c\r\n"
    let mut open = chunked::Ready::new(()).open(300);
    let mut cx = Context::new();
    assert!(matches!(open.poll_open(&mut cx), Poll::Pending));
    cx.deliver_write(Ok(2));
    assert!(matches!(open.poll_open(&mut cx), Poll::Pending));
    assert!(matches!(
        open.into_write(),
        Err(BodyError::IncompleteChunkHeader {
            expected: 5,
            actual: 2
        })
    ));

    let mut wire = Wire::new(b"");
    let mut open = chunked::Ready::new(()).open(1);
    drive(&mut wire, |cx| open.poll_open(cx)).unwrap();
    let mut write = open.into_write().unwrap();
    assert_eq!(write.chunk_remaining(), 1);
    let n = drive(&mut wire, |cx| write.poll_write(cx, b"a")).unwrap();
    assert_eq!(n, 1);
    let close = write.into_close().unwrap();
    assert!(matches!(
        close.into_ready(),
        Err(BodyError::IncompleteChunkFooter {
            expected: 2,
            actual: 0
        })
    ));

    assert!(matches!(
        chunked::Ready::new(()).finish().into_writer(),
        Err(BodyError::IncompleteFinish {
            expected: 5,
            actual: 0
        })
    ));
    let mut finish = chunked::Ready::new(()).finish();
    let mut cx = Context::new();
    assert!(matches!(finish.poll_finish(&mut cx), Poll::Pending));
    cx.deliver_write(Ok(5));
    assert!(matches!(finish.poll_finish(&mut cx), Poll::Pending));
    assert!(matches!(
        finish.into_writer(),
        Err(BodyError::UnflushedFinish)
    ));
    assert!(matches!(
        chunked::Ready::new(()).abort().discard(),
        Err(BodyError::UnflushedAbort)
    ));
}

#[test]
fn content_length_in_chunks() {
    let mut wire = Wire::new(b"");
    let ready = content_length::Ready::new(7, ());
    assert_eq!(ready.remaining(), 7);
    let mut open = ready.open(4).unwrap();
    drive(&mut wire, |cx| open.poll_open(cx)).unwrap();
    let mut write = open.into_write().unwrap();
    let mut written = 0;
    drive(&mut wire, |cx| {
        write.poll_write_all(cx, b"abcd", &mut written)
    })
    .unwrap();
    let mut close = write.into_close().unwrap();
    drive(&mut wire, |cx| close.poll_close(cx)).unwrap();
    let ready = close.into_ready().unwrap();
    assert_eq!(ready.remaining(), 3);
    match ready.finish() {
        Err(e) => assert!(matches!(
            e,
            BodyError::IncompleteBody {
                expected: 7,
                actual: 4
            }
        )),
        Ok(_) => panic!("the body is not complete"),
    }
    assert!(matches!(
        content_length::Ready::new(7, ()).open(8),
        Err(BodyError::BodyOverflow(7))
    ));
    assert_eq!(wire.output, b"abcd");
    let mut finish = content_length::Ready::new(0, ()).finish().unwrap();
    drive(&mut wire, |cx| finish.poll_finish(cx)).unwrap();
    finish.into_writer().unwrap();
}

#[test]
fn bodyless_takes_no_data() {
    let mut wire = Wire::new(b"");
    let mut open = bodyless::Ready::new(()).open(0).unwrap();
    drive(&mut wire, |cx| open.poll_open(cx)).unwrap();
    let mut write = open.into_write().unwrap();
    assert_eq!(write.chunk_remaining(), 0);
    assert!(matches!(
        drive(&mut wire, |cx| write.poll_write(cx, b"a")),
        Err(BodyError::BodyOverflow(0))
    ));
    assert!(bodyless::Ready::new(()).open(1).is_err());
    assert!(wire.output.is_empty());
}

#[test]
fn chunked_writer_reads_back() {
    let mut wire = Wire::new(b"");
    wire.write_step = 3;
    let mut bw = ChunkedBodyWriter::new(());
    for data in [&b"0123456789"[..], b"", b"a", &[b'z'; 300]] {
        drive(&mut wire, |cx| bw.poll_write(cx, data)).unwrap();
    }
    let mut finish = bw.into_finish(&headers_of(&[("a", "1"), ("b", "")])).unwrap();
    drive(&mut wire, |cx| finish.poll_finish(cx)).unwrap();
    finish.into_writer().unwrap();
    assert!(wire.output.starts_with(b"a\r\n0123456789\r\n1\r\na\r\n12c\r\nzzz"));

    let mut written = wire.output.clone();
    written.extend_from_slice(b"rest");
    let mut wire = Wire::new(&written);
    wire.read_step = 7;
    let mut br = ChunkedBodyReader::new(BytesReader::new(()), ParseSlots::default());
    let mut seen = Vec::new();
    while let Some(data) = read_chunked(&mut wire, &mut br, 11).unwrap() {
        assert!(!data.is_empty() && data.len() <= 11);
        seen.extend_from_slice(&data);
    }
    assert_eq!(&seen[..11], b"0123456789a");
    assert_eq!(&seen[11..], [b'z'; 300]);
    assert!(br.drained());
    assert!(read_chunked(&mut wire, &mut br, 11).unwrap().is_none());
    let (reader, slots, trailers) = br.finish();
    assert_eq!(trailers.len(), 2);
    assert_eq!(trailers.field(0), (&b"a"[..], &b"1"[..]));
    assert_eq!(trailers.field(1), (&b"b"[..], &b""[..]));
    let mut rest = reader.as_bytes().to_vec();
    rest.extend_from_slice(&wire.input[wire.at..]);
    assert_eq!(rest, b"rest");
    drop(slots);
}

#[test]
fn an_unfinished_write_is_not_forgotten() {
    let mut bw = ChunkedBodyWriter::new(());
    let mut cx = Context::new();
    assert!(matches!(bw.poll_write(&mut cx, b"abc"), Poll::Pending));
    cx.deliver_write(Err(std::io::Error::from(std::io::ErrorKind::BrokenPipe)));
    assert!(matches!(
        bw.poll_write(&mut cx, b"abc"),
        Poll::Ready(Err(BodyError::BodyWriteError(WriteFailure::Io(_))))
    ));
    assert!(matches!(
        bw.poll_write(&mut cx, b"abc"),
        Poll::Ready(Err(BodyError::WriteAfterError))
    ));
}

#[test]
fn an_aborted_body_is_refused() {
    let mut wire = Wire::new(b"");
    let mut bw = ChunkedBodyWriter::new(());
    drive(&mut wire, |cx| bw.poll_write(cx, b"abc")).unwrap();
    let mut abort = bw.into_abort().unwrap();
    drive(&mut wire, |cx| abort.poll_abort(cx)).unwrap();
    let mut wire = Wire::new(&wire.output);
    let mut br = ChunkedBodyReader::new(BytesReader::new(()), ParseSlots::default());
    let data = read_chunked(&mut wire, &mut br, 11).unwrap().unwrap();
    assert_eq!(data.as_ref(), b"abc");
    assert!(matches!(
        read_chunked(&mut wire, &mut br, 11),
        Err(BodyError::InvalidChunkHeader(_))
    ));
    assert!(matches!(
        read_chunked(&mut wire, &mut br, 11),
        Err(BodyError::ReadAfterError)
    ));
    // nothing more can be read
    assert!(br.drained());
}

#[test]
fn chunk_by_chunk() {
    let mut wire = Wire::new(b"5;x=y\r\nhello\r\n0;last\r\nt: 1\r\n\r\n");
    wire.read_step = 1;
    let mut head = ChunkHeadReader::new(BytesReader::new(()), ParseSlots::default(), false);
    drive(&mut wire, |cx| head.poll_read_chunk(cx)).unwrap();
    let mut data = match head.finish() {
        NextChunk::Data(data) => data,
        NextChunk::Final(_) => panic!("not the end"),
    };
    assert_eq!(data.size(), 5);
    assert_eq!(data.extensions().header_bytes().as_ref(), b"5;x=y\r\n");
    let mut seen = Vec::new();
    while let Some(part) = drive(&mut wire, |cx| data.poll_read(cx, 2)).unwrap() {
        seen.extend_from_slice(&part);
    }
    assert_eq!(seen, b"hello");
    let mut head = data.finish();
    drive(&mut wire, |cx| head.poll_read_chunk(cx)).unwrap();
    match head.finish() {
        NextChunk::Data(_) => panic!("not the end"),
        NextChunk::Final(end) => {
            assert_eq!(end.extensions().header_bytes().as_ref(), b"0;last\r\n");
            assert_eq!(end.trailers().len(), 1);
            let (reader, _, trailers) = end.into_parts();
            assert!(reader.is_empty());
            assert_eq!(trailers.field(0), (&b"t"[..], &b"1"[..]));
        }
    }
}

/// The error that a chunked body ends in.
fn chunked_error(input: &[u8], strict: bool) -> Option<BodyError> {
    let mut wire = Wire::new(input);
    let reader = BytesReader::new(());
    let mut br = if strict {
        ChunkedBodyReader::with_strict_trailers(reader, ParseSlots::new(1))
    } else {
        ChunkedBodyReader::new(reader, ParseSlots::new(1))
    };
    drive(&mut wire, |cx| br.poll_drain(cx)).err()
}

#[test]
fn bad_trailers() {
    assert!(chunked_error(b"0\r\n\r\n", true).is_none());
    assert!(chunked_error(b"0\r\na: 1 \r\n\r\n", false).is_none());
    assert!(matches!(
        chunked_error(b"0\r\na: 1 \r\n\r\n", true),
        Some(BodyError::TrailerError(TrailerError::InvalidFieldValue))
    ));
    assert!(matches!(
        chunked_error(b"0\r\na b: 1\r\n\r\n", true),
        Some(BodyError::TrailerError(TrailerError::InvalidFieldName))
    ));
    assert!(matches!(
        chunked_error(b"0\r\n\rx", true),
        Some(BodyError::TrailerError(TrailerError::InvalidTrailerFooter))
    ));
    assert!(matches!(
        chunked_error(b"0\r\na: 1\r\nb: 2\r\n\r\n", false),
        Some(BodyError::TrailerError(TrailerError::TooManyFields))
    ));
    assert!(matches!(
        chunked_error(b"0\r\na b: 1\r\n\r\n", false),
        Some(BodyError::TrailerError(_))
    ));
    assert!(matches!(
        chunked_error(b"0\r\na: 1\r\n", false),
        Some(BodyError::UnexpectedEOF)
    ));
}

#[test]
fn content_length_reads_no_further() {
    let mut wire = Wire::new(b"abcdefrest");
    wire.read_step = 4;
    let mut br = ContentLengthBodyReader::new(6, BytesReader::new(()), ParseSlots::default());
    assert_eq!(br.content_length(), 6);
    let mut seen = Vec::new();
    while let Some(data) = drive(&mut wire, |cx| br.poll_read(cx, 5)).unwrap() {
        seen.extend_from_slice(&data);
    }
    assert_eq!(seen, b"abcdef");
    assert!(br.drained());
    let (reader, _) = br.finish();
    let mut rest = reader.as_bytes().to_vec();
    rest.extend_from_slice(&wire.input[wire.at..]);
    assert_eq!(rest, b"rest");
}

#[test]
fn a_failed_body_read_is_passed_on() {
    let mut br = ContentLengthBodyReader::new(6, BytesReader::new(()), ParseSlots::default());
    let mut cx = Context::new();
    assert!(matches!(br.poll_read(&mut cx, 8), Poll::Pending));
    cx.deliver_read(Err(std::io::Error::from(std::io::ErrorKind::TimedOut)));
    assert!(matches!(
        br.poll_read(&mut cx, 8),
        Poll::Ready(Err(BodyError::BodyReadError(_)))
    ));
}

#[test]
fn eof_body_is_all_there_is() {
    let mut wire = Wire::new(b"world");
    let reader = BytesReader::from_parts((), b"hello ".to_vec());
    let mut br = EofBodyReader::new(reader, ParseSlots::default());
    let mut seen = Vec::new();
    while let Some(data) = drive(&mut wire, |cx| br.poll_read(cx, 4)).unwrap() {
        seen.extend_from_slice(&data);
    }
    assert_eq!(seen, b"hello world");
    assert!(br.drained());
    assert!(drive(&mut wire, |cx| br.poll_read(cx, 4)).unwrap().is_none());
}

#[test]
fn peekable_bodies() {
    let mut wire = Wire::new(b"");
    let mut p = PeekableBodyReader::from_bodyless(BodylessBodyReader::new(
        BytesReader::from_parts((), b"next".to_vec()),
        ParseSlots::default(),
    ));
    assert_eq!(p.mode(), BodyReadMode::Bodyless);
    let peeked = drive(&mut wire, |cx| match p.poll_peek(cx, 4) {
        Poll::Pending => Poll::Pending,
        Poll::Ready(r) => Poll::Ready(r.map(|(c, d)| (c, d.to_vec()))),
    })
    .unwrap();
    assert_eq!(peeked, (true, Vec::new()));
    assert!(p.drained());
    assert_eq!(p.finish().0.unwrap().as_bytes(), b"next");

    let mut wire = Wire::new(b"3\r\nabc\r\n2\r\nde\r\n0\r\n\r\n");
    let mut p = PeekableBodyReader::from_chunked(ChunkedBodyReader::new(
        BytesReader::new(()),
        ParseSlots::default(),
    ));
    let peeked = drive(&mut wire, |cx| match p.poll_peek(cx, 4) {
        Poll::Pending => Poll::Pending,
        Poll::Ready(r) => Poll::Ready(r.map(|(c, d)| (c, d.to_vec()))),
    })
    .unwrap();
    assert_eq!(&peeked.1[..4], b"abcd");
    let mut seen = Vec::new();
    while let Some(data) = drive(&mut wire, |cx| p.poll_read(cx, 3)).unwrap() {
        seen.extend_from_slice(&data);
    }
    assert_eq!(seen, b"abcde");

    let mut wire = Wire::new(b"xy");
    let mut p = PeekableBodyReader::from_eof(EofBodyReader::new(
        BytesReader::new(()),
        ParseSlots::default(),
    ));
    assert_eq!(p.mode(), BodyReadMode::Eof);
    drive(&mut wire, |cx| p.poll_drain(cx)).unwrap();
    assert!(p.finish().0.is_none());
}

/// Look ahead, and copy what was seen.
fn peek(wire: &mut Wire, p: &mut PeekableBodyReader<()>, len: usize) -> BodyResult<(bool, Vec<u8>)> {
    drive(wire, |cx| match p.poll_peek(cx, len) {
        Poll::Pending => Poll::Pending,
        Poll::Ready(r) => Poll::Ready(r.map(|(c, d)| (c, d.to_vec()))),
    })
}

#[test]
fn peeking_again_gives_the_same() {
    // a body that ends with the connection
    let mut wire = Wire::new(b"abc");
    let mut p = PeekableBodyReader::from_eof(EofBodyReader::new(
        BytesReader::new(()),
        ParseSlots::default(),
    ));
    let first = peek(&mut wire, &mut p, 3).unwrap();
    assert_eq!(first, (false, b"abc".to_vec()));
    let mut cx = Context::new();
    assert!(matches!(
        p.poll_peek(&mut cx, 3),
        Poll::Ready(Ok((false, b"abc")))
    ));
    assert!(matches!(cx.take_wants(), Wants::Nothing));
    // further ahead there is nothing, and that stays so
    for _ in 0..2 {
        assert_eq!(
            peek(&mut wire, &mut p, 4).unwrap(),
            (true, b"abc".to_vec())
        );
    }

    // a chunked body with a bad footer behind what was looked at
    let mut wire = Wire::new(b"3\r\nabcX");
    let mut p = PeekableBodyReader::from_chunked(ChunkedBodyReader::new(
        BytesReader::new(()),
        ParseSlots::default(),
    ));
    for _ in 0..3 {
        assert_eq!(
            peek(&mut wire, &mut p, 3).unwrap(),
            (false, b"abc".to_vec())
        );
    }
    assert!(peek(&mut wire, &mut p, 4).is_err());
}

#[test]
fn what_was_looked_at_is_not_drained() {
    let mut wire = Wire::new(b"abc");
    let mut p = PeekableBodyReader::from_content_length(ContentLengthBodyReader::new(
        3,
        BytesReader::new(()),
        ParseSlots::default(),
    ));
    assert_eq!(peek(&mut wire, &mut p, 3).unwrap(), (true, b"abc".to_vec()));
    assert!(!p.drained());
    let data = drive(&mut wire, |cx| p.poll_read(cx, 8)).unwrap().unwrap();
    assert_eq!(data.as_ref(), b"abc");
    assert!(p.drained());
    assert!(drive(&mut wire, |cx| p.poll_read(cx, 8)).unwrap().is_none());

    let mut wire = Wire::new(b"abc");
    let mut p = PeekableBodyReader::from_content_length(ContentLengthBodyReader::new(
        3,
        BytesReader::new(()),
        ParseSlots::default(),
    ));
    peek(&mut wire, &mut p, 2).unwrap();
    drive(&mut wire, |cx| p.poll_drain(cx)).unwrap();
    assert!(p.drained());
}

#[test]
fn no_byte_is_asked_for_where_none_is_wanted() {
    let mut wire = Wire::new(b"data");
    let mut br = EofBodyReader::new(BytesReader::new(()), ParseSlots::default());
    let data = drive(&mut wire, |cx| br.poll_read(cx, 2)).unwrap().unwrap();
    assert_eq!(data.as_ref(), b"da");

    // With bytes in the buffer, a read of none of them gives none.
    let mut br = EofBodyReader::new(
        BytesReader::from_parts((), b"data".to_vec()),
        ParseSlots::default(),
    );
    let mut cx = Context::new();
    match br.poll_read(&mut cx, 0) {
        Poll::Ready(Ok(Some(data))) => assert!(data.is_empty()),
        _ => panic!("not an empty read"),
    }
    assert!(!br.drained());

    // With an empty buffer it is taken for the end of the body.
    let mut br = EofBodyReader::new(BytesReader::new(()), ParseSlots::default());
    assert!(matches!(br.poll_read(&mut cx, 0), Poll::Ready(Ok(None))));
    assert!(matches!(cx.take_wants(), Wants::Nothing));
    assert!(br.drained());
    assert!(matches!(br.poll_read(&mut cx, 8), Poll::Ready(Ok(None))));
}

#[test]
fn chunk_headers_in_any_spelling() {
    let input = b"0003\r\nabc\r\nA  ;x=\"y\";z\r\n0123456789\r\n00;end\r\nt:  v\r\n\r\nnext";
    for step in 1..=input.len() {
        let mut wire = Wire::new(input);
        wire.read_step = step;
        let mut br = ChunkedBodyReader::new(BytesReader::new(()), ParseSlots::default());
        let mut seen = Vec::new();
        while let Some(data) = read_chunked(&mut wire, &mut br, 4).unwrap() {
            assert!(!data.is_empty() && data.len() <= 4);
            seen.extend_from_slice(&data);
        }
        assert_eq!(seen, b"abc0123456789");
        for _ in 0..2 {
            assert!(read_chunked(&mut wire, &mut br, 4).unwrap().is_none());
        }
        let (reader, _, trailers) = br.finish();
        assert_eq!(trailers.len(), 1);
        assert_eq!(trailers.field(0), (&b"t"[..], &b"v"[..]));
        let mut rest = reader.as_bytes().to_vec();
        rest.extend_from_slice(&wire.input[wire.at..]);
        assert_eq!(rest, b"next");
    }
}

#[test]
fn a_header_that_has_been_read_is_not_read_again() {
    let mut wire = Wire::new(b"5\r\nhello");
    let mut head = ChunkHeadReader::new(BytesReader::new(()), ParseSlots::default(), false);
    for _ in 0..3 {
        drive(&mut wire, |cx| head.poll_read_chunk(cx)).unwrap();
    }
    match head.finish() {
        NextChunk::Data(data) => assert_eq!(data.size(), 5),
        NextChunk::Final(_) => panic!("not the end"),
    }
}

#[test]
fn body_reader_by_mode() {
    for (mode, input) in [
        (BodyReadMode::Bodyless, &b"rest"[..]),
        (BodyReadMode::ContentLength(2), &b"abrest"[..]),
        (BodyReadMode::Chunk, &b"2\r\nab\r\n0\r\n\r\nrest"[..]),
    ] {
        let mut wire = Wire::new(b"");
        let reader = BytesReader::from_parts((), input.to_vec());
        let mut br = BodyReader::new(reader, mode, ParseSlots::default());
        assert_eq!(br.mode(), mode);
        let data = drive(&mut wire, |cx| br.poll_read(cx, 8)).unwrap();
        if mode == BodyReadMode::Bodyless {
            assert!(data.is_none());
        } else {
            assert_eq!(data.unwrap().as_ref(), b"ab");
        }
        drive(&mut wire, |cx| br.poll_drain(cx)).unwrap();
        assert!(br.drained());
        assert_eq!(br.finish().0.as_bytes(), b"rest");
    }
}

#[test]
fn a_buffer_gives_back_what_it_read() {
    let mut wire = Wire::new(b"world");
    let mut reader = BytesReader::from_parts(7, b"hello ".to_vec());
    assert_eq!(reader.as_inner(), &7);
    assert_eq!(reader.split_to(2).as_ref(), b"he");
    assert_eq!(reader.get_u8(), b'l');
    assert_eq!(drive(&mut wire, |cx| reader.poll_read(cx, 3)).unwrap(), 3);
    assert_eq!(reader.as_bytes(), b"lo wor");
    drive(&mut wire, |cx| reader.poll_extend(cx, 8)).unwrap();
    assert_eq!(reader.len(), 8);
    drive(&mut wire, |cx| reader.poll_ensure(cx, 8)).unwrap();
    assert_eq!(reader.into_parts(), (7, b"lo world".to_vec()));
    let mut empty = BytesReader::new(());
    assert!(matches!(
        drive(&mut wire, |cx| empty.poll_extend(cx, 8)),
        Err(ReaderBufferError::UnexpectedEOF)
    ));
    assert!(empty.is_empty());
}

#[test]
fn a_drain_ends_behind_the_body() {
    let chunked = b"3\r\nabc\r\n0A;x\r\n0123456789\r\n0\r\nt: v\r\n\r\nnext";
    let plain = b"abcnext";
    for (mode, input) in [
        (BodyReadMode::Chunk, &chunked[..]),
        (BodyReadMode::ContentLength(3), &plain[..]),
    ] {
        for step in 1..=input.len() {
            for ahead in 0..=3 {
                let mut wire = Wire::new(input);
                wire.read_step = step;
                let body = BodyReader::new(BytesReader::new(()), mode, ParseSlots::default());
                let mut p = body.peekable();
                let (_, seen) = peek(&mut wire, &mut p, ahead).unwrap();
                assert_eq!(seen, &b"abc"[..ahead]);
                drive(&mut wire, |cx| p.poll_drain(cx)).unwrap();
                assert!(p.drained());
                let (reader, _) = p.finish();
                let mut rest = reader.unwrap().as_bytes().to_vec();
                rest.extend_from_slice(&wire.input[wire.at..]);
                assert_eq!(rest, b"next");
            }
        }
    }

    // One that was aborted is not drained.
    let mut wire = Wire::new(b"3\r\nabc\r\nxnext");
    let mut br = ChunkedBodyReader::new(BytesReader::new(()), ParseSlots::default());
    assert!(drive(&mut wire, |cx| br.poll_drain(cx)).is_err());
}

#[test]
fn looking_ahead_shows_the_front_of_a_chunked_body() {
    let input = b"3\r\nabc\r\n0A;x\r\n0123456789\r\n0\r\nt: v\r\n\r\nnext";
    let data = b"abc0123456789";
    for step in 1..=input.len() {
        for ahead in 0..=data.len() + 2 {
            let mut wire = Wire::new(input);
            wire.read_step = step;
            let mut p = PeekableBodyReader::from_chunked(ChunkedBodyReader::new(
                BytesReader::new(()),
                ParseSlots::default(),
            ));
            let (complete, seen) = peek(&mut wire, &mut p, ahead).unwrap();
            assert_eq!(seen, &data[..ahead.min(data.len())]);
            assert_eq!(complete, ahead > data.len());
            let mut read = Vec::new();
            while let Some(piece) = drive(&mut wire, |cx| p.poll_read(cx, 2)).unwrap() {
                assert!(!piece.is_empty() && piece.len() <= 2);
                read.extend_from_slice(&piece);
            }
            assert_eq!(read, data);
        }
    }

    // What is there of an aborted body is not all of it.
    let mut wire = Wire::new(b"3\r\nabc\r\nx");
    let mut p = PeekableBodyReader::from_chunked(ChunkedBodyReader::new(
        BytesReader::new(()),
        ParseSlots::default(),
    ));
    assert_eq!(peek(&mut wire, &mut p, 3).unwrap(), (false, b"abc".to_vec()));
    assert!(peek(&mut wire, &mut p, 4).is_err());
}
