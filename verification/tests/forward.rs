use bytes::Bytes;
use jrpxy::body::error::{BodyError, BodyResult};
use jrpxy::body::forwarder::chunked_to_chunked::ChunkToChunkBodyForwarder;
use jrpxy::body::forwarder::chunked_to_other::ChunkToOtherBodyForwarder;
use jrpxy::body::forwarder::other::{OtherBodyReader, OtherBodyWriter};
use jrpxy::body::forwarder::other_to_chunked::OtherToChunkedBodyForwarder;
use jrpxy::body::forwarder::other_to_other::OtherToOtherBodyForwarder;
use jrpxy::body::forwarder::BodyForwarder;
use jrpxy::body::reader::chunk_head::ChunkHeadReader;
use jrpxy::body::reader::content_length::ContentLengthBodyReader;
use jrpxy::body::reader::eof::EofBodyReader;
use jrpxy::body::writer::chunked;
use jrpxy::body::writer::content_length::ContentLengthBodyWriter;
use jrpxy::http_message::message::ParseSlots;
use jrpxy::io_buffer::BytesReader;
use jrpxy::transport::{Context, Poll, Wants, WriteFailure};

/// A connection in memory: what can be read from it, and what was written.
struct Wire {
    input: Vec<u8>,
    at: usize,
    /// How much one read gives at most.
    read_step: usize,
    output: Vec<u8>,
    /// How much one write takes at most.
    write_step: usize,
    /// How much can be written in all.
    capacity: usize,
    flushes: usize,
}

impl Wire {
    fn new(input: &[u8]) -> Wire {
        Wire {
            input: input.to_vec(),
            at: 0,
            read_step: usize::MAX,
            output: Vec::new(),
            write_step: usize::MAX,
            capacity: usize::MAX,
            flushes: 0,
        }
    }

    /// Perform the operation that a pending poll waits for.
    fn serve(&mut self, cx: &mut Context) {
        match cx.take_wants() {
            Wants::Read(n) => {
                let n = n.min(self.read_step).min(self.input.len() - self.at);
                let data = self.input[self.at..self.at + n].to_vec();
                self.at += n;
                cx.deliver_read(Ok(data));
            }
            Wants::Write(b) => {
                let n = b
                    .len()
                    .min(self.write_step)
                    .min(self.capacity - self.output.len());
                self.output.extend_from_slice(&b[..n]);
                cx.deliver_write(Ok(n));
            }
            Wants::Flush => {
                self.flushes += 1;
                cx.deliver_flush(Ok(()));
            }
            Wants::Nothing => panic!("a pending poll waits for nothing"),
        }
    }
}

/// Poll until ready.
fn drive<T>(wire: &mut Wire, mut poll: impl FnMut(&mut Context) -> Poll<T>) -> T {
    let mut cx = Context::new();
    loop {
        match poll(&mut cx) {
            Poll::Ready(t) => return t,
            Poll::Pending => wire.serve(&mut cx),
        }
    }
}

/// Forward a body from end to end.
fn forward(
    wire: &mut Wire,
    f: impl Into<BodyForwarder<(), ()>>,
) -> (BodyForwarder<(), ()>, BodyResult<()>) {
    let mut f = f.into();
    let r = drive(wire, |cx| f.poll_forward(cx));
    (f, r)
}

fn chunk_reader() -> ChunkHeadReader<()> {
    ChunkHeadReader::new(BytesReader::new(()), ParseSlots::default(), false)
}

fn length_reader(n: u64) -> OtherBodyReader<()> {
    OtherBodyReader::ContentLength(ContentLengthBodyReader::new(
        n,
        BytesReader::new(()),
        ParseSlots::default(),
    ))
}

fn eof_reader() -> OtherBodyReader<()> {
    OtherBodyReader::Eof(EofBodyReader::new(
        BytesReader::new(()),
        ParseSlots::default(),
    ))
}

fn length_writer(n: u64) -> OtherBodyWriter<()> {
    OtherBodyWriter::ContentLength(ContentLengthBodyWriter::new(n, ()))
}

#[test]
fn chunks_stay_chunks() {
    let input = b"3;ext=1\r\nabc\r\n10\r\n0123456789abcdef\r\n0\r\nt: 1\r\n\r\n";
    for (read_step, write_step) in [(usize::MAX, usize::MAX), (1, 1), (3, 2), (50, 7)] {
        let mut wire = Wire::new(input);
        wire.read_step = read_step;
        wire.write_step = write_step;
        let (_, r) = forward(
            &mut wire,
            ChunkToChunkBodyForwarder::new(chunk_reader(), chunked::Ready::new(())),
        );
        r.unwrap();
        // extensions are dropped, trailers are kept
        assert_eq!(
            wire.output,
            b"3\r\nabc\r\n10\r\n0123456789abcdef\r\n0\r\nt: 1\r\n\r\n"
        );
        assert!(wire.flushes > 0);
    }
}

#[test]
fn success_is_final_and_does_nothing() {
    let mut wire = Wire::new(b"00A;e\r\n0123456789\r\n0\r\n\r\nnext");
    let (mut f, r) = forward(
        &mut wire,
        ChunkToChunkBodyForwarder::new(chunk_reader(), chunked::Ready::new(())),
    );
    r.unwrap();
    assert_eq!(wire.output, b"a\r\n0123456789\r\n0\r\n\r\n");
    let mut cx = Context::new();
    for _ in 0..2 {
        assert!(matches!(f.poll_forward(&mut cx), Poll::Ready(Ok(()))));
    }
    assert!(matches!(cx.take_wants(), Wants::Nothing));
}

#[test]
fn long_data_is_read_in_bounded_pieces() {
    let data = vec![b'z'; 20000];
    let mut wire = Wire::new(&data);
    let (_, r) = forward(
        &mut wire,
        OtherToChunkedBodyForwarder::new(eof_reader(), chunked::Ready::new(())),
    );
    r.unwrap();
    let mut expected = Vec::new();
    for len in [8192, 8192, 3616] {
        expected.extend_from_slice(format!("{len:x}\r\n").as_bytes());
        expected.extend_from_slice(&data[..len]);
        expected.extend_from_slice(b"\r\n");
    }
    expected.extend_from_slice(b"0\r\n\r\n");
    assert_eq!(wire.output, expected);
}

#[test]
fn chunks_become_data() {
    let input = b"3\r\nabc\r\n2\r\nde\r\n0\r\nt: 1\r\n\r\n";
    for step in [usize::MAX, 1, 2] {
        let mut wire = Wire::new(input);
        wire.read_step = step;
        wire.write_step = step;
        let (_, r) = forward(
            &mut wire,
            ChunkToOtherBodyForwarder::new(chunk_reader(), length_writer(5)),
        );
        r.unwrap();
        assert_eq!(wire.output, b"abcde");

        let mut wire = Wire::new(input);
        let (_, r) = forward(
            &mut wire,
            ChunkToOtherBodyForwarder::new(chunk_reader(), OtherBodyWriter::Eof(())),
        );
        r.unwrap();
        assert_eq!(wire.output, b"abcde");
    }
}

#[test]
fn chunks_that_do_not_fit() {
    let mut wire = Wire::new(b"3\r\nabc\r\n0\r\n\r\n");
    let (mut f, r) = forward(
        &mut wire,
        ChunkToOtherBodyForwarder::new(chunk_reader(), length_writer(2)),
    );
    assert!(matches!(r, Err(BodyError::BodyOverflow(2))));
    assert!(matches!(
        drive(&mut wire, |cx| f.poll_forward(cx)),
        Err(BodyError::ForwardAfterError)
    ));
    let mut wire = Wire::new(b"3\r\nabc\r\n0\r\n\r\n");
    let (_, r) = forward(
        &mut wire,
        ChunkToOtherBodyForwarder::new(chunk_reader(), length_writer(4)),
    );
    assert!(matches!(
        r,
        Err(BodyError::IncompleteBody {
            expected: 4,
            actual: 3
        })
    ));
}

#[test]
fn data_becomes_chunks() {
    for step in [usize::MAX, 3, 1] {
        let mut wire = Wire::new(b"abcdefrest");
        wire.write_step = step;
        wire.read_step = 4;
        let (_, r) = forward(
            &mut wire,
            OtherToChunkedBodyForwarder::new(length_reader(6), chunked::Ready::new(())),
        );
        r.unwrap();
        assert_eq!(wire.output, b"4\r\nabcd\r\n2\r\nef\r\n0\r\n\r\n");

        let mut wire = Wire::new(b"abcdefg");
        wire.write_step = step;
        let (_, r) = forward(
            &mut wire,
            OtherToChunkedBodyForwarder::new(eof_reader(), chunked::Ready::new(())),
        );
        r.unwrap();
        assert_eq!(wire.output, b"7\r\nabcdefg\r\n0\r\n\r\n");
    }
}

#[test]
fn data_stays_data() {
    for step in [usize::MAX, 3, 1] {
        let mut wire = Wire::new(b"abcdefrest");
        wire.write_step = step;
        let (_, r) = forward(
            &mut wire,
            OtherToOtherBodyForwarder::new(length_reader(6), length_writer(6)),
        );
        r.unwrap();
        assert_eq!(wire.output, b"abcdef");

        let mut wire = Wire::new(b"abcdefg");
        wire.read_step = step;
        let (_, r) = forward(
            &mut wire,
            OtherToOtherBodyForwarder::new(eof_reader(), OtherBodyWriter::Eof(())),
        );
        r.unwrap();
        assert_eq!(wire.output, b"abcdefg");
    }
}

#[test]
fn failures_while_forwarding_are_final() {
    // the reader runs dry
    let mut wire = Wire::new(b"abc");
    let (mut f, r) = forward(
        &mut wire,
        OtherToOtherBodyForwarder::new(length_reader(6), length_writer(6)),
    );
    assert!(matches!(r, Err(BodyError::UnexpectedEOF)));
    assert!(matches!(
        drive(&mut wire, |cx| f.poll_forward(cx)),
        Err(BodyError::ForwardAfterError)
    ));
    // the writer takes no more than a part of the chunk header
    let mut wire = Wire::new(b"abcdef");
    wire.capacity = 2;
    let (mut f, r) = forward(
        &mut wire,
        OtherToChunkedBodyForwarder::new(length_reader(6), chunked::Ready::new(())),
    );
    assert!(matches!(
        r,
        Err(BodyError::BodyWriteError(WriteFailure::WriteZero))
    ));
    assert!(matches!(
        drive(&mut wire, |cx| f.poll_forward(cx)),
        Err(BodyError::ForwardAfterError)
    ));
    // a chunk header is malformed
    let mut wire = Wire::new(b"zz\r\n");
    let (_, r) = forward(
        &mut wire,
        ChunkToChunkBodyForwarder::new(chunk_reader(), chunked::Ready::new(())),
    );
    assert!(matches!(r, Err(BodyError::InvalidChunkHeader(_))));
}

#[test]
fn other_readers_and_writers() {
    let mut wire = Wire::new(b"abcd");
    let mut reader = length_reader(3);
    let data: Bytes = drive(&mut wire, |cx| reader.poll_read(cx, 8)).unwrap().unwrap();
    assert_eq!(data.as_ref(), b"abc");
    let (_, left) = reader.into_done();
    assert!(left.is_some());
    let (_, left) = {
        let mut reader = eof_reader();
        while drive(&mut wire, |cx| reader.poll_read(cx, 8)).unwrap().is_some() {}
        reader.into_done()
    };
    assert!(left.is_none());
    let mut writer = length_writer(2);
    assert_eq!(drive(&mut wire, |cx| writer.poll_write(cx, b"ab")).unwrap(), 2);
    drive(&mut wire, |cx| writer.poll_flush(cx)).unwrap();
    assert!(writer.into_writer().unwrap().is_some());
    assert!(length_writer(2).into_writer().is_err());
    assert!(OtherBodyWriter::Eof(()).into_writer().unwrap().is_none());
}

/// Take a body in chunks apart: the data of each, and what stands behind the end.
fn take_apart(mut wire: &[u8]) -> (Vec<Vec<u8>>, Vec<u8>) {
    let mut pieces = Vec::new();
    loop {
        let at = wire.windows(2).position(|w| w == b"\r\n").unwrap();
        let size = std::str::from_utf8(&wire[..at]).unwrap();
        let n = usize::from_str_radix(size, 16).unwrap();
        let data = &wire[at + 2..at + 2 + n];
        assert_eq!(&wire[at + 2 + n..at + 4 + n], b"\r\n");
        wire = &wire[at + 4 + n..];
        if n == 0 {
            return (pieces, wire.to_vec());
        }
        pieces.push(data.to_vec());
    }
}

#[test]
fn each_piece_becomes_one_chunk() {
    let body = b"a body that comes in piece by piece";
    for read_step in 1..=body.len() {
        for write_step in [1, 2, 5, 100] {
            for by_length in [true, false] {
                let mut wire = Wire::new(body);
                if by_length {
                    wire.input.extend_from_slice(b"next");
                }
                wire.read_step = read_step;
                wire.write_step = write_step;
                let reader = if by_length {
                    length_reader(body.len() as u64)
                } else {
                    eof_reader()
                };
                let (_, r) = forward(
                    &mut wire,
                    OtherToChunkedBodyForwarder::new(reader, chunked::Ready::new(())),
                );
                r.unwrap();
                let (pieces, behind) = take_apart(&wire.output);
                assert_eq!(pieces.concat(), body);
                assert!(pieces.iter().all(|p| p.len() <= read_step));
                assert!(behind.is_empty());
            }
        }
    }
}

#[test]
fn plain_data_is_forwarded_as_it_comes() {
    let body = b"a body that comes in piece by piece";
    for read_step in 1..=body.len() {
        for write_step in [1, 3, 100] {
            let mut wire = Wire::new(body);
            wire.read_step = read_step;
            wire.write_step = write_step;
            let f = OtherToOtherBodyForwarder::new(eof_reader(), length_writer(body.len() as u64));
            let (_, r) = forward(&mut wire, f);
            r.unwrap();
            assert_eq!(wire.output, body);
            assert_eq!(wire.flushes, 1);

            let mut wire = Wire::new(body);
            wire.read_step = read_step;
            wire.write_step = write_step;
            let f = OtherToOtherBodyForwarder::new(
                length_reader(body.len() as u64),
                OtherBodyWriter::Eof(()),
            );
            let (_, r) = forward(&mut wire, f);
            r.unwrap();
            assert_eq!(wire.output, body);
        }
    }

    // A body that is cut off does not arrive as a whole one.
    let mut wire = Wire::new(b"short");
    let f = OtherToOtherBodyForwarder::new(length_reader(9), OtherBodyWriter::Eof(()));
    let (_, r) = forward(&mut wire, f);
    assert!(matches!(r, Err(BodyError::UnexpectedEOF)));
    assert_eq!(wire.output, b"short");
}
