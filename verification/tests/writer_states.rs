use jrpxy::backend::error::{BackendError, BackendResult};
use jrpxy::backend::writer::body as backend;
use jrpxy::backend::writer::chunked as backend_chunked;
use jrpxy::backend::writer::content_length as backend_length;
use jrpxy::backend::writer::bodyless as backend_bodyless;
use jrpxy::body::error::BodyError;
use jrpxy::body::writer::{bodyless, chunked, content_length, eof};
use jrpxy::frontend::error::{FrontendError, FrontendResult};
use jrpxy::frontend::writer::body as frontend;
use jrpxy::frontend::writer::bodyless as frontend_bodyless;
use jrpxy::frontend::writer::chunked as frontend_chunked;
use jrpxy::frontend::writer::content_length as frontend_length;
use jrpxy::frontend::writer::eof as frontend_eof;
use jrpxy::transport::{Context, Poll, Wants};

/// A connection in memory: what can be read from it, and what was written.
struct Wire {
    input: Vec<u8>,
    at: usize,
    /// How much one read gives at most.
    read_step: usize,
    output: Vec<u8>,
    /// How much one write takes at most.
    write_step: usize,
    /// How much can be written in all.
    capacity: usize,
    flushes: usize,
}

impl Wire {
    fn new(input: &[u8]) -> Wire {
        Wire {
            input: input.to_vec(),
            at: 0,
            read_step: usize::MAX,
            output: Vec::new(),
            write_step: usize::MAX,
            capacity: usize::MAX,
            flushes: 0,
        }
    }

    /// Perform the operation that a pending poll waits for.
    fn serve(&mut self, cx: &mut Context) {
        match cx.take_wants() {
            Wants::Read(n) => {
                let n = n.min(self.read_step).min(self.input.len() - self.at);
                let data = self.input[self.at..self.at + n].to_vec();
                self.at += n;
                cx.deliver_read(Ok(data));
            }
            Wants::Write(b) => {
                let n = b
                    .len()
                    .min(self.write_step)
                    .min(self.capacity - self.output.len());
                self.output.extend_from_slice(&b[..n]);
                cx.deliver_write(Ok(n));
            }
            Wants::Flush => {
                self.flushes += 1;
                cx.deliver_flush(Ok(()));
            }
            Wants::Nothing => panic!("a pending poll waits for nothing"),
        }
    }
}

/// Poll until ready.
fn drive<T>(wire: &mut Wire, mut poll: impl FnMut(&mut Context) -> Poll<T>) -> T {
    let mut cx = Context::new();
    loop {
        match poll(&mut cx) {
            Poll::Ready(t) => return t,
            Poll::Pending => wire.serve(&mut cx),
        }
    }
}

/// Write `data` as one chunk.
fn write_to_client(
    wire: &mut Wire,
    ready: frontend::Ready<()>,
    data: &[u8],
) -> FrontendResult<frontend::Ready<()>> {
    let mut open = ready.open(data.len() as u64)?;
    drive(wire, |cx| open.poll_open(cx))?;
    let mut write = open.into_write()?;
    let mut written = 0;
    drive(wire, |cx| write.poll_write_all(cx, data, &mut written))?;
    let mut close = write.into_close()?;
    drive(wire, |cx| close.poll_close(cx))?;
    close.into_ready()
}

/// Write `data` as one chunk, however little is accepted at a time.
fn write_to_server(
    wire: &mut Wire,
    ready: backend::Ready<()>,
    data: &[u8],
) -> BackendResult<backend::Ready<()>> {
    let mut open = ready.open(data.len() as u64)?;
    drive(wire, |cx| open.poll_open(cx))?;
    let mut write = open.into_write()?;
    let mut at = 0;
    while at < data.len() {
        at += drive(wire, |cx| write.poll_write(cx, &data[at..]))?;
    }
    let mut close = write.into_close()?;
    drive(wire, |cx| close.poll_close(cx))?;
    close.into_ready()
}

#[test]
fn frontend_states_for_each_encoding() {
    let all: [(frontend::Ready<()>, &[u8], bool); 3] = [
        (
            frontend_length::Ready::new(content_length::Ready::new(5, ())).into(),
            b"abcde",
            true,
        ),
        (
            frontend_chunked::Ready::new(chunked::Ready::new(())).into(),
            b"2\r\nab\r\n3\r\ncde\r\n0\r\n\r\n",
            true,
        ),
        (
            frontend_eof::Ready::new(eof::Ready::new(())).into(),
            b"abcde",
            false,
        ),
    ];
    for (ready, expected, goes_on) in all {
        let mut wire = Wire::new(b"");
        wire.write_step = 1;
        let ready = write_to_client(&mut wire, ready, b"ab").unwrap();
        let ready = write_to_client(&mut wire, ready, b"cde").unwrap();
        let mut finish = ready.finish().unwrap();
        drive(&mut wire, |cx| finish.poll_finish(cx)).unwrap();
        assert_eq!(finish.into_writer().unwrap().is_some(), goes_on);
        assert_eq!(wire.output, expected);
    }
}

#[test]
fn frontend_states_without_a_body() {
    let mut wire = Wire::new(b"");
    let ready: frontend::Ready<()> = frontend_bodyless::Ready::new(bodyless::Ready::new(())).into();
    let ready = write_to_client(&mut wire, ready, b"").unwrap();
    assert!(matches!(
        write_to_client(&mut wire, ready, b"a"),
        Err(FrontendError::BodyWriteError(BodyError::BodyOverflow(_)))
    ));
    let ready: frontend::Ready<()> = frontend_bodyless::Ready::new(bodyless::Ready::new(())).into();
    assert!(matches!(
        ready.finish().unwrap().into_writer(),
        Err(FrontendError::BodyWriteError(BodyError::UnflushedFinish))
    ));
    assert!(wire.output.is_empty());
}

#[test]
fn frontend_abort_poisons_only_chunks() {
    let mut wire = Wire::new(b"");
    let ready: frontend::Ready<()> = frontend_chunked::Ready::new(chunked::Ready::new(())).into();
    let ready = write_to_client(&mut wire, ready, b"ab").unwrap();
    let mut abort = ready.abort();
    drive(&mut wire, |cx| abort.poll_abort(cx)).unwrap();
    abort.discard().unwrap();
    assert_eq!(wire.output, b"2\r\nab\r\nx");

    let mut wire = Wire::new(b"");
    let ready: frontend::Ready<()> = frontend_eof::Ready::new(eof::Ready::new(())).into();
    let mut abort = ready.abort();
    drive(&mut wire, |cx| abort.poll_abort(cx)).unwrap();
    abort.discard().unwrap();
    assert!(wire.output.is_empty());
    let ready: frontend::Ready<()> = frontend_eof::Ready::new(eof::Ready::new(())).into();
    assert!(matches!(
        ready.abort().discard(),
        Err(FrontendError::BodyWriteError(BodyError::UnflushedAbort))
    ));
}

#[test]
fn frontend_body_that_is_too_short() {
    let mut wire = Wire::new(b"");
    let ready: frontend::Ready<()> =
        frontend_length::Ready::new(content_length::Ready::new(5, ())).into();
    let ready = write_to_client(&mut wire, ready, b"ab").unwrap();
    assert!(matches!(
        ready.finish(),
        Err(FrontendError::BodyWriteError(BodyError::IncompleteBody {
            expected: 5,
            actual: 2
        }))
    ));
}

#[test]
fn backend_states_for_each_encoding() {
    let all: [(backend::Ready<()>, &[u8]); 2] = [
        (
            backend_length::Ready::new(content_length::Ready::new(5, ())).into(),
            b"abcde",
        ),
        (
            backend_chunked::Ready::new(chunked::Ready::new(())).into(),
            b"2\r\nab\r\n3\r\ncde\r\n0\r\n\r\n",
        ),
    ];
    for (ready, expected) in all {
        let mut wire = Wire::new(b"");
        wire.write_step = 2;
        let ready = write_to_server(&mut wire, ready, b"ab").unwrap();
        let ready = write_to_server(&mut wire, ready, b"cde").unwrap();
        let mut finish = ready.finish().unwrap();
        drive(&mut wire, |cx| finish.poll_finish(cx)).unwrap();
        finish.into_writer().unwrap().into_inner();
        assert_eq!(wire.output, expected);
    }
    let mut wire = Wire::new(b"");
    let ready: backend::Ready<()> = backend_bodyless::Ready::new(bodyless::Ready::new(())).into();
    assert!(matches!(
        write_to_server(&mut wire, ready, b"a"),
        Err(BackendError::BodyWriteError(BodyError::BodyOverflow(_)))
    ));
    let ready: backend::Ready<()> = backend_chunked::Ready::new(chunked::Ready::new(())).into();
    let mut abort = ready.abort();
    drive(&mut wire, |cx| abort.poll_abort(cx)).unwrap();
    abort.discard().unwrap();
    assert_eq!(wire.output, b"x");
}
