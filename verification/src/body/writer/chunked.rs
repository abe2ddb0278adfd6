//! State-machine writer for HTTP bodies framed by
//! `Transfer-Encoding: chunked` (RFC 9112 section 7).
//!
//! Each Open/Write/Close cycle produces one chunk on the wire:
//! `{size:x}\r\n{data}\r\n`. [`Ready::finish`] writes the terminal chunk
//! `0\r\n{trailers}\r\n` and flushes. [`Ready::abort`] writes an invalid
//! chunk header byte to poison the stream so a downstream reader cannot
//! mistake a truncated body for a complete one.
use vstd::prelude::*;
use vstd::string::*;

use crate::body::chunk_coding::{chunk_head, encode_chunk, encode_end};
use crate::body::error::{BodyError, BodyResult};
use crate::body::writer::{
    bounded_put, bounded_write, bounded_write_keeps_bytes, flush_step, poll_flush, poll_put,
    poll_write_all_bounded, poll_write_bounded, put_keeps_bytes, put_step,
};
use crate::http_message::header::Headers;
use crate::http_message::raw::field_lines;
use crate::text::{append, append_crlf, ascii, ascii_bytes, crlf, hex_bytes, hex_length, CR, LF};
use crate::transport::{Context, Cx, Poll};

verus! {

/// Maximum length of a chunk header: 16 hex digits + `\r\n`.
pub const MAX_CHUNK_HEAD_LEN: usize = 18;

/// The header of a chunk of `n` bytes; nothing for an empty chunk.
pub open spec fn open_bytes(n: u64) -> Seq<u8> {
    if n == 0 {
        Seq::empty()
    } else {
        chunk_head(n as nat)
    }
}

/// The footer of a chunk of `n` bytes; nothing for an empty chunk.
pub open spec fn close_bytes(n: u64) -> Seq<u8> {
    if n == 0 {
        Seq::empty()
    } else {
        crlf()
    }
}

/// Idle state.
#[derive(Debug)]
pub struct Ready<I> {
    writer: I,
}

impl<I> Ready<I> {
    /// The connection.
    pub closed spec fn io(&self) -> I {
        self.writer
    }

    /// A body of which nothing has been written.
    pub fn new(writer: I) -> (r: Self)
        ensures
            r.io() == writer,
    {
        Self { writer }
    }

    /// Begin a new chunk of `length` bytes. Chunked encoding has no upper
    /// bound on body size, so this is infallible. A length of zero
    /// produces a no-op cycle that emits nothing on the wire (the
    /// end-of-body marker `0\r\n\r\n` is reserved for [`Self::finish`]).
    pub fn open(self, length: u64) -> (r: Open<I>)
        ensures
            r@ == (OpenView { writer: self.io(), chunk_length: length, written: 0 }),
    {
        let Self { writer } = self;
        Open::new(writer, length)
    }

    /// Terminate the body cleanly. Emits `0\r\n\r\n` and flushes.
    pub fn finish(self) -> (r: Finish<I>)
        ensures
            r@ == (FinishView {
                writer: self.io(),
                data: encode_end(Seq::empty()),
                written: 0,
                flushed: false,
            }),
    {
        self.finish_with_trailers(&Headers::default())
    }

    /// Terminate the body cleanly with trailer fields. Emits
    /// `0\r\n{trailers}\r\n` and flushes.
    pub fn finish_with_trailers(self, trailers: &Headers) -> (r: Finish<I>)
        ensures
            r@ == (FinishView {
                writer: self.io(),
                data: encode_end(trailers@),
                written: 0,
                flushed: false,
            }),
    {
        let Self { writer } = self;
        Finish::new(writer, trailers)
    }

    /// Terminate the body abnormally. Writes an invalid chunk header byte
    /// (`x`) and flushes; the writer is then dropped along with `Abort`.
    pub fn abort(self) -> (r: Abort<I>)
        ensures
            r@ == (AbortView { writer: self.io(), written: false, flushed: false }),
    {
        let Self { writer } = self;
        Abort::new(writer)
    }
}

/// Open state. Writes the chunk-size header bytes (`{N:x}\r\n`).
#[derive(Debug)]
pub struct Open<I> {
    writer: I,
    /// Pre-formatted header bytes, e.g. `5\r\n`; none for an empty chunk.
    header: Vec<u8>,
    /// Number of header bytes already written.
    written: usize,
    /// Declared chunk length, carried into [`Write`] and [`Close`].
    chunk_length: u64,
}

/// The model of an [`Open`].
pub struct OpenView<I> {
    pub writer: I,
    pub chunk_length: u64,
    pub written: nat,
}

impl<I> OpenView<I> {
    /// What is still to be put on the wire.
    pub open spec fn pending(self) -> Seq<u8> {
        open_bytes(self.chunk_length).skip(self.written as int)
    }

    /// The rest of the header is written.
    pub open spec fn poll_open(self, cx: Cx) -> (Self, Cx, Poll<BodyResult<()>>) {
        let (cx, written, p) = put_step(cx, open_bytes(self.chunk_length), self.written);
        (OpenView { written, ..self }, cx, p)
    }
}

impl<I> View for Open<I> {
    type V = OpenView<I>;

    closed spec fn view(&self) -> OpenView<I> {
        OpenView {
            writer: self.writer,
            chunk_length: self.chunk_length,
            written: self.written as nat,
        }
    }
}

impl<I> Open<I> {
    #[verifier::type_invariant]
    spec fn inv(self) -> bool {
        &&& self.header@ == open_bytes(self.chunk_length)
        &&& self.written <= self.header@.len() <= MAX_CHUNK_HEAD_LEN
    }

    fn new(writer: I, chunk_length: u64) -> (r: Self)
        ensures
            r@ == (OpenView { writer, chunk_length, written: 0 }),
    {
        let header = if chunk_length == 0 {
            Vec::new()
        } else {
            let mut header = hex_bytes(chunk_length);
            append_crlf(&mut header);
            proof {
                // 16 hex digits + \r\n always fits in MAX_CHUNK_HEAD_LEN.
                hex_length(chunk_length as nat);
            }
            header
        };
        assert(header@ =~= open_bytes(chunk_length));
        Self { writer, header, written: 0, chunk_length }
    }

    /// Transition to [`Write`]. Errors with
    /// [`BodyError::IncompleteChunkHeader`] if `poll_open` has not driven
    /// the chunk-size header bytes to completion.
    pub fn into_write(self) -> (r: BodyResult<Write<I>>)
        ensures
            match r {
                Ok(w) => self@.written == open_bytes(self@.chunk_length).len() && w@ == (
                WriteView {
                    writer: self@.writer,
                    chunk_length: self@.chunk_length,
                    chunk_offset: 0,
                }),
                Err(e) => self@.written < open_bytes(self@.chunk_length).len() && e == (
                BodyError::IncompleteChunkHeader {
                    expected: open_bytes(self@.chunk_length).len() as u64,
                    actual: self@.written as u64,
                }),
            },
    {
        proof {
            use_type_invariant(&self);
        }
        let Self { writer, header, written, chunk_length } = self;
        if written < header.len() {
            return Err(
                BodyError::IncompleteChunkHeader {
                    expected: header.len() as u64,
                    actual: written as u64,
                },
            );
        }
        Ok(Write { writer, chunk_length, chunk_offset: 0 })
    }

    /// Write the rest of the header.
    pub fn poll_open(&mut self, cx: &mut Context) -> (r: Poll<BodyResult<()>>)
        ensures
            (final(self)@, final(cx)@, r) == old(self)@.poll_open(old(cx)@),
            final(cx)@.wire + final(self)@.pending() == old(cx)@.wire + old(self)@.pending(),
            (r matches Poll::Ready(Ok(()))) <==> final(self)@.written == open_bytes(
                final(self)@.chunk_length,
            ).len(),
    {
        proof {
            use_type_invariant(&*self);
            put_keeps_bytes(cx@, self.header@, self.written as nat);
        }
        let (written, p) = poll_put(cx, self.header.as_slice(), self.written);
        self.written = written;
        p
    }
}

/// Write state. Tracks the chunk-local offset against the declared chunk
/// length.
#[derive(Debug)]
pub struct Write<I> {
    writer: I,
    chunk_length: u64,
    chunk_offset: u64,
}

/// The model of a [`Write`].
pub struct WriteView<I> {
    pub writer: I,
    pub chunk_length: u64,
    pub chunk_offset: u64,
}

impl<I> WriteView<I> {
    /// Some prefix of `buffer` is written.
    pub open spec fn poll_write(self, cx: Cx, buffer: Seq<u8>) -> (
        Self,
        Cx,
        Poll<BodyResult<usize>>,
    ) {
        let (cx, chunk_offset, p) = bounded_write(cx, self.chunk_length, self.chunk_offset, buffer);
        (WriteView { chunk_offset, ..self }, cx, p)
    }

    /// All of `buffer` but its first `written` bytes is written.
    pub open spec fn poll_write_all(self, cx: Cx, buffer: Seq<u8>, written: nat) -> (
        Self,
        Cx,
        nat,
        Poll<BodyResult<()>>,
    ) {
        let (cx, chunk_offset, now, p) = bounded_put(
            cx,
            self.chunk_length,
            self.chunk_offset,
            buffer,
            written,
        );
        (WriteView { chunk_offset, ..self }, cx, now, p)
    }
}

impl<I> View for Write<I> {
    type V = WriteView<I>;

    closed spec fn view(&self) -> WriteView<I> {
        WriteView {
            writer: self.writer,
            chunk_length: self.chunk_length,
            chunk_offset: self.chunk_offset,
        }
    }
}

impl<I> Write<I> {
    #[verifier::type_invariant]
    spec fn inv(self) -> bool {
        self.chunk_offset <= self.chunk_length
    }

    /// The number of bytes yet to be written into this chunk.
    pub fn chunk_remaining(&self) -> (n: u64)
        ensures
            n == self@.chunk_length - self@.chunk_offset,
    {
        proof {
            use_type_invariant(self);
        }
        self.chunk_length - self.chunk_offset
    }

    /// Finish the chunk and move to the next state. Errors if not all bytes
    /// have been written.
    pub fn into_close(self) -> (r: BodyResult<Close<I>>)
        ensures
            match r {
                Ok(c) => self@.chunk_offset == self@.chunk_length && c@ == (CloseView {
                    writer: self@.writer,
                    footer: close_bytes(self@.chunk_length),
                    written: 0,
                }),
                Err(e) => self@.chunk_offset < self@.chunk_length && e == (
                BodyError::IncompleteBody {
                    expected: self@.chunk_length,
                    actual: self@.chunk_offset,
                }),
            },
    {
        proof {
            use_type_invariant(&self);
        }
        let Self { writer, chunk_length, chunk_offset } = self;
        if chunk_offset < chunk_length {
            return Err(
                BodyError::IncompleteBody { expected: chunk_length, actual: chunk_offset },
            );
        }
        Ok(Close::new(writer, chunk_length))
    }

    /// Write some prefix of `buffer`.
    pub fn poll_write(&mut self, cx: &mut Context, buffer: &[u8]) -> (r: Poll<BodyResult<usize>>)
        ensures
            (final(self)@, final(cx)@, r) == old(self)@.poll_write(old(cx)@, buffer@),
            final(cx)@.wire == old(cx)@.wire + buffer@.take(
                final(self)@.chunk_offset - old(self)@.chunk_offset,
            ),
            old(self)@.chunk_offset <= final(self)@.chunk_offset <= final(self)@.chunk_length,
    {
        proof {
            use_type_invariant(&*self);
            bounded_write_keeps_bytes(cx@, self.chunk_length, self.chunk_offset, buffer@);
        }
        let mut offset: u64 = self.chunk_offset;
        let p = poll_write_bounded(cx, self.chunk_length, &mut offset, buffer);
        self.chunk_offset = offset;
        p
    }

    /// Write all of `buffer` but its first `written` bytes.
    pub fn poll_write_all(&mut self, cx: &mut Context, buffer: &[u8], written: &mut usize) -> (r:
        Poll<BodyResult<()>>)
        ensures
            (final(self)@, final(cx)@, *final(written) as nat, r) == old(self)@.poll_write_all(
                old(cx)@,
                buffer@,
                *old(written) as nat,
            ),
    {
        proof {
            use_type_invariant(&*self);
        }
        let mut offset: u64 = self.chunk_offset;
        let p = poll_write_all_bounded(cx, self.chunk_length, &mut offset, buffer, written);
        self.chunk_offset = offset;
        p
    }
}

/// Close state. Writes the trailing `\r\n` for non-empty chunks; for
/// empty chunks (which emit no header) the close is a no-op.
#[derive(Debug)]
pub struct Close<I> {
    writer: I,
    /// `\r\n` for non-empty chunks; nothing for empty chunks.
    footer: Vec<u8>,
    /// Number of footer bytes already written.
    footer_written: usize,
}

/// The model of a [`Close`].
pub struct CloseView<I> {
    pub writer: I,
    pub footer: Seq<u8>,
    pub written: nat,
}

impl<I> CloseView<I> {
    /// What is still to be put on the wire.
    pub open spec fn pending(self) -> Seq<u8> {
        self.footer.skip(self.written as int)
    }

    /// The rest of the footer is written.
    pub open spec fn poll_close(self, cx: Cx) -> (Self, Cx, Poll<BodyResult<()>>) {
        let (cx, written, p) = put_step(cx, self.footer, self.written);
        (CloseView { written, ..self }, cx, p)
    }
}

impl<I> View for Close<I> {
    type V = CloseView<I>;

    closed spec fn view(&self) -> CloseView<I> {
        CloseView {
            writer: self.writer,
            footer: self.footer@,
            written: self.footer_written as nat,
        }
    }
}

impl<I> Close<I> {
    #[verifier::type_invariant]
    spec fn inv(self) -> bool {
        self.footer_written <= self.footer@.len() <= 2
    }

    fn new(writer: I, chunk_length: u64) -> (r: Self)
        ensures
            r@ == (CloseView { writer, footer: close_bytes(chunk_length), written: 0 }),
    {
        let mut footer: Vec<u8> = Vec::new();
        if chunk_length != 0 {
            footer.push(CR);
            footer.push(LF);
        }
        assert(footer@ =~= close_bytes(chunk_length));
        Self { writer, footer, footer_written: 0 }
    }

    /// Transition back to [`Ready`]. Errors with
    /// [`BodyError::IncompleteChunkFooter`] if `poll_close` has not driven
    /// the trailing `\r\n` to completion.
    pub fn into_ready(self) -> (r: BodyResult<Ready<I>>)
        ensures
            match r {
                Ok(ready) => self@.written == self@.footer.len() && ready.io() == self@.writer,
                Err(e) => self@.written < self@.footer.len() && e == (
                BodyError::IncompleteChunkFooter {
                    expected: self@.footer.len() as u64,
                    actual: self@.written as u64,
                }),
            },
    {
        proof {
            use_type_invariant(&self);
        }
        let Self { writer, footer, footer_written } = self;
        if footer_written < footer.len() {
            return Err(
                BodyError::IncompleteChunkFooter {
                    expected: footer.len() as u64,
                    actual: footer_written as u64,
                },
            );
        }
        Ok(Ready { writer })
    }

    /// Write the rest of the footer.
    pub fn poll_close(&mut self, cx: &mut Context) -> (r: Poll<BodyResult<()>>)
        ensures
            (final(self)@, final(cx)@, r) == old(self)@.poll_close(old(cx)@),
            final(cx)@.wire + final(self)@.pending() == old(cx)@.wire + old(self)@.pending(),
            (r matches Poll::Ready(Ok(()))) <==> final(self)@.written == final(self)@.footer.len(),
    {
        proof {
            use_type_invariant(&*self);
            put_keeps_bytes(cx@, self.footer@, self.footer_written as nat);
        }
        let (written, p) = poll_put(cx, self.footer.as_slice(), self.footer_written);
        self.footer_written = written;
        p
    }
}

/// Finish (terminal) state. Writes `0\r\n`, any trailers, and the closing
/// `\r\n`; then flushes.
#[derive(Debug)]
pub struct Finish<I> {
    writer: I,
    /// Pre-serialized terminal bytes: `"0\r\n{trailers}\r\n"`.
    data: Vec<u8>,
    written: usize,
    flushed: bool,
}

/// The model of a [`Finish`].
pub struct FinishView<I> {
    pub writer: I,
    pub data: Seq<u8>,
    pub written: nat,
    pub flushed: bool,
}

impl<I> FinishView<I> {
    /// What is still to be put on the wire.
    pub open spec fn pending(self) -> Seq<u8> {
        self.data.skip(self.written as int)
    }

    /// The rest of the terminal bytes is written, and then flushed.
    pub open spec fn poll_finish(self, cx: Cx) -> (Self, Cx, Poll<BodyResult<()>>) {
        let (cx, written, p) = put_step(cx, self.data, self.written);
        match p {
            Poll::Ready(Ok(())) => {
                let (cx, flushed, p) = flush_step(cx, self.flushed);
                (FinishView { written, flushed, ..self }, cx, p)
            },
            p => (FinishView { written, ..self }, cx, p),
        }
    }
}

impl<I> View for Finish<I> {
    type V = FinishView<I>;

    closed spec fn view(&self) -> FinishView<I> {
        FinishView {
            writer: self.writer,
            data: self.data@,
            written: self.written as nat,
            flushed: self.flushed,
        }
    }
}

impl<I> Finish<I> {
    #[verifier::type_invariant]
    spec fn inv(self) -> bool {
        self.written <= self.data@.len()
    }

    fn new(writer: I, trailers: &Headers) -> (r: Self)
        ensures
            r@ == (FinishView { writer, data: encode_end(trailers@), written: 0, flushed: false }),
    {
        let mut data: Vec<u8> = Vec::new();
        proof {
            reveal_strlit("0");
            reveal_strlit(": ");
        }
        append(&mut data, ascii_bytes("0"));
        append_crlf(&mut data);
        assert(data@ =~= chunk_head(0));
        let mut i: usize = 0;
        assert(field_lines(trailers@.take(0)) =~= Seq::empty());
        assert(data@ =~= chunk_head(0) + field_lines(trailers@.take(0)));
        let sep = ascii_bytes(": ");
        while i < trailers.len()
            invariant
                i <= trailers@.len(),
                sep@ == ascii(": "),
                data@ == chunk_head(0) + field_lines(trailers@.take(i as int)),
            decreases trailers@.len() - i,
        {
            let (name, value) = trailers.field(i);
            append(&mut data, name);
            append(&mut data, sep);
            append(&mut data, value);
            append_crlf(&mut data);
            assert(trailers@.take(i + 1).drop_last() =~= trailers@.take(i as int));
            assert(trailers@.take(i + 1).last() == (name@, value@));
            assert(data@ =~= chunk_head(0) + field_lines(trailers@.take(i + 1)));
            i = i + 1;
        }
        assert(trailers@.take(i as int) =~= trailers@);
        append_crlf(&mut data);
        assert(data@ =~= encode_end(trailers@));
        Self { writer, data, written: 0, flushed: false }
    }

    /// Yield the underlying writer. Errors with
    /// [`BodyError::IncompleteFinish`] if the terminal bytes have not been
    /// fully written, or [`BodyError::UnflushedFinish`] if they have been
    /// written but the writer has not yet been flushed.
    pub fn into_writer(self) -> (r: BodyResult<I>)
        ensures
            match r {
                Ok(w) => self@.written == self@.data.len() && self@.flushed && w == self@.writer,
                Err(e) => if self@.written < self@.data.len() {
                    e == (BodyError::IncompleteFinish {
                        expected: self@.data.len() as u64,
                        actual: self@.written as u64,
                    })
                } else {
                    !self@.flushed && e == BodyError::UnflushedFinish
                },
            },
    {
        proof {
            use_type_invariant(&self);
        }
        let Self { writer, data, written, flushed } = self;
        if written < data.len() {
            return Err(
                BodyError::IncompleteFinish {
                    expected: data.len() as u64,
                    actual: written as u64,
                },
            );
        }
        if !flushed {
            return Err(BodyError::UnflushedFinish);
        }
        Ok(writer)
    }

    /// Write the rest of the terminal bytes, and flush.
    pub fn poll_finish(&mut self, cx: &mut Context) -> (r: Poll<BodyResult<()>>)
        ensures
            (final(self)@, final(cx)@, r) == old(self)@.poll_finish(old(cx)@),
            final(cx)@.wire + final(self)@.pending() == old(cx)@.wire + old(self)@.pending(),
            (r matches Poll::Ready(Ok(()))) ==> final(self)@.written == final(self)@.data.len()
                && final(self)@.flushed,
    {
        proof {
            use_type_invariant(&*self);
            put_keeps_bytes(cx@, self.data@, self.written as nat);
        }
        let (written, p) = poll_put(cx, self.data.as_slice(), self.written);
        self.written = written;
        match p {
            Poll::Pending => return Poll::Pending,
            Poll::Ready(Err(e)) => return Poll::Ready(Err(e)),
            Poll::Ready(Ok(())) => {},
        }
        let (flushed, p) = poll_flush(cx, self.flushed);
        self.flushed = flushed;
        p
    }
}

/// Abort (terminal) state. Writes an invalid chunk header byte (`x`) and
/// flushes. The writer is consumed and dropped along with `Abort`.
#[derive(Debug)]
pub struct Abort<I> {
    writer: I,
    written: bool,
    flushed: bool,
}

/// The model of an [`Abort`].
pub struct AbortView<I> {
    pub writer: I,
    pub written: bool,
    pub flushed: bool,
}

impl<I> AbortView<I> {
    /// What is still to be put on the wire: a byte that no chunk header starts
    /// with.
    pub open spec fn pending(self) -> Seq<u8> {
        if self.written {
            Seq::empty()
        } else {
            seq!['x' as u8]
        }
    }

    /// The poison is written, and then flushed.
    pub open spec fn poll_abort(self, cx: Cx) -> (Self, Cx, Poll<BodyResult<()>>) {
        let (cx, written, p) = put_step(
            cx,
            seq!['x' as u8],
            if self.written {
                1
            } else {
                0
            },
        );
        match p {
            Poll::Ready(Ok(())) => {
                let (cx, flushed, p) = flush_step(cx, self.flushed);
                (AbortView { written: true, flushed, ..self }, cx, p)
            },
            p => (self, cx, p),
        }
    }
}

impl<I> View for Abort<I> {
    type V = AbortView<I>;

    closed spec fn view(&self) -> AbortView<I> {
        AbortView { writer: self.writer, written: self.written, flushed: self.flushed }
    }
}

impl<I> Abort<I> {
    fn new(writer: I) -> (r: Self)
        ensures
            r@ == (AbortView { writer, written: false, flushed: false }),
    {
        Self { writer, written: false, flushed: false }
    }

    /// Consume the abort, dropping the underlying writer. Errors with
    /// [`BodyError::UnflushedAbort`] if `poll_abort` has not driven the
    /// flush to completion.
    pub fn discard(self) -> (r: BodyResult<()>)
        ensures
            match r {
                Ok(()) => self@.flushed,
                Err(e) => !self@.flushed && e == BodyError::UnflushedAbort,
            },
    {
        let Self { writer: _, written: _, flushed } = self;
        if !flushed {
            return Err(BodyError::UnflushedAbort);
        }
        Ok(())
    }

    /// Write the poison, and flush.
    pub fn poll_abort(&mut self, cx: &mut Context) -> (r: Poll<BodyResult<()>>)
        ensures
            (final(self)@, final(cx)@, r) == old(self)@.poll_abort(old(cx)@),
            final(cx)@.wire + final(self)@.pending() == old(cx)@.wire + old(self)@.pending(),
            (r matches Poll::Ready(Ok(()))) ==> final(self)@.written && final(self)@.flushed,
    {
        proof {
            reveal_strlit("x");
            assert(ascii("x") =~= seq!['x' as u8]);
            put_keeps_bytes(
                cx@,
                ascii("x"),
                if self.written {
                    1
                } else {
                    0
                },
            );
        }
        let poison = ascii_bytes("x");
        let before: usize = if self.written {
            1
        } else {
            0
        };
        let ghost pending = self@.pending();
        assert(pending =~= poison@.skip(before as int));
        let (written, p) = poll_put(cx, poison, before);
        match p {
            Poll::Pending => {
                assert(poison@.skip(written as int) =~= pending);
                return Poll::Pending;
            },
            Poll::Ready(Err(e)) => {
                assert(poison@.skip(written as int) =~= pending);
                return Poll::Ready(Err(e));
            },
            Poll::Ready(Ok(())) => {},
        }
        self.written = true;
        assert(poison@.skip(written as int) =~= Seq::empty());
        let (flushed, p) = poll_flush(cx, self.flushed);
        self.flushed = flushed;
        p
    }
}

/// A header, data as long as the header says, and a footer make up one chunk
/// on the wire; and for no data they make up nothing.
pub proof fn cycle_makes_one_chunk(data: Seq<u8>)
    requires
        data.len() <= u64::MAX,
    ensures
        open_bytes(data.len() as u64) + data + close_bytes(data.len() as u64) == encode_chunk(data),
{
    assert(open_bytes(data.len() as u64) + data + close_bytes(data.len() as u64) =~= encode_chunk(
        data,
    ));
}

/// The header of a chunk is its length in hexadecimal and the end of a line, the footer the
/// end of a line; a chunk without data has neither.
pub proof fn headers_and_footers_end_a_line(n: u64)
    ensures
        open_bytes(n) == (if n == 0 {
            Seq::empty()
        } else {
            crate::text::hex(n as nat) + seq![13u8, 10u8]
        }),
        close_bytes(n) == (if n == 0 {
            Seq::empty()
        } else {
            seq![13u8, 10u8]
        }),
{
    assert(crlf() =~= seq![13u8, 10u8]);
}

/// What is put on the wire while a chunk is opened is its header, in order and once; the open
/// is done exactly where all of it is there. The chunk and the connection stay the same.
pub proof fn opening_writes_the_header<I>(o: OpenView<I>, cx: Cx)
    requires
        o.written <= open_bytes(o.chunk_length).len(),
    ensures
        ({
            let (t, cx2, p) = o.poll_open(cx);
            let header = open_bytes(o.chunk_length);
            &&& t.writer == o.writer && t.chunk_length == o.chunk_length
            &&& o.written <= t.written <= header.len()
            &&& cx2.wire + header.skip(t.written as int) == cx.wire + header.skip(o.written as int)
            &&& (p is Ready && p->Ready_0 is Ok) == (t.written == header.len())
            &&& p == put_step(cx, header, o.written).2
            &&& cx2.read == cx.read && cx2.flush == cx.flush
        }),
{
    put_keeps_bytes(cx, open_bytes(o.chunk_length), o.written);
}

/// What is put on the wire while a chunk is closed is its footer, in order and once; the close
/// is done exactly where all of it is there.
pub proof fn closing_writes_the_footer<I>(c: CloseView<I>, cx: Cx)
    requires
        c.written <= c.footer.len(),
    ensures
        ({
            let (t, cx2, p) = c.poll_close(cx);
            &&& t.writer == c.writer && t.footer == c.footer
            &&& c.written <= t.written <= c.footer.len()
            &&& cx2.wire + c.footer.skip(t.written as int) == cx.wire + c.footer.skip(
                c.written as int,
            )
            &&& (p is Ready && p->Ready_0 is Ok) == (t.written == c.footer.len())
            &&& p == put_step(cx, c.footer, c.written).2
            &&& cx2.read == cx.read && cx2.flush == cx.flush
        }),
{
    put_keeps_bytes(cx, c.footer, c.written);
}

/// What is written into a chunk goes on the wire as it is, and is counted; no more goes into
/// a chunk than its header says.
pub proof fn chunks_take_what_fits<I>(w: WriteView<I>, cx: Cx, buffer: Seq<u8>, written: nat)
    requires
        w.chunk_offset <= w.chunk_length,
        written <= buffer.len() <= usize::MAX,
    ensures
        ({
            let (t, cx2, now, p) = w.poll_write_all(cx, buffer, written);
            &&& t.writer == w.writer && t.chunk_length == w.chunk_length
            &&& t.chunk_offset - w.chunk_offset == now - written
            &&& t.chunk_offset <= t.chunk_length
            &&& written <= now <= buffer.len()
            &&& cx2.wire + buffer.skip(now as int) == cx.wire + buffer.skip(written as int)
            &&& (p matches Poll::Ready(Ok(()))) <==> now == buffer.len()
            &&& p == Poll::Ready(Err::<(), _>(BodyError::BodyOverflow(w.chunk_length)))
                <==> w.chunk_offset + (buffer.len() - written) > w.chunk_length
        }),
        ({
            let (t, cx2, p) = w.poll_write(cx, buffer);
            &&& t.writer == w.writer && t.chunk_length == w.chunk_length
            &&& w.chunk_offset <= t.chunk_offset <= t.chunk_length
            &&& cx2.wire == cx.wire + buffer.take(t.chunk_offset - w.chunk_offset)
            &&& p matches Poll::Ready(Ok(n)) ==> t.chunk_offset == w.chunk_offset + n
            &&& !(p matches Poll::Ready(Ok(_))) ==> t.chunk_offset == w.chunk_offset
            &&& p == Poll::Ready(Err::<usize, _>(BodyError::BodyOverflow(w.chunk_length)))
                <==> w.chunk_offset + buffer.len() > w.chunk_length
        }),
{
    crate::body::writer::bounded_put_keeps_bytes(
        cx,
        w.chunk_length,
        w.chunk_offset,
        buffer,
        written,
    );
    bounded_write_keeps_bytes(cx, w.chunk_length, w.chunk_offset, buffer);
}

/// The end of a body goes on the wire as it is, in order and once; the body is finished
/// exactly where all of it is there and, after that, a flush has been done.
pub proof fn finishing_writes_the_end<I>(f: FinishView<I>, cx: Cx)
    requires
        f.written <= f.data.len(),
    ensures
        ({
            let (t, cx2, p) = f.poll_finish(cx);
            &&& t.writer == f.writer && t.data == f.data
            &&& f.written <= t.written <= f.data.len()
            &&& cx2.wire + f.data.skip(t.written as int) == cx.wire + f.data.skip(f.written as int)
            &&& (p is Ready && p->Ready_0 is Ok) == (t.written == f.data.len() && cx.flush is Some
                && cx.flush->Some_0 is Ok)
            &&& t.flushed == (f.flushed || (p is Ready && p->Ready_0 is Ok))
            &&& t.written < f.data.len() ==> cx2.flush == cx.flush && p == put_step(
                cx,
                f.data,
                f.written,
            ).2
            &&& t.written == f.data.len() ==> p == flush_step(cx, f.flushed).2 && cx2.flush is None
        }),
{
    put_keeps_bytes(cx, f.data, f.written);
}

/// To abort a body puts one `x` on the wire, which no chunk header starts with, and then
/// flushes it; it is done exactly where both are.
pub proof fn aborting_writes_the_poison<I>(a: AbortView<I>, cx: Cx)
    ensures
        ({
            let (t, cx2, p) = a.poll_abort(cx);
            &&& t.writer == a.writer
            &&& a.written ==> t.written && cx2.wire == cx.wire && cx2.write == cx.write
            &&& !a.written && !t.written ==> cx2.wire == cx.wire && cx2.flush == cx.flush
            &&& !a.written && t.written ==> cx2.wire == cx.wire.push('x' as u8)
            &&& t.written <==> a.written || (cx.write matches Some(Ok(n)) && n > 0)
            &&& (p is Ready && p->Ready_0 is Ok) == (t.written && cx.flush is Some
                && cx.flush->Some_0 is Ok)
            &&& t.flushed == (a.flushed || (p is Ready && p->Ready_0 is Ok))
        }),
{
    let poison = seq!['x' as u8];
    let before: nat = if a.written {
        1
    } else {
        0
    };
    put_keeps_bytes(cx, poison, before);
    crate::body::writer::put_failures_are_those_of_the_wire(cx, poison, before);
    let (put, now, q) = put_step(cx, poison, before);
    assert(poison.skip(1) =~= Seq::empty());
    assert(poison.skip(0) =~= poison);
    assert(cx.wire + poison =~= cx.wire.push('x' as u8));
    assert(put.wire + Seq::<u8>::empty() =~= put.wire);
    assert(cx.wire + Seq::<u8>::empty() =~= cx.wire);
    if now == 0 {
        assert(put.wire =~= cx.wire) by {
            assert((put.wire + poison).take(put.wire.len() as int) =~= put.wire);
            assert((cx.wire + poison).take(cx.wire.len() as int) =~= cx.wire);
        }
    }
}

/// A chunk goes from one state to the next exactly where what the state has to write is
/// written; otherwise it is told how much of it is. Only a body whose end has been written
/// and flushed gives back the connection; and it is the one that the body was written to.
pub proof fn chunks_go_through_their_states<I>(
    o: Open<I>,
    w: Write<I>,
    c: Close<I>,
    f: Finish<I>,
    opened: BodyResult<Write<I>>,
    closing: BodyResult<Close<I>>,
    closed: BodyResult<Ready<I>>,
    back: BodyResult<I>,
)
    requires
        call_ensures(Open::<I>::into_write, (o,), opened),
        call_ensures(Write::<I>::into_close, (w,), closing),
        call_ensures(Close::<I>::into_ready, (c,), closed),
        call_ensures(Finish::<I>::into_writer, (f,), back),
    ensures
        match opened {
            Ok(next) => {
                &&& o@.pending().len() == 0
                &&& next@.writer == o@.writer
                &&& next@.chunk_length == o@.chunk_length
                &&& next@.chunk_offset == 0
            },
            Err(BodyError::IncompleteChunkHeader { expected, actual }) => {
                actual == o@.written as u64 && o@.written < open_bytes(o@.chunk_length).len()
                    && expected == open_bytes(o@.chunk_length).len() as u64
            },
            Err(_) => false,
        },
        match closing {
            Ok(next) => {
                &&& w@.chunk_offset == w@.chunk_length
                &&& next@.writer == w@.writer
                &&& next@.footer == close_bytes(w@.chunk_length)
                &&& next@.written == 0
            },
            Err(BodyError::IncompleteBody { expected, actual }) => {
                actual == w@.chunk_offset && expected == w@.chunk_length && actual < expected
            },
            Err(_) => false,
        },
        match closed {
            Ok(next) => c@.pending().len() == 0 && next.io() == c@.writer,
            Err(BodyError::IncompleteChunkFooter { expected, actual }) => {
                actual == c@.written as u64 && c@.written < c@.footer.len() && expected
                    == c@.footer.len() as u64
            },
            Err(_) => false,
        },
        match back {
            Ok(io) => f@.pending().len() == 0 && f@.flushed && io == f@.writer,
            Err(BodyError::IncompleteFinish { expected, actual }) => {
                actual == f@.written as u64 && f@.written < f@.data.len() && expected
                    == f@.data.len() as u64
            },
            Err(BodyError::UnflushedFinish) => f@.written >= f@.data.len() && !f@.flushed,
            Err(_) => false,
        },
{
}

/// A body between chunks can open a chunk of any length, be finished with trailers, or be
/// aborted; what has to be written for that starts with nothing written.
pub proof fn bodies_between_chunks_can_go_anywhere<I>(
    r: Ready<I>,
    length: u64,
    trailers: &Headers,
    o: Open<I>,
    f: Finish<I>,
    plain: Finish<I>,
    a: Abort<I>,
)
    requires
        call_ensures(Ready::<I>::open, (r, length), o),
        call_ensures(Ready::<I>::finish_with_trailers, (r, trailers), f),
        call_ensures(Ready::<I>::finish, (r,), plain),
        call_ensures(Ready::<I>::abort, (r,), a),
    ensures
        o@.writer == r.io() && o@.chunk_length == length && o@.written == 0,
        f@.writer == r.io() && f@.written == 0 && !f@.flushed,
        f@.data == seq!['0' as u8, 13u8, 10u8] + field_lines(trailers@) + seq![13u8, 10u8],
        plain@.writer == r.io() && plain@.written == 0 && !plain@.flushed,
        plain@.data == seq!['0' as u8, 13u8, 10u8, 13u8, 10u8],
        a@.writer == r.io() && !a@.written && !a@.flushed,
        a@.pending() == seq!['x' as u8],
{
    crate::body::chunk_coding::chunks_are_written_with_their_length(
        Seq::empty(),
        Seq::empty(),
        trailers@,
    );
    crate::body::chunk_coding::chunks_are_written_with_their_length(
        Seq::empty(),
        Seq::empty(),
        Seq::empty(),
    );
    assert(field_lines(Seq::empty()) =~= Seq::empty());
    assert(plain@.data =~= seq!['0' as u8, 13u8, 10u8, 13u8, 10u8]);
}

/// An abort is over exactly where it has been flushed.
pub proof fn aborts_are_flushed<I>(a: Abort<I>, r: BodyResult<()>)
    requires
        call_ensures(Abort::<I>::discard, (a,), r),
    ensures
        r is Ok <==> a@.flushed,
        r matches Err(e) ==> e == BodyError::UnflushedAbort,
{
}

} // verus!
