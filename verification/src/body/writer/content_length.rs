//! Writers for bodies whose length a `content-length` header states.
//!
//! No byte but the body's own is put on the wire; the writers count them, take
//! none beyond the stated length, and end cleanly only where all of them have
//! been written.
use vstd::prelude::*;

use crate::body::error::{BodyError, BodyResult};
use crate::body::writer::{
    bounded_put, bounded_write, bounded_write_keeps_bytes, flush_step, poll_flush,
    poll_write_all_bounded, poll_write_bounded,
};
use crate::transport::{Context, Cx, Poll};

verus! {

/// A writer of a body of known length.
#[derive(Debug)]
pub struct ContentLengthBodyWriter<I> {
    /// the total body length specified by the content-length header.
    length: u64,
    /// the amount of the body already written
    offset: u64,
    writer: I,
}

/// The model of a [`ContentLengthBodyWriter`].
pub struct ContentLengthWriterView<I> {
    pub length: u64,
    pub offset: u64,
    pub writer: I,
}

impl<I> ContentLengthWriterView<I> {
    /// Some prefix of `buffer` is written.
    pub open spec fn poll_write(self, cx: Cx, buffer: Seq<u8>) -> (
        Self,
        Cx,
        Poll<BodyResult<usize>>,
    ) {
        let (cx, offset, p) = bounded_write(cx, self.length, self.offset, buffer);
        (ContentLengthWriterView { offset, ..self }, cx, p)
    }

    /// All of `buffer` but its first `written` bytes is written.
    pub open spec fn poll_write_all(self, cx: Cx, buffer: Seq<u8>, written: nat) -> (
        Self,
        Cx,
        nat,
        Poll<BodyResult<()>>,
    ) {
        let (cx, offset, now, p) = bounded_put(cx, self.length, self.offset, buffer, written);
        (ContentLengthWriterView { offset, ..self }, cx, now, p)
    }

    /// The error of a body that has not been written to its end.
    pub open spec fn incomplete(self) -> BodyError {
        BodyError::IncompleteBody { expected: self.length, actual: self.offset }
    }
}

impl<I> View for ContentLengthBodyWriter<I> {
    type V = ContentLengthWriterView<I>;

    closed spec fn view(&self) -> ContentLengthWriterView<I> {
        ContentLengthWriterView { length: self.length, offset: self.offset, writer: self.writer }
    }
}

impl<I> ContentLengthBodyWriter<I> {
    #[verifier::type_invariant]
    spec fn inv(self) -> bool {
        self.offset <= self.length
    }

    /// A body of `length` bytes of which nothing has been written.
    pub fn new(length: u64, writer: I) -> (r: Self)
        ensures
            r@ == (ContentLengthWriterView { length, offset: 0, writer }),
    {
        Self { length, offset: 0, writer }
    }

    /// Write some prefix of `buffer`.
    pub fn poll_write(&mut self, cx: &mut Context, buffer: &[u8]) -> (r: Poll<BodyResult<usize>>)
        ensures
            (final(self)@, final(cx)@, r) == old(self)@.poll_write(old(cx)@, buffer@),
            final(cx)@.wire == old(cx)@.wire + buffer@.take(
                final(self)@.offset - old(self)@.offset,
            ),
            old(self)@.offset <= final(self)@.offset <= final(self)@.length,
    {
        proof {
            use_type_invariant(&*self);
            bounded_write_keeps_bytes(cx@, self.length, self.offset, buffer@);
        }
        let mut offset: u64 = self.offset;
        let p = poll_write_bounded(cx, self.length, &mut offset, buffer);
        self.offset = offset;
        p
    }

    /// Write all of `buffer` but its first `written` bytes. A transport that
    /// accepts nothing is a failure.
    pub fn poll_write_all(&mut self, cx: &mut Context, buffer: &[u8], written: &mut usize) -> (r:
        Poll<BodyResult<()>>)
        ensures
            (final(self)@, final(cx)@, *final(written) as nat, r) == old(self)@.poll_write_all(
                old(cx)@,
                buffer@,
                *old(written) as nat,
            ),
    {
        proof {
            use_type_invariant(&*self);
        }
        let mut offset: u64 = self.offset;
        let p = poll_write_all_bounded(cx, self.length, &mut offset, buffer, written);
        self.offset = offset;
        p
    }

    /// Flush what was written.
    pub fn poll_flush(&mut self, cx: &mut Context) -> (r: Poll<BodyResult<()>>)
        ensures
            final(self)@ == old(self)@,
            final(cx)@ == flush_step(old(cx)@, false).0,
            r == flush_step(old(cx)@, false).2,
    {
        let (_flushed, p) = poll_flush(cx, false);
        p
    }

    /// Flush a body that has been written to its end; one that has not is an
    /// error, and is not flushed.
    pub fn poll_finish(&mut self, cx: &mut Context) -> (r: Poll<BodyResult<()>>)
        ensures
            final(self)@ == old(self)@,
            if old(self)@.offset < old(self)@.length {
                r == Poll::Ready(Err::<(), _>(old(self)@.incomplete())) && final(cx)@ == old(cx)@
            } else {
                final(cx)@ == flush_step(old(cx)@, false).0 && r == flush_step(old(cx)@, false).2
            },
    {
        if self.offset < self.length {
            return Poll::Ready(
                Err(BodyError::IncompleteBody { expected: self.length, actual: self.offset }),
            );
        }
        self.poll_flush(cx)
    }

    /// Give back the connection. Errors with [`BodyError::IncompleteBody`]
    /// where the body has not been written to its end.
    pub fn into_writer(self) -> (r: BodyResult<I>)
        ensures
            match r {
                Ok(w) => self@.offset == self@.length && w == self@.writer,
                Err(e) => self@.offset < self@.length && e == self@.incomplete(),
            },
    {
        proof {
            use_type_invariant(&self);
        }
        let Self { length, offset, writer } = self;
        if offset < length {
            return Err(BodyError::IncompleteBody { expected: length, actual: offset });
        }
        Ok(writer)
    }
}

/// Idle state.
#[derive(Debug)]
pub struct Ready<I> {
    writer: I,
    length: u64,
    offset: u64,
}

/// The model of a [`Ready`], and of a [`Close`].
pub struct ReadyView<I> {
    pub writer: I,
    /// The stated length of the body.
    pub length: u64,
    /// How much of the body has been written.
    pub offset: u64,
}

impl<I> View for Ready<I> {
    type V = ReadyView<I>;

    closed spec fn view(&self) -> ReadyView<I> {
        ReadyView { writer: self.writer, length: self.length, offset: self.offset }
    }
}

impl<I> Ready<I> {
    #[verifier::type_invariant]
    spec fn inv(self) -> bool {
        self.offset <= self.length
    }

    /// A body of `length` bytes of which nothing has been written.
    pub fn new(length: u64, writer: I) -> (r: Self)
        ensures
            r@ == (ReadyView { writer, length, offset: 0 }),
    {
        Self { writer, length, offset: 0 }
    }

    /// Bytes still owed against the declared content length.
    pub fn remaining(&self) -> (n: u64)
        ensures
            n == self@.length - self@.offset,
    {
        proof {
            use_type_invariant(self);
        }
        self.length - self.offset
    }

    /// Begin a new chunk of `length` bytes. Errors when the requested
    /// length would push the running offset past the declared total.
    pub fn open(self, length: u64) -> (r: BodyResult<Open<I>>)
        ensures
            match r {
                Ok(o) => self@.offset + length <= self@.length && o@ == (OpenView {
                    writer: self@.writer,
                    length: self@.length,
                    offset: self@.offset,
                    chunk_length: length,
                }),
                Err(e) => self@.offset + length > self@.length && e == BodyError::BodyOverflow(
                    self@.length,
                ),
            },
    {
        proof {
            use_type_invariant(&self);
        }
        let Self { writer, length: total, offset } = self;
        if length > total - offset {
            return Err(BodyError::BodyOverflow(total));
        }
        Ok(Open { writer, length: total, offset, chunk_length: length })
    }

    /// Terminate the body cleanly. Errors if the declared length has not
    /// been fully written.
    pub fn finish(self) -> (r: BodyResult<Finish<I>>)
        ensures
            match r {
                Ok(f) => self@.offset == self@.length && f@ == (FinishView {
                    writer: self@.writer,
                    flushed: false,
                }),
                Err(e) => self@.offset < self@.length && e == (BodyError::IncompleteBody {
                    expected: self@.length,
                    actual: self@.offset,
                }),
            },
    {
        proof {
            use_type_invariant(&self);
        }
        let Self { writer, length, offset } = self;
        if offset < length {
            return Err(BodyError::IncompleteBody { expected: length, actual: offset });
        }
        Ok(Finish { writer, flushed: false })
    }

    /// Terminate the body abnormally.
    pub fn abort(self) -> (r: Abort<I>)
        ensures
            r@ == (AbortView { writer: self@.writer, flushed: false }),
    {
        let Self { writer, length: _, offset: _ } = self;
        Abort { writer, flushed: false }
    }
}

/// Open state. No header is written.
#[derive(Debug)]
pub struct Open<I> {
    writer: I,
    length: u64,
    offset: u64,
    chunk_length: u64,
}

/// The model of an [`Open`].
pub struct OpenView<I> {
    pub writer: I,
    pub length: u64,
    pub offset: u64,
    pub chunk_length: u64,
}

impl<I> View for Open<I> {
    type V = OpenView<I>;

    closed spec fn view(&self) -> OpenView<I> {
        OpenView {
            writer: self.writer,
            length: self.length,
            offset: self.offset,
            chunk_length: self.chunk_length,
        }
    }
}

impl<I> Open<I> {
    #[verifier::type_invariant]
    spec fn inv(self) -> bool {
        self.offset + self.chunk_length <= self.length
    }

    /// Nothing is to be written.
    pub fn poll_open(&mut self, _cx: &mut Context) -> (r: Poll<BodyResult<()>>)
        ensures
            *final(self) == *old(self),
            *final(_cx) == *old(_cx),
            r matches Poll::Ready(Ok(())),
    {
        Poll::Ready(Ok(()))
    }

    /// Transition to [`Write`].
    pub fn into_write(self) -> (r: BodyResult<Write<I>>)
        ensures
            r matches Ok(w) && w@ == (WriteView {
                writer: self@.writer,
                length: self@.length,
                offset: self@.offset,
                chunk_length: self@.chunk_length,
                chunk_offset: 0,
            }),
    {
        proof {
            use_type_invariant(&self);
        }
        let Self { writer, length, offset, chunk_length } = self;
        Ok(Write { writer, length, offset, chunk_length, chunk_offset: 0 })
    }
}

/// Write state. Tracks the chunk-local offset against the declared chunk
/// length.
#[derive(Debug)]
pub struct Write<I> {
    writer: I,
    length: u64,
    offset: u64,
    chunk_length: u64,
    chunk_offset: u64,
}

/// The model of a [`Write`].
pub struct WriteView<I> {
    pub writer: I,
    pub length: u64,
    /// How much of the body has been written before this chunk.
    pub offset: u64,
    pub chunk_length: u64,
    pub chunk_offset: u64,
}

impl<I> WriteView<I> {
    /// Some prefix of `buffer` is written.
    pub open spec fn poll_write(self, cx: Cx, buffer: Seq<u8>) -> (
        Self,
        Cx,
        Poll<BodyResult<usize>>,
    ) {
        let (cx, chunk_offset, p) = bounded_write(cx, self.chunk_length, self.chunk_offset, buffer);
        (WriteView { chunk_offset, ..self }, cx, p)
    }

    /// All of `buffer` but its first `written` bytes is written.
    pub open spec fn poll_write_all(self, cx: Cx, buffer: Seq<u8>, written: nat) -> (
        Self,
        Cx,
        nat,
        Poll<BodyResult<()>>,
    ) {
        let (cx, chunk_offset, now, p) = bounded_put(
            cx,
            self.chunk_length,
            self.chunk_offset,
            buffer,
            written,
        );
        (WriteView { chunk_offset, ..self }, cx, now, p)
    }
}

impl<I> View for Write<I> {
    type V = WriteView<I>;

    closed spec fn view(&self) -> WriteView<I> {
        WriteView {
            writer: self.writer,
            length: self.length,
            offset: self.offset,
            chunk_length: self.chunk_length,
            chunk_offset: self.chunk_offset,
        }
    }
}

impl<I> Write<I> {
    #[verifier::type_invariant]
    spec fn inv(self) -> bool {
        &&& self.chunk_offset <= self.chunk_length
        &&& self.offset + self.chunk_length <= self.length
    }

    /// The number of bytes yet to be written into this chunk.
    pub fn chunk_remaining(&self) -> (n: u64)
        ensures
            n == self@.chunk_length - self@.chunk_offset,
    {
        proof {
            use_type_invariant(self);
        }
        self.chunk_length - self.chunk_offset
    }

    /// Finish the chunk and move to the next state. Errors if not all bytes
    /// have been written.
    pub fn into_close(self) -> (r: BodyResult<Close<I>>)
        ensures
            match r {
                Ok(c) => self@.chunk_offset == self@.chunk_length && c@ == (ReadyView {
                    writer: self@.writer,
                    length: self@.length,
                    offset: (self@.offset + self@.chunk_length) as u64,
                }),
                Err(e) => self@.chunk_offset < self@.chunk_length && e == (
                BodyError::IncompleteBody {
                    expected: self@.chunk_length,
                    actual: self@.chunk_offset,
                }),
            },
    {
        proof {
            use_type_invariant(&self);
        }
        let Self { writer, length, offset, chunk_length, chunk_offset } = self;
        if chunk_offset < chunk_length {
            return Err(
                BodyError::IncompleteBody { expected: chunk_length, actual: chunk_offset },
            );
        }
        Ok(Close { writer, length, offset: offset + chunk_length })
    }

    /// Write some prefix of `buffer`.
    pub fn poll_write(&mut self, cx: &mut Context, buffer: &[u8]) -> (r: Poll<BodyResult<usize>>)
        ensures
            (final(self)@, final(cx)@, r) == old(self)@.poll_write(old(cx)@, buffer@),
            final(cx)@.wire == old(cx)@.wire + buffer@.take(
                final(self)@.chunk_offset - old(self)@.chunk_offset,
            ),
            old(self)@.chunk_offset <= final(self)@.chunk_offset <= final(self)@.chunk_length,
    {
        proof {
            use_type_invariant(&*self);
            bounded_write_keeps_bytes(cx@, self.chunk_length, self.chunk_offset, buffer@);
        }
        let mut offset: u64 = self.chunk_offset;
        let p = poll_write_bounded(cx, self.chunk_length, &mut offset, buffer);
        self.chunk_offset = offset;
        p
    }

    /// Write all of `buffer` but its first `written` bytes.
    pub fn poll_write_all(&mut self, cx: &mut Context, buffer: &[u8], written: &mut usize) -> (r:
        Poll<BodyResult<()>>)
        ensures
            (final(self)@, final(cx)@, *final(written) as nat, r) == old(self)@.poll_write_all(
                old(cx)@,
                buffer@,
                *old(written) as nat,
            ),
    {
        proof {
            use_type_invariant(&*self);
        }
        let mut offset: u64 = self.chunk_offset;
        let p = poll_write_all_bounded(cx, self.chunk_length, &mut offset, buffer, written);
        self.chunk_offset = offset;
        p
    }
}

/// Close state. No footer is written.
#[derive(Debug)]
pub struct Close<I> {
    writer: I,
    length: u64,
    offset: u64,
}

impl<I> View for Close<I> {
    type V = ReadyView<I>;

    closed spec fn view(&self) -> ReadyView<I> {
        ReadyView { writer: self.writer, length: self.length, offset: self.offset }
    }
}

impl<I> Close<I> {
    #[verifier::type_invariant]
    spec fn inv(self) -> bool {
        self.offset <= self.length
    }

    /// Nothing is to be written.
    pub fn poll_close(&mut self, _cx: &mut Context) -> (r: Poll<BodyResult<()>>)
        ensures
            *final(self) == *old(self),
            *final(_cx) == *old(_cx),
            r matches Poll::Ready(Ok(())),
    {
        Poll::Ready(Ok(()))
    }

    /// Transition back to [`Ready`].
    pub fn into_ready(self) -> (r: BodyResult<Ready<I>>)
        ensures
            r matches Ok(ready) && ready@ == self@,
    {
        proof {
            use_type_invariant(&self);
        }
        let Self { writer, length, offset } = self;
        Ok(Ready { writer, length, offset })
    }
}

/// Finish (terminal) state. Flushes the body.
#[derive(Debug)]
pub struct Finish<I> {
    writer: I,
    flushed: bool,
}

/// The model of a [`Finish`].
pub struct FinishView<I> {
    pub writer: I,
    pub flushed: bool,
}

impl<I> FinishView<I> {
    /// What was written is flushed.
    pub open spec fn poll_finish(self, cx: Cx) -> (Self, Cx, Poll<BodyResult<()>>) {
        let (cx, flushed, p) = flush_step(cx, self.flushed);
        (FinishView { flushed, ..self }, cx, p)
    }
}

impl<I> View for Finish<I> {
    type V = FinishView<I>;

    closed spec fn view(&self) -> FinishView<I> {
        FinishView { writer: self.writer, flushed: self.flushed }
    }
}

impl<I> Finish<I> {
    /// Yield the underlying writer. Errors with
    /// [`BodyError::UnflushedFinish`] if it has not been flushed.
    pub fn into_writer(self) -> (r: BodyResult<I>)
        ensures
            match r {
                Ok(w) => self@.flushed && w == self@.writer,
                Err(e) => !self@.flushed && e == BodyError::UnflushedFinish,
            },
    {
        let Self { writer, flushed } = self;
        if !flushed {
            return Err(BodyError::UnflushedFinish);
        }
        Ok(writer)
    }

    /// Flush.
    pub fn poll_finish(&mut self, cx: &mut Context) -> (r: Poll<BodyResult<()>>)
        ensures
            (final(self)@, final(cx)@, r) == old(self)@.poll_finish(old(cx)@),
    {
        let (flushed, p) = poll_flush(cx, self.flushed);
        self.flushed = flushed;
        p
    }
}

/// Abort (terminal) state. Flushes; the writer is consumed and dropped along
/// with `Abort`. The receiver will detect a short body via byte count.
#[derive(Debug)]
pub struct Abort<I> {
    writer: I,
    flushed: bool,
}

/// The model of an [`Abort`].
pub struct AbortView<I> {
    pub writer: I,
    pub flushed: bool,
}

impl<I> AbortView<I> {
    /// What was written is flushed.
    pub open spec fn poll_abort(self, cx: Cx) -> (Self, Cx, Poll<BodyResult<()>>) {
        let (cx, flushed, p) = flush_step(cx, self.flushed);
        (AbortView { flushed, ..self }, cx, p)
    }
}

impl<I> View for Abort<I> {
    type V = AbortView<I>;

    closed spec fn view(&self) -> AbortView<I> {
        AbortView { writer: self.writer, flushed: self.flushed }
    }
}

impl<I> Abort<I> {
    /// Consume the abort, dropping the underlying writer. Errors with
    /// [`BodyError::UnflushedAbort`] if it has not been flushed.
    pub fn discard(self) -> (r: BodyResult<()>)
        ensures
            match r {
                Ok(()) => self@.flushed,
                Err(e) => !self@.flushed && e == BodyError::UnflushedAbort,
            },
    {
        let Self { writer: _, flushed } = self;
        if !flushed {
            return Err(BodyError::UnflushedAbort);
        }
        Ok(())
    }

    /// Flush.
    pub fn poll_abort(&mut self, cx: &mut Context) -> (r: Poll<BodyResult<()>>)
        ensures
            (final(self)@, final(cx)@, r) == old(self)@.poll_abort(old(cx)@),
    {
        let (flushed, p) = poll_flush(cx, self.flushed);
        self.flushed = flushed;
        p
    }
}

/// What is written into a body of stated length goes on the wire as it is, in order and once,
/// and is counted; what does not fit is refused as a whole, and told the length. A write of
/// all is done exactly where nothing is left.
pub proof fn bodies_take_what_fits<I>(
    w: ContentLengthWriterView<I>,
    cx: Cx,
    buffer: Seq<u8>,
    written: nat,
)
    requires
        w.offset <= w.length,
        written <= buffer.len() <= usize::MAX,
    ensures
        ({
            let (t, cx2, now, p) = w.poll_write_all(cx, buffer, written);
            &&& t.writer == w.writer && t.length == w.length
            &&& t.offset - w.offset == now - written
            &&& t.offset <= t.length
            &&& written <= now <= buffer.len()
            &&& cx2.wire + buffer.skip(now as int) == cx.wire + buffer.skip(written as int)
            &&& (p matches Poll::Ready(Ok(()))) <==> now == buffer.len()
            &&& p == Poll::Ready(Err::<(), _>(BodyError::BodyOverflow(w.length))) <==> w.offset + (
            buffer.len() - written) > w.length
            &&& w.offset + (buffer.len() - written) > w.length ==> cx2 == cx && now == written
        }),
        ({
            let (t, cx2, p) = w.poll_write(cx, buffer);
            &&& t.writer == w.writer && t.length == w.length
            &&& w.offset <= t.offset <= t.length
            &&& cx2.wire == cx.wire + buffer.take(t.offset - w.offset)
            &&& p matches Poll::Ready(Ok(n)) ==> t.offset == w.offset + n
            &&& !(p matches Poll::Ready(Ok(_))) ==> t.offset == w.offset
            &&& p == Poll::Ready(Err::<usize, _>(BodyError::BodyOverflow(w.length))) <==> w.offset
                + buffer.len() > w.length
        }),
{
    crate::body::writer::bounded_put_keeps_bytes(cx, w.length, w.offset, buffer, written);
    bounded_write_keeps_bytes(cx, w.length, w.offset, buffer);
}

/// The same of a chunk of such a body, which takes no more than was announced for it.
pub proof fn chunks_take_what_fits<I>(w: WriteView<I>, cx: Cx, buffer: Seq<u8>, written: nat)
    requires
        w.chunk_offset <= w.chunk_length,
        written <= buffer.len() <= usize::MAX,
    ensures
        ({
            let (t, cx2, now, p) = w.poll_write_all(cx, buffer, written);
            &&& t.writer == w.writer && t.length == w.length && t.offset == w.offset
            &&& t.chunk_length == w.chunk_length
            &&& t.chunk_offset - w.chunk_offset == now - written
            &&& t.chunk_offset <= t.chunk_length
            &&& written <= now <= buffer.len()
            &&& cx2.wire + buffer.skip(now as int) == cx.wire + buffer.skip(written as int)
            &&& (p matches Poll::Ready(Ok(()))) <==> now == buffer.len()
            &&& p == Poll::Ready(Err::<(), _>(BodyError::BodyOverflow(w.chunk_length)))
                <==> w.chunk_offset + (buffer.len() - written) > w.chunk_length
        }),
        ({
            let (t, cx2, p) = w.poll_write(cx, buffer);
            &&& t.writer == w.writer && t.length == w.length && t.offset == w.offset
            &&& t.chunk_length == w.chunk_length
            &&& w.chunk_offset <= t.chunk_offset <= t.chunk_length
            &&& cx2.wire == cx.wire + buffer.take(t.chunk_offset - w.chunk_offset)
            &&& p matches Poll::Ready(Ok(n)) ==> t.chunk_offset == w.chunk_offset + n
            &&& !(p matches Poll::Ready(Ok(_))) ==> t.chunk_offset == w.chunk_offset
            &&& p == Poll::Ready(Err::<usize, _>(BodyError::BodyOverflow(w.chunk_length)))
                <==> w.chunk_offset + buffer.len() > w.chunk_length
        }),
{
    crate::body::writer::bounded_put_keeps_bytes(
        cx,
        w.chunk_length,
        w.chunk_offset,
        buffer,
        written,
    );
    bounded_write_keeps_bytes(cx, w.chunk_length, w.chunk_offset, buffer);
}

/// The connection comes back exactly where the body has been written to its end; otherwise it
/// is told how much of it has.
pub proof fn the_connection_comes_back_after_the_body<I>(
    w: ContentLengthBodyWriter<I>,
    r: BodyResult<I>,
)
    requires
        call_ensures(ContentLengthBodyWriter::<I>::into_writer, (w,), r),
    ensures
        match r {
            Ok(io) => w@.offset == w@.length && io == w@.writer,
            Err(BodyError::IncompleteBody { expected, actual }) => {
                expected == w@.length && actual == w@.offset && actual < expected
            },
            Err(_) => false,
        },
{
}

/// A chunk can be opened exactly where it fits into what is left of the body; it is closed
/// exactly where all of it is written, and then counts; and the body is finished exactly
/// where all of it is written.
pub proof fn chunks_go_through_their_states<I>(
    ready: Ready<I>,
    length: u64,
    o: Open<I>,
    w: Write<I>,
    c: Close<I>,
    f: Finish<I>,
    opening: BodyResult<Open<I>>,
    opened: BodyResult<Write<I>>,
    closing: BodyResult<Close<I>>,
    closed: BodyResult<Ready<I>>,
    finishing: BodyResult<Finish<I>>,
    back: BodyResult<I>,
)
    requires
        call_ensures(Ready::<I>::open, (ready, length), opening),
        call_ensures(Open::<I>::into_write, (o,), opened),
        call_ensures(Write::<I>::into_close, (w,), closing),
        call_ensures(Close::<I>::into_ready, (c,), closed),
        call_ensures(Ready::<I>::finish, (ready,), finishing),
        call_ensures(Finish::<I>::into_writer, (f,), back),
        w@.offset + w@.chunk_length <= w@.length,
    ensures
        match opening {
            Ok(next) => {
                &&& ready@.offset + length <= ready@.length
                &&& next@.writer == ready@.writer
                &&& next@.length == ready@.length
                &&& next@.offset == ready@.offset
                &&& next@.chunk_length == length
            },
            Err(e) => ready@.offset + length > ready@.length && e == BodyError::BodyOverflow(
                ready@.length,
            ),
        },
        match opened {
            Ok(next) => {
                &&& next@.writer == o@.writer
                &&& next@.length == o@.length
                &&& next@.offset == o@.offset
                &&& next@.chunk_length == o@.chunk_length
                &&& next@.chunk_offset == 0
            },
            Err(_) => false,
        },
        match closing {
            Ok(next) => {
                &&& w@.chunk_offset == w@.chunk_length
                &&& next@.writer == w@.writer
                &&& next@.length == w@.length
                &&& next@.offset == w@.offset + w@.chunk_length
            },
            Err(BodyError::IncompleteBody { expected, actual }) => {
                actual == w@.chunk_offset && expected == w@.chunk_length && actual < expected
            },
            Err(_) => false,
        },
        match closed {
            Ok(next) => next@.writer == c@.writer && next@.length == c@.length && next@.offset
                == c@.offset,
            Err(_) => false,
        },
        match finishing {
            Ok(next) => ready@.offset == ready@.length && next@.writer == ready@.writer
                && !next@.flushed,
            Err(BodyError::IncompleteBody { expected, actual }) => {
                expected == ready@.length && actual == ready@.offset && actual < expected
            },
            Err(_) => false,
        },
        match back {
            Ok(io) => f@.flushed && io == f@.writer,
            Err(e) => !f@.flushed && e == BodyError::UnflushedFinish,
        },
{
}

/// To finish or to abort such a body puts nothing on the wire; it is done exactly where a
/// flush has been.
pub proof fn ends_are_flushed<I>(f: FinishView<I>, a: AbortView<I>, cx: Cx)
    ensures
        ({
            let (t, cx2, p) = f.poll_finish(cx);
            &&& t.writer == f.writer
            &&& cx2.wire == cx.wire && cx2.read == cx.read && cx2.write == cx.write
            &&& cx2.flush is None
            &&& t.flushed == (f.flushed || (p is Ready && p->Ready_0 is Ok))
            &&& match cx.flush {
                None => p is Pending,
                Some(r) => p is Ready && (p->Ready_0 is Ok) == (r is Ok),
            }
        }),
        ({
            let (t, cx2, p) = a.poll_abort(cx);
            &&& t.writer == a.writer
            &&& cx2.wire == cx.wire && cx2.read == cx.read && cx2.write == cx.write
            &&& cx2.flush is None
            &&& t.flushed == (a.flushed || (p is Ready && p->Ready_0 is Ok))
            &&& match cx.flush {
                None => p is Pending,
                Some(r) => p is Ready && (p->Ready_0 is Ok) == (r is Ok),
            }
        }),
{
}

} // verus!
