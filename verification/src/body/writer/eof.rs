//! State-machine writer for HTTP bodies framed by connection close
//! (RFC 9112 section 6.3).
//!
//! There is no on-the-wire framing per chunk: every byte handed to
//! [`Write::poll_write`] reaches the wire unframed, and the receiver
//! detects end-of-body by the connection closing. Because the encoding
//! has no terminator, both [`Finish`] and [`Abort`] consume and drop
//! the underlying writer - holding it open past the body would leave
//! the receiver waiting indefinitely.
use vstd::prelude::*;

use crate::body::error::{BodyError, BodyResult};
use crate::body::writer::{
    bounded_put, bounded_write, bounded_write_keeps_bytes, flush_step, poll_flush,
    poll_write_all_bounded, poll_write_bounded,
};
use crate::transport::{Context, Cx, Poll};

verus! {

/// Idle state.
#[derive(Debug)]
pub struct Ready<I> {
    writer: I,
}

impl<I> Ready<I> {
    /// The connection.
    pub closed spec fn io(&self) -> I {
        self.writer
    }

    /// A body of which nothing has been written.
    pub fn new(writer: I) -> (r: Self)
        ensures
            r.io() == writer,
    {
        Self { writer }
    }

    /// Begin a new chunk of `length` bytes. EOF framing has no upper
    /// bound on body size, so this is infallible.
    pub fn open(self, length: u64) -> (r: Open<I>)
        ensures
            r@ == (OpenView { writer: self.io(), chunk_length: length }),
    {
        let Self { writer } = self;
        Open { writer, chunk_length: length }
    }

    /// Terminate the body cleanly.
    pub fn finish(self) -> (r: Finish<I>)
        ensures
            r@ == (FinishView { writer: self.io(), flushed: false }),
    {
        let Self { writer } = self;
        Finish { writer, flushed: false }
    }

    /// Terminate the body abnormally.
    pub fn abort(self) -> (r: Abort<I>)
        ensures
            r@ == (AbortView { writer: self.io(), flushed: false }),
    {
        let Self { writer } = self;
        Abort { writer, flushed: false }
    }
}

/// Open state. No header is written.
#[derive(Debug)]
pub struct Open<I> {
    writer: I,
    chunk_length: u64,
}

/// The model of an [`Open`].
pub struct OpenView<I> {
    pub writer: I,
    pub chunk_length: u64,
}

impl<I> View for Open<I> {
    type V = OpenView<I>;

    closed spec fn view(&self) -> OpenView<I> {
        OpenView { writer: self.writer, chunk_length: self.chunk_length }
    }
}

impl<I> Open<I> {
    /// Nothing is to be written.
    pub fn poll_open(&mut self, _cx: &mut Context) -> (r: Poll<BodyResult<()>>)
        ensures
            *final(self) == *old(self),
            *final(_cx) == *old(_cx),
            r matches Poll::Ready(Ok(())),
    {
        Poll::Ready(Ok(()))
    }

    /// Transition to [`Write`].
    pub fn into_write(self) -> (r: BodyResult<Write<I>>)
        ensures
            r matches Ok(w) && w@ == (WriteView {
                writer: self@.writer,
                chunk_length: self@.chunk_length,
                chunk_offset: 0,
            }),
    {
        let Self { writer, chunk_length } = self;
        Ok(Write { writer, chunk_length, chunk_offset: 0 })
    }
}

/// Write state. Tracks the chunk-local offset against the declared chunk
/// length.
#[derive(Debug)]
pub struct Write<I> {
    writer: I,
    chunk_length: u64,
    chunk_offset: u64,
}

/// The model of a [`Write`].
pub struct WriteView<I> {
    pub writer: I,
    pub chunk_length: u64,
    pub chunk_offset: u64,
}

impl<I> WriteView<I> {
    /// Some prefix of `buffer` is written.
    pub open spec fn poll_write(self, cx: Cx, buffer: Seq<u8>) -> (
        Self,
        Cx,
        Poll<BodyResult<usize>>,
    ) {
        let (cx, chunk_offset, p) = bounded_write(cx, self.chunk_length, self.chunk_offset, buffer);
        (WriteView { chunk_offset, ..self }, cx, p)
    }

    /// All of `buffer` but its first `written` bytes is written.
    pub open spec fn poll_write_all(self, cx: Cx, buffer: Seq<u8>, written: nat) -> (
        Self,
        Cx,
        nat,
        Poll<BodyResult<()>>,
    ) {
        let (cx, chunk_offset, now, p) = bounded_put(
            cx,
            self.chunk_length,
            self.chunk_offset,
            buffer,
            written,
        );
        (WriteView { chunk_offset, ..self }, cx, now, p)
    }
}

impl<I> View for Write<I> {
    type V = WriteView<I>;

    closed spec fn view(&self) -> WriteView<I> {
        WriteView {
            writer: self.writer,
            chunk_length: self.chunk_length,
            chunk_offset: self.chunk_offset,
        }
    }
}

impl<I> Write<I> {
    #[verifier::type_invariant]
    spec fn inv(self) -> bool {
        self.chunk_offset <= self.chunk_length
    }

    /// The number of bytes yet to be written into this chunk.
    pub fn chunk_remaining(&self) -> (n: u64)
        ensures
            n == self@.chunk_length - self@.chunk_offset,
    {
        proof {
            use_type_invariant(self);
        }
        self.chunk_length - self.chunk_offset
    }

    /// Finish the chunk and move to the next state. Errors if not all bytes
    /// have been written.
    pub fn into_close(self) -> (r: BodyResult<Close<I>>)
        ensures
            match r {
                Ok(c) => self@.chunk_offset == self@.chunk_length && c.io() == self@.writer,
                Err(e) => self@.chunk_offset < self@.chunk_length && e == (
                BodyError::IncompleteBody {
                    expected: self@.chunk_length,
                    actual: self@.chunk_offset,
                }),
            },
    {
        proof {
            use_type_invariant(&self);
        }
        let Self { writer, chunk_length, chunk_offset } = self;
        if chunk_offset < chunk_length {
            return Err(
                BodyError::IncompleteBody { expected: chunk_length, actual: chunk_offset },
            );
        }
        Ok(Close { writer })
    }

    /// Write some prefix of `buffer`.
    pub fn poll_write(&mut self, cx: &mut Context, buffer: &[u8]) -> (r: Poll<BodyResult<usize>>)
        ensures
            (final(self)@, final(cx)@, r) == old(self)@.poll_write(old(cx)@, buffer@),
            final(cx)@.wire == old(cx)@.wire + buffer@.take(
                final(self)@.chunk_offset - old(self)@.chunk_offset,
            ),
            old(self)@.chunk_offset <= final(self)@.chunk_offset <= final(self)@.chunk_length,
    {
        proof {
            use_type_invariant(&*self);
            bounded_write_keeps_bytes(cx@, self.chunk_length, self.chunk_offset, buffer@);
        }
        let mut offset: u64 = self.chunk_offset;
        let p = poll_write_bounded(cx, self.chunk_length, &mut offset, buffer);
        self.chunk_offset = offset;
        p
    }

    /// Write all of `buffer` but its first `written` bytes.
    pub fn poll_write_all(&mut self, cx: &mut Context, buffer: &[u8], written: &mut usize) -> (r:
        Poll<BodyResult<()>>)
        ensures
            (final(self)@, final(cx)@, *final(written) as nat, r) == old(self)@.poll_write_all(
                old(cx)@,
                buffer@,
                *old(written) as nat,
            ),
    {
        proof {
            use_type_invariant(&*self);
        }
        let mut offset: u64 = self.chunk_offset;
        let p = poll_write_all_bounded(cx, self.chunk_length, &mut offset, buffer, written);
        self.chunk_offset = offset;
        p
    }
}

/// Close state. No footer is written.
#[derive(Debug)]
pub struct Close<I> {
    writer: I,
}

impl<I> Close<I> {
    /// The connection.
    pub closed spec fn io(&self) -> I {
        self.writer
    }

    /// Nothing is to be written.
    pub fn poll_close(&mut self, _cx: &mut Context) -> (r: Poll<BodyResult<()>>)
        ensures
            *final(self) == *old(self),
            *final(_cx) == *old(_cx),
            r matches Poll::Ready(Ok(())),
    {
        Poll::Ready(Ok(()))
    }

    /// Transition back to [`Ready`].
    pub fn into_ready(self) -> (r: BodyResult<Ready<I>>)
        ensures
            r matches Ok(ready) && ready.io() == self.io(),
    {
        let Self { writer } = self;
        Ok(Ready { writer })
    }
}

/// Finish (terminal) state. Flushes; the writer is consumed and dropped along
/// with `Finish`, which ends the body.
#[derive(Debug)]
pub struct Finish<I> {
    writer: I,
    flushed: bool,
}

/// The model of a [`Finish`].
pub struct FinishView<I> {
    pub writer: I,
    pub flushed: bool,
}

impl<I> FinishView<I> {
    /// What was written is flushed.
    pub open spec fn poll_finish(self, cx: Cx) -> (Self, Cx, Poll<BodyResult<()>>) {
        let (cx, flushed, p) = flush_step(cx, self.flushed);
        (FinishView { flushed, ..self }, cx, p)
    }
}

impl<I> View for Finish<I> {
    type V = FinishView<I>;

    closed spec fn view(&self) -> FinishView<I> {
        FinishView { writer: self.writer, flushed: self.flushed }
    }
}

impl<I> Finish<I> {
    /// Consume the finish, dropping the underlying writer. Errors with
    /// [`BodyError::UnflushedFinish`] if it has not been flushed.
    pub fn discard(self) -> (r: BodyResult<()>)
        ensures
            match r {
                Ok(()) => self@.flushed,
                Err(e) => !self@.flushed && e == BodyError::UnflushedFinish,
            },
    {
        let Self { writer: _, flushed } = self;
        if !flushed {
            return Err(BodyError::UnflushedFinish);
        }
        Ok(())
    }

    /// Flush.
    pub fn poll_finish(&mut self, cx: &mut Context) -> (r: Poll<BodyResult<()>>)
        ensures
            (final(self)@, final(cx)@, r) == old(self)@.poll_finish(old(cx)@),
    {
        let (flushed, p) = poll_flush(cx, self.flushed);
        self.flushed = flushed;
        p
    }
}

/// Abort (terminal) state. Flushes; the writer is consumed and dropped along
/// with `Abort`. EOF framing has no in-band poison.
#[derive(Debug)]
pub struct Abort<I> {
    writer: I,
    flushed: bool,
}

/// The model of an [`Abort`].
pub struct AbortView<I> {
    pub writer: I,
    pub flushed: bool,
}

impl<I> AbortView<I> {
    /// What was written is flushed.
    pub open spec fn poll_abort(self, cx: Cx) -> (Self, Cx, Poll<BodyResult<()>>) {
        let (cx, flushed, p) = flush_step(cx, self.flushed);
        (AbortView { flushed, ..self }, cx, p)
    }
}

impl<I> View for Abort<I> {
    type V = AbortView<I>;

    closed spec fn view(&self) -> AbortView<I> {
        AbortView { writer: self.writer, flushed: self.flushed }
    }
}

impl<I> Abort<I> {
    /// Consume the abort, dropping the underlying writer. Errors with
    /// [`BodyError::UnflushedAbort`] if it has not been flushed.
    pub fn discard(self) -> (r: BodyResult<()>)
        ensures
            match r {
                Ok(()) => self@.flushed,
                Err(e) => !self@.flushed && e == BodyError::UnflushedAbort,
            },
    {
        let Self { writer: _, flushed } = self;
        if !flushed {
            return Err(BodyError::UnflushedAbort);
        }
        Ok(())
    }

    /// Flush.
    pub fn poll_abort(&mut self, cx: &mut Context) -> (r: Poll<BodyResult<()>>)
        ensures
            (final(self)@, final(cx)@, r) == old(self)@.poll_abort(old(cx)@),
    {
        let (flushed, p) = poll_flush(cx, self.flushed);
        self.flushed = flushed;
        p
    }
}

/// To finish or to abort such a body puts nothing on the wire; it is done exactly where a
/// flush has been.
pub proof fn ends_are_flushed<I>(f: FinishView<I>, a: AbortView<I>, cx: Cx)
    ensures
        ({
            let (t, cx2, p) = f.poll_finish(cx);
            &&& t.writer == f.writer
            &&& cx2.wire == cx.wire && cx2.read == cx.read && cx2.write == cx.write
            &&& cx2.flush is None
            &&& t.flushed == (f.flushed || (p is Ready && p->Ready_0 is Ok))
            &&& match cx.flush {
                None => p is Pending,
                Some(r) => p is Ready && (p->Ready_0 is Ok) == (r is Ok),
            }
        }),
        ({
            let (t, cx2, p) = a.poll_abort(cx);
            &&& t.writer == a.writer
            &&& cx2.wire == cx.wire && cx2.read == cx.read && cx2.write == cx.write
            &&& cx2.flush is None
            &&& t.flushed == (a.flushed || (p is Ready && p->Ready_0 is Ok))
            &&& match cx.flush {
                None => p is Pending,
                Some(r) => p is Ready && (p->Ready_0 is Ok) == (r is Ok),
            }
        }),
{
}

/// What is written into a body that ends with the connection goes on the wire as it is, and
/// is counted; no more goes into a chunk than was announced for it.
pub proof fn chunks_take_what_fits<I>(w: WriteView<I>, cx: Cx, buffer: Seq<u8>, written: nat)
    requires
        w.chunk_offset <= w.chunk_length,
        written <= buffer.len() <= usize::MAX,
    ensures
        ({
            let (t, cx2, now, p) = w.poll_write_all(cx, buffer, written);
            &&& t.writer == w.writer && t.chunk_length == w.chunk_length
            &&& t.chunk_offset - w.chunk_offset == now - written
            &&& t.chunk_offset <= t.chunk_length
            &&& written <= now <= buffer.len()
            &&& cx2.wire + buffer.skip(now as int) == cx.wire + buffer.skip(written as int)
            &&& (p matches Poll::Ready(Ok(()))) <==> now == buffer.len()
            &&& p == Poll::Ready(Err::<(), _>(BodyError::BodyOverflow(w.chunk_length)))
                <==> w.chunk_offset + (buffer.len() - written) > w.chunk_length
        }),
        ({
            let (t, cx2, p) = w.poll_write(cx, buffer);
            &&& t.writer == w.writer && t.chunk_length == w.chunk_length
            &&& w.chunk_offset <= t.chunk_offset <= t.chunk_length
            &&& cx2.wire == cx.wire + buffer.take(t.chunk_offset - w.chunk_offset)
            &&& p matches Poll::Ready(Ok(n)) ==> t.chunk_offset == w.chunk_offset + n
            &&& !(p matches Poll::Ready(Ok(_))) ==> t.chunk_offset == w.chunk_offset
            &&& p == Poll::Ready(Err::<usize, _>(BodyError::BodyOverflow(w.chunk_length)))
                <==> w.chunk_offset + buffer.len() > w.chunk_length
        }),
{
    crate::body::writer::bounded_put_keeps_bytes(
        cx,
        w.chunk_length,
        w.chunk_offset,
        buffer,
        written,
    );
    bounded_write_keeps_bytes(cx, w.chunk_length, w.chunk_offset, buffer);
}

/// A chunk of any length can be opened; it is closed exactly where all of it is written. The
/// connection stays the same, and never comes back: it ends with the body.
pub proof fn chunks_go_through_their_states<I>(
    ready: Ready<I>,
    length: u64,
    o: Open<I>,
    w: Write<I>,
    c: Close<I>,
    f: Finish<I>,
    opening: Open<I>,
    opened: BodyResult<Write<I>>,
    closing: BodyResult<Close<I>>,
    closed: BodyResult<Ready<I>>,
    finishing: Finish<I>,
    done: BodyResult<()>,
)
    requires
        call_ensures(Ready::<I>::open, (ready, length), opening),
        call_ensures(Open::<I>::into_write, (o,), opened),
        call_ensures(Write::<I>::into_close, (w,), closing),
        call_ensures(Close::<I>::into_ready, (c,), closed),
        call_ensures(Ready::<I>::finish, (ready,), finishing),
        call_ensures(Finish::<I>::discard, (f,), done),
    ensures
        opening@.writer == ready.io() && opening@.chunk_length == length,
        opened matches Ok(next) && next@.writer == o@.writer && next@.chunk_length
            == o@.chunk_length && next@.chunk_offset == 0,
        match closing {
            Ok(next) => w@.chunk_offset == w@.chunk_length && next.io() == w@.writer,
            Err(BodyError::IncompleteBody { expected, actual }) => {
                actual == w@.chunk_offset && expected == w@.chunk_length && actual < expected
            },
            Err(_) => false,
        },
        closed matches Ok(next) && next.io() == c.io(),
        finishing@.writer == ready.io() && !finishing@.flushed,
        match done {
            Ok(()) => f@.flushed,
            Err(e) => !f@.flushed && e == BodyError::UnflushedFinish,
        },
{
}

} // verus!
