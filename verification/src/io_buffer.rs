//! A connection to read from, together with the bytes that have been read
//! from it and not consumed yet.
use bytes::Bytes;
use vstd::prelude::*;
use vstd::slice::slice_subrange;

use crate::octets::octets;
use crate::text::append;
use crate::transport::{Context, Cx, Poll};

verus! {

/// Why a buffer could not be filled.
#[derive(Debug)]
pub enum ReaderBufferError {
    /// The transport failed.
    Io(std::io::Error),
    /// The stream has ended.
    UnexpectedEOF,
}

/// A connection with its unread bytes.
#[derive(Debug)]
pub struct BytesReader<I> {
    io: I,
    /// Bytes read from `io`; those before `start` have been consumed.
    buf: Vec<u8>,
    start: usize,
}

/// The model of a [`BytesReader`].
#[verifier::ext_equal]
pub struct Buffered<I> {
    pub io: I,
    /// The unread bytes.
    pub buf: Seq<u8>,
}

impl<I> Buffered<I> {
    /// A read of at most `max_len` bytes into the buffer: how many came.
    pub open spec fn poll_read(self, cx: Cx, max_len: nat) -> (
        Self,
        Cx,
        Poll<Result<nat, std::io::Error>>,
    ) {
        let (cx, p) = cx.poll_read(max_len);
        match p {
            Poll::Pending => (self, cx, Poll::Pending),
            Poll::Ready(Err(e)) => (self, cx, Poll::Ready(Err(e))),
            Poll::Ready(Ok(data)) => (
                Buffered { buf: self.buf + data, ..self },
                cx,
                Poll::Ready(Ok(data.len())),
            ),
        }
    }

    /// A read that has to bring at least one byte.
    pub open spec fn poll_extend(self, cx: Cx, max_len: nat) -> (
        Self,
        Cx,
        Poll<Result<(), ReaderBufferError>>,
    ) {
        let (b, cx, p) = self.poll_read(cx, max_len);
        (
            b,
            cx,
            match p {
                Poll::Pending => Poll::Pending,
                Poll::Ready(Err(e)) => Poll::Ready(Err(ReaderBufferError::Io(e))),
                Poll::Ready(Ok(n)) => if n == 0 {
                    Poll::Ready(Err(ReaderBufferError::UnexpectedEOF))
                } else {
                    Poll::Ready(Ok(()))
                },
            },
        )
    }

    /// A read that is made only where the buffer is empty.
    pub open spec fn poll_ensure(self, cx: Cx, max_len: nat) -> (
        Self,
        Cx,
        Poll<Result<(), ReaderBufferError>>,
    ) {
        if self.buf.len() > 0 {
            (self, cx, Poll::Ready(Ok(())))
        } else {
            self.poll_extend(cx, max_len)
        }
    }

    /// The buffer without its first `n` bytes.
    pub open spec fn skip(self, n: int) -> Self {
        Buffered { buf: self.buf.skip(n), ..self }
    }
}

impl<I> BytesReader<I> {
    #[verifier::type_invariant]
    spec fn inv(self) -> bool {
        self.start <= self.buf@.len()
    }
}

impl<I> View for BytesReader<I> {
    type V = Buffered<I>;

    closed spec fn view(&self) -> Buffered<I> {
        Buffered { io: self.io, buf: self.buf@.skip(self.start as int) }
    }
}

impl<I> BytesReader<I> {
    /// A connection from which nothing has been read.
    pub fn new(io: I) -> (r: Self)
        ensures
            r@ == (Buffered { io, buf: Seq::empty() }),
    {
        let r = Self { io, buf: Vec::new(), start: 0 };
        assert(r.buf@.skip(0) =~= Seq::empty());
        r
    }

    /// A connection from which `buf` has been read already.
    pub fn from_parts(io: I, buf: Vec<u8>) -> (r: Self)
        ensures
            r@ == (Buffered { io, buf: buf@ }),
    {
        let r = Self { io, buf, start: 0 };
        assert(r.buf@.skip(0) =~= buf@);
        r
    }

    /// The connection and the unread bytes.
    pub fn into_parts(self) -> (r: (I, Vec<u8>))
        ensures
            r.0 == self@.io,
            r.1@ == self@.buf,
    {
        proof {
            use_type_invariant(&self);
        }
        let Self { io, mut buf, start } = self;
        let rest = buf.split_off(start);
        assert(rest@ =~= self@.buf);
        (io, rest)
    }

    /// The connection.
    pub fn as_inner(&self) -> (io: &I)
        ensures
            *io == self@.io,
    {
        &self.io
    }

    /// The number of unread bytes.
    pub fn len(&self) -> (n: usize)
        ensures
            n == self@.buf.len(),
    {
        proof {
            use_type_invariant(self);
        }
        self.buf.len() - self.start
    }

    /// Whether there are no unread bytes.
    pub fn is_empty(&self) -> (r: bool)
        ensures
            r == (self@.buf.len() == 0),
    {
        self.len() == 0
    }

    /// The unread bytes.
    pub fn as_bytes(&self) -> (s: &[u8])
        ensures
            s@ == self@.buf,
    {
        proof {
            use_type_invariant(self);
        }
        let s = slice_subrange(self.buf.as_slice(), self.start, self.buf.len());
        assert(s@ =~= self@.buf);
        s
    }

    /// Consume the first `at` unread bytes.
    pub fn split_to(&mut self, at: usize) -> (head: Bytes)
        requires
            at <= old(self)@.buf.len(),
        ensures
            octets(head) == old(self)@.buf.take(at as int),
            final(self)@ == old(self)@.skip(at as int),
    {
        proof {
            use_type_invariant(&*self);
        }
        let unread: usize = self.buf.len() - self.start;
        assert(at <= unread);
        let head = Bytes::copy_from_slice(
            slice_subrange(self.buf.as_slice(), self.start, self.start + at),
        );
        assert(octets(head) =~= self@.buf.take(at as int));
        self.start = self.start + at;
        assert(self@.buf =~= old(self)@.buf.skip(at as int));
        head
    }

    /// Consume the first unread byte.
    pub fn get_u8(&mut self) -> (b: u8)
        requires
            old(self)@.buf.len() > 0,
        ensures
            b == old(self)@.buf[0],
            final(self)@ == old(self)@.skip(1),
    {
        proof {
            use_type_invariant(&*self);
        }
        let unread: usize = self.buf.len() - self.start;
        assert(unread > 0);
        let b: u8 = self.buf[self.start];
        self.start = self.start + 1;
        assert(self@.buf =~= old(self)@.buf.skip(1));
        b
    }

    /// Put `data` behind the unread bytes, and let go of the consumed ones.
    fn push(&mut self, data: &[u8])
        ensures
            final(self)@ == (Buffered { buf: old(self)@.buf + data@, ..old(self)@ }),
    {
        proof {
            use_type_invariant(&*self);
        }
        let mut buf: Vec<u8> = Vec::new();
        append(&mut buf, slice_subrange(self.buf.as_slice(), self.start, self.buf.len()));
        append(&mut buf, data);
        assert(buf@ =~= self@.buf + data@);
        assert(buf@.skip(0) =~= buf@);
        self.start = 0;
        self.buf = buf;
    }

    /// Read at most `max_len` bytes into the buffer. Gives the number of
    /// bytes that came, zero at the end of the stream.
    pub fn poll_read(&mut self, cx: &mut Context, max_len: usize) -> (r: Poll<
        Result<usize, std::io::Error>,
    >)
        ensures
            final(self)@ == old(self)@.poll_read(old(cx)@, max_len as nat).0,
            final(cx)@ == old(self)@.poll_read(old(cx)@, max_len as nat).1,
            match (r, old(self)@.poll_read(old(cx)@, max_len as nat).2) {
                (Poll::Pending, Poll::Pending) => true,
                (Poll::Ready(Ok(n)), Poll::Ready(Ok(m))) => n == m,
                (Poll::Ready(Err(e)), Poll::Ready(Err(f))) => e == f,
                _ => false,
            },
    {
        match cx.poll_read(max_len) {
            Poll::Pending => Poll::Pending,
            Poll::Ready(Err(e)) => Poll::Ready(Err(e)),
            Poll::Ready(Ok(data)) => {
                self.push(data.as_slice());
                Poll::Ready(Ok(data.len()))
            },
        }
    }

    /// Read at most `max_len` more bytes; the end of the stream is an error.
    pub fn poll_extend(&mut self, cx: &mut Context, max_len: usize) -> (r: Poll<
        Result<(), ReaderBufferError>,
    >)
        ensures
            (final(self)@, final(cx)@, r) == old(self)@.poll_extend(old(cx)@, max_len as nat),
    {
        match self.poll_read(cx, max_len) {
            Poll::Pending => Poll::Pending,
            Poll::Ready(Err(e)) => Poll::Ready(Err(ReaderBufferError::Io(e))),
            Poll::Ready(Ok(n)) => if n == 0 {
                Poll::Ready(Err(ReaderBufferError::UnexpectedEOF))
            } else {
                Poll::Ready(Ok(()))
            },
        }
    }

    /// Make sure that there are unread bytes: where there are none, read at
    /// most `max_len`; the end of the stream is an error.
    pub fn poll_ensure(&mut self, cx: &mut Context, max_len: usize) -> (r: Poll<
        Result<(), ReaderBufferError>,
    >)
        ensures
            (final(self)@, final(cx)@, r) == old(self)@.poll_ensure(old(cx)@, max_len as nat),
    {
        if !self.is_empty() {
            return Poll::Ready(Ok(()));
        }
        self.poll_extend(cx, max_len)
    }
}

/// A read puts what came behind the unread bytes, and says how much came; it waits exactly
/// where nothing was delivered, and fails exactly where the transport did. The connection
/// stays the same.
pub proof fn reads_go_behind_the_unread_bytes<I>(b: Buffered<I>, cx: Cx, max_len: nat)
    ensures
        ({
            let (after, cx2, p) = b.poll_read(cx, max_len);
            &&& after.io == b.io
            &&& cx2.read is None
            &&& cx2.write == cx.write && cx2.flush == cx.flush && cx2.wire == cx.wire
            &&& match cx.read {
                Some(Ok(data)) => after.buf == b.buf + data && p == Poll::Ready(
                    Ok::<_, std::io::Error>(data.len()),
                ) && cx2.wants == cx.wants,
                Some(Err(e)) => after.buf == b.buf && p == Poll::Ready(Err::<nat, _>(e))
                    && cx2.wants == cx.wants,
                None => after.buf == b.buf && p is Pending && cx2.wants
                    == crate::transport::WantsView::Read(max_len),
            }
        }),
{
}

/// A read that has to bring something treats the end of the stream as an error of its own;
/// otherwise it does what a read does. Where bytes are unread already, none is made to ensure
/// that there are.
pub proof fn the_end_of_the_stream_is_an_error<I>(b: Buffered<I>, cx: Cx, max_len: nat)
    ensures
        b.poll_extend(cx, max_len).0 == b.poll_read(cx, max_len).0,
        b.poll_extend(cx, max_len).1 == b.poll_read(cx, max_len).1,
        match cx.read {
            Some(Ok(data)) => b.poll_extend(cx, max_len).2 == Poll::Ready(
                if data.len() > 0 {
                    Ok(())
                } else {
                    Err(ReaderBufferError::UnexpectedEOF)
                },
            ),
            Some(Err(e)) => b.poll_extend(cx, max_len).2 == Poll::Ready(
                Err::<(), _>(ReaderBufferError::Io(e)),
            ),
            None => b.poll_extend(cx, max_len).2 is Pending,
        },
        b.buf.len() > 0 ==> b.poll_ensure(cx, max_len) == (
            b,
            cx,
            Poll::Ready(Ok::<(), ReaderBufferError>(())),
        ),
        b.buf.len() == 0 ==> b.poll_ensure(cx, max_len) == b.poll_extend(cx, max_len),
{
}

/// What is consumed of the unread bytes and what is left make up what there was.
pub proof fn consumed_and_left_are_all<I>(b: Buffered<I>, n: int)
    requires
        0 <= n <= b.buf.len(),
    ensures
        b.buf.take(n) + b.skip(n).buf == b.buf,
        b.skip(n).buf.len() == b.buf.len() - n,
        b.skip(n).io == b.io,
{
    assert(b.buf.take(n) + b.skip(n).buf =~= b.buf);
}

} // verus!
