//! Readers of message bodies, one for each way in which a body can end.
use bytes::Bytes;
use vstd::prelude::*;

use crate::body::error::{BodyError, BodyResult};
use crate::io_buffer::{Buffered, BytesReader, ReaderBufferError};
use crate::octets::octets;
use crate::transport::{Context, Cx, Poll};

pub mod bodyless;
pub mod chunk_data;
pub mod chunk_head;
pub mod chunked;
pub mod content_length;
pub mod eof;

verus! {

/// How much is read at a time by a reader that drops what it reads.
pub const DRAIN_SIZE: usize = 4096;

/// How much is asked of the transport when the buffer is empty.
pub const IO_FILL_LEN: usize = 4096;

/// What a read of a body comes to: the view of its bytes, `None` at the end.
pub open spec fn data_view(r: Poll<BodyResult<Option<Bytes>>>) -> Poll<BodyResult<Option<Seq<u8>>>> {
    match r {
        Poll::Pending => Poll::Pending,
        Poll::Ready(Err(e)) => Poll::Ready(Err(e)),
        Poll::Ready(Ok(None)) => Poll::Ready(Ok(None)),
        Poll::Ready(Ok(Some(b))) => Poll::Ready(Ok(Some(octets(b)))),
    }
}

/// The smaller of two numbers.
pub open spec fn smaller(a: nat, b: nat) -> nat {
    if a <= b {
        a
    } else {
        b
    }
}

/// A buffer error as an error of the body.
pub open spec fn body_fill(p: Poll<Result<(), ReaderBufferError>>) -> Poll<BodyResult<()>> {
    match p {
        Poll::Pending => Poll::Pending,
        Poll::Ready(Ok(())) => Poll::Ready(Ok(())),
        Poll::Ready(Err(ReaderBufferError::Io(e))) => Poll::Ready(Err(BodyError::BodyReadError(e))),
        Poll::Ready(Err(ReaderBufferError::UnexpectedEOF)) => Poll::Ready(
            Err(BodyError::UnexpectedEOF),
        ),
    }
}

/// The bytes that have come and have not been consumed: those in the buffer,
/// and those of a read whose outcome waits to be taken.
pub open spec fn unread<I>(reader: Buffered<I>, cx: Cx) -> Seq<u8> {
    match cx.read {
        Some(Ok(data)) => reader.buf + data,
        _ => reader.buf,
    }
}

/// The read whose outcome waits to be taken has brought nothing: it has failed,
/// or the stream has ended.
pub open spec fn read_failed(cx: Cx) -> bool {
    match cx.read {
        Some(Ok(data)) => data.len() == 0,
        Some(Err(_)) => true,
        None => false,
    }
}

/// The front of what comes, as far as it has come to a buffer: it holds all of
/// `first`, or a part of it.
pub proof fn lemma_first_in_front(
    buf: Seq<u8>,
    front: Seq<u8>,
    coming: Seq<u8>,
    first: Seq<u8>,
    rest: Seq<u8>,
)
    requires
        buf.len() <= front.len(),
        buf == front.take(buf.len() as int),
        front + coming == first + rest,
    ensures
        buf.len() < first.len() ==> buf == first.take(buf.len() as int),
        buf.len() >= first.len() ==> buf == first + buf.skip(first.len() as int) && front.skip(
            first.len() as int,
        ) + coming == rest,
        front.len() < first.len() ==> coming.len() > 0,
{
    let all = first + rest;
    assert(front =~= all.take(front.len() as int));
    if buf.len() < first.len() {
        assert(buf =~= first.take(buf.len() as int));
    } else {
        assert(buf =~= first + buf.skip(first.len() as int));
        assert(front.skip(first.len() as int) + coming =~= (front + coming).skip(
            first.len() as int,
        ));
        assert(all.skip(first.len() as int) =~= rest);
    }
}

/// One of several reads: what it finds, what is still to come at that time, and how
/// much it asks for.
pub struct ReadStep {
    pub cx: Cx,
    pub coming: Seq<u8>,
    pub max_len: nat,
}

/// The data that a read has given.
pub open spec fn given(p: Poll<BodyResult<Option<Seq<u8>>>>) -> Seq<u8> {
    match p {
        Poll::Ready(Ok(Some(data))) => data,
        _ => Seq::empty(),
    }
}

/// Read where the buffer is empty.
pub open spec fn ensure_step<I>(reader: Buffered<I>, cx: Cx) -> (
    Buffered<I>,
    Cx,
    Poll<BodyResult<()>>,
) {
    let (reader, cx, p) = reader.poll_ensure(cx, IO_FILL_LEN as nat);
    (reader, cx, body_fill(p))
}

/// Read more.
pub open spec fn extend_step<I>(reader: Buffered<I>, cx: Cx) -> (
    Buffered<I>,
    Cx,
    Poll<BodyResult<()>>,
) {
    let (reader, cx, p) = reader.poll_extend(cx, IO_FILL_LEN as nat);
    (reader, cx, body_fill(p))
}

/// Make sure that the buffer is not empty.
pub fn poll_ensure<I>(cx: &mut Context, reader: &mut BytesReader<I>) -> (r: Poll<BodyResult<()>>)
    ensures
        (final(reader)@, final(cx)@, r) == ensure_step(old(reader)@, old(cx)@),
{
    match reader.poll_ensure(cx, IO_FILL_LEN) {
        Poll::Pending => Poll::Pending,
        Poll::Ready(Ok(())) => Poll::Ready(Ok(())),
        Poll::Ready(Err(e)) => Poll::Ready(Err(BodyError::from(e))),
    }
}

/// Read more into the buffer.
pub fn poll_extend<I>(cx: &mut Context, reader: &mut BytesReader<I>) -> (r: Poll<BodyResult<()>>)
    ensures
        (final(reader)@, final(cx)@, r) == extend_step(old(reader)@, old(cx)@),
{
    match reader.poll_extend(cx, IO_FILL_LEN) {
        Poll::Pending => Poll::Pending,
        Poll::Ready(Ok(())) => Poll::Ready(Ok(())),
        Poll::Ready(Err(e)) => Poll::Ready(Err(BodyError::from(e))),
    }
}

/// A step that needs unread bytes is made at once where there are some; otherwise it waits
/// for the transport, and takes what came. Only where the transport failed is the body said
/// to be unreadable, with that failure; and only where the stream ended is it said to have
/// ended too early. No byte is lost.
pub proof fn bytes_are_ensured<I>(reader: Buffered<I>, cx: Cx)
    ensures
        ({
            let (t, cx2, p) = ensure_step(reader, cx);
            &&& t.io == reader.io
            &&& unread(t, cx2) == unread(reader, cx)
            &&& reader.buf.len() > 0 ==> t == reader && cx2 == cx && p == Poll::Ready(
                Ok::<(), BodyError>(()),
            )
            &&& reader.buf.len() == 0 ==> cx2.read is None && (match cx.read {
                None => p is Pending && t.buf.len() == 0 && cx2.wants
                    == crate::transport::WantsView::Read(IO_FILL_LEN as nat),
                Some(Ok(data)) => t.buf == data && p == Poll::Ready(
                    if data.len() > 0 {
                        Ok(())
                    } else {
                        Err(BodyError::UnexpectedEOF)
                    },
                ),
                Some(Err(e)) => t.buf.len() == 0 && p == Poll::Ready(
                    Err::<(), _>(BodyError::BodyReadError(e)),
                ),
            })
            &&& cx2.write == cx.write && cx2.flush == cx.flush && cx2.wire == cx.wire
        }),
{
    let (t, cx2, p) = ensure_step(reader, cx);
    assert(unread(t, cx2) =~= unread(reader, cx));
    if reader.buf.len() == 0 {
        assert(reader.buf =~= Seq::empty());
        if let Some(Ok(data)) = cx.read {
            assert(reader.buf + data =~= data);
        }
    }
}

/// A step that needs more bytes waits for the transport, and puts what came behind those that
/// are unread. Its failures are those of a step that needs any.
pub proof fn bytes_are_extended<I>(reader: Buffered<I>, cx: Cx)
    ensures
        ({
            let (t, cx2, p) = extend_step(reader, cx);
            &&& t.io == reader.io
            &&& unread(t, cx2) == unread(reader, cx)
            &&& cx2.read is None
            &&& match cx.read {
                None => p is Pending && t.buf == reader.buf && cx2.wants
                    == crate::transport::WantsView::Read(IO_FILL_LEN as nat),
                Some(Ok(data)) => t.buf == reader.buf + data && p == Poll::Ready(
                    if data.len() > 0 {
                        Ok(())
                    } else {
                        Err(BodyError::UnexpectedEOF)
                    },
                ),
                Some(Err(e)) => t.buf == reader.buf && p == Poll::Ready(
                    Err::<(), _>(BodyError::BodyReadError(e)),
                ),
            }
            &&& cx2.write == cx.write && cx2.flush == cx.flush && cx2.wire == cx.wire
        }),
{
    let (t, cx2, p) = extend_step(reader, cx);
    assert(unread(t, cx2) =~= unread(reader, cx));
}

} // verus!
