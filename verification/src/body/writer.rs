//! Writers of message bodies, one set of states for each way in which a body
//! can end.
use vstd::prelude::*;

use crate::body::error::{BodyError, BodyResult};
use crate::transport::{Context, Cx, Poll, WriteFailure};

pub mod bodyless;
pub mod chunked;
pub mod chunked_body;
pub mod content_length;
pub mod eof;

verus! {

/// The outcome of putting bytes on the wire, as an outcome of the body.
pub open spec fn put_result(p: Poll<Result<(), WriteFailure>>) -> Poll<BodyResult<()>> {
    match p {
        Poll::Pending => Poll::Pending,
        Poll::Ready(Ok(())) => Poll::Ready(Ok(())),
        Poll::Ready(Err(e)) => Poll::Ready(Err(BodyError::BodyWriteError(e))),
    }
}

/// All of `data` but its first `written` bytes is put on the wire; the second
/// part of the result is how much of `data` is there by then.
pub open spec fn put_step(cx: Cx, data: Seq<u8>, written: nat) -> (Cx, nat, Poll<BodyResult<()>>) {
    let (cx, written, p) = cx.poll_put(data, written);
    (cx, written, put_result(p))
}

/// What was written is flushed; the second part of the result is whether that
/// is done.
pub open spec fn flush_step(cx: Cx, flushed: bool) -> (Cx, bool, Poll<BodyResult<()>>) {
    let (cx, p) = cx.poll_flush();
    match p {
        Poll::Pending => (cx, flushed, Poll::Pending),
        Poll::Ready(Ok(())) => (cx, true, Poll::Ready(Ok(()))),
        Poll::Ready(Err(e)) => (
            cx,
            flushed,
            Poll::Ready(Err(BodyError::BodyWriteError(WriteFailure::Io(e)))),
        ),
    }
}

/// A write of some prefix of `buffer` into a body that has `offset` of at most
/// `max_length` bytes. A buffer that would not fit is refused as a whole. The
/// second part of the result is how much the body has by then.
pub open spec fn bounded_write(cx: Cx, max_length: u64, offset: u64, buffer: Seq<u8>) -> (
    Cx,
    u64,
    Poll<BodyResult<usize>>,
) {
    if offset + buffer.len() > max_length {
        (cx, offset, Poll::Ready(Err(BodyError::BodyOverflow(max_length))))
    } else {
        let (cx, p) = cx.poll_write(buffer);
        match p {
            Poll::Pending => (cx, offset, Poll::Pending),
            Poll::Ready(Err(e)) => (
                cx,
                offset,
                Poll::Ready(Err(BodyError::BodyWriteError(WriteFailure::Io(e)))),
            ),
            Poll::Ready(Ok(n)) => (cx, (offset + n) as u64, Poll::Ready(Ok(n))),
        }
    }
}

/// A write of all of `buffer` but its first `written` bytes into a body that
/// has `offset` of at most `max_length` bytes.
pub open spec fn bounded_put(
    cx: Cx,
    max_length: u64,
    offset: u64,
    buffer: Seq<u8>,
    written: nat,
) -> (Cx, u64, nat, Poll<BodyResult<()>>) {
    if written < buffer.len() && offset + (buffer.len() - written) > max_length {
        (cx, offset, written, Poll::Ready(Err(BodyError::BodyOverflow(max_length))))
    } else {
        let (cx, now, p) = put_step(cx, buffer, written);
        (cx, (offset + (now - written)) as u64, now, p)
    }
}

/// Put all of `data` but its first `written` bytes on the wire.
pub(crate) fn poll_put(cx: &mut Context, data: &[u8], written: usize) -> (r: (
    usize,
    Poll<BodyResult<()>>,
))
    ensures
        (final(cx)@, r.0 as nat, r.1) == put_step(old(cx)@, data@, written as nat),
{
    let mut now: usize = written;
    let p = cx.poll_put(data, &mut now);
    (
        now,
        match p {
            Poll::Pending => Poll::Pending,
            Poll::Ready(Ok(())) => Poll::Ready(Ok(())),
            Poll::Ready(Err(e)) => Poll::Ready(Err(BodyError::BodyWriteError(e))),
        },
    )
}

/// Flush what was written.
pub(crate) fn poll_flush(cx: &mut Context, flushed: bool) -> (r: (bool, Poll<BodyResult<()>>))
    ensures
        (final(cx)@, r.0, r.1) == flush_step(old(cx)@, flushed),
{
    match cx.poll_flush() {
        Poll::Pending => (flushed, Poll::Pending),
        Poll::Ready(Ok(())) => (true, Poll::Ready(Ok(()))),
        Poll::Ready(Err(e)) => (
            flushed,
            Poll::Ready(Err(BodyError::BodyWriteError(WriteFailure::Io(e)))),
        ),
    }
}

/// Write some prefix of `buffer` into a body that has `offset` of at most
/// `max_length` bytes.
pub fn poll_write_bounded(
    cx: &mut Context,
    max_length: u64,
    offset: &mut u64,
    buffer: &[u8],
) -> (r: Poll<BodyResult<usize>>)
    ensures
        (final(cx)@, *final(offset), r) == bounded_write(
            old(cx)@,
            max_length,
            *old(offset),
            buffer@,
        ),
{
    let target_next_offset: u64 = match offset.checked_add(buffer.len() as u64) {
        Some(t) => t,
        // a complete write of this buffer would overflow the size of a u64
        None => return Poll::Ready(Err(BodyError::BodyOverflow(max_length))),
    };
    if target_next_offset > max_length {
        // a complete write of this buffer would overflow the allowed length
        return Poll::Ready(Err(BodyError::BodyOverflow(max_length)));
    }
    match cx.poll_write(buffer) {
        Poll::Pending => Poll::Pending,
        Poll::Ready(Err(e)) => Poll::Ready(Err(BodyError::BodyWriteError(WriteFailure::Io(e)))),
        Poll::Ready(Ok(n)) => {
            // we already check that a full write of the buffer won't
            // overflow, so we are safe to advance the offset by the
            // written length.
            *offset = *offset + n as u64;
            Poll::Ready(Ok(n))
        },
    }
}

/// Write all of `buffer` but its first `written` bytes into a body that has
/// `offset` of at most `max_length` bytes, and keep `written` up to date
/// across polls. A transport that accepts nothing is a failure.
pub fn poll_write_all_bounded(
    cx: &mut Context,
    max_length: u64,
    offset: &mut u64,
    buffer: &[u8],
    written: &mut usize,
) -> (r: Poll<BodyResult<()>>)
    requires
        *old(offset) <= max_length,
    ensures
        (final(cx)@, *final(offset), *final(written) as nat, r) == bounded_put(
            old(cx)@,
            max_length,
            *old(offset),
            buffer@,
            *old(written) as nat,
        ),
        *final(offset) <= max_length,
{
    while *written < buffer.len()
        invariant
            *offset <= max_length,
            bounded_put(cx@, max_length, *offset, buffer@, *written as nat) == bounded_put(
                old(cx)@,
                max_length,
                *old(offset),
                buffer@,
                *old(written) as nat,
            ),
        decreases cx@.events(),
    {
        let (_done, rest) = buffer.split_at(*written);
        assert(rest@ == buffer@.skip(*written as int));
        match poll_write_bounded(cx, max_length, offset, rest) {
            Poll::Pending => return Poll::Pending,
            Poll::Ready(Err(e)) => return Poll::Ready(Err(e)),
            Poll::Ready(Ok(n)) => {
                if n == 0 {
                    return Poll::Ready(Err(BodyError::BodyWriteError(WriteFailure::WriteZero)));
                }
                *written = *written + n;
            },
        }
    }
    Poll::Ready(Ok(()))
}

/// Whatever comes of it, putting bytes on the wire neither loses nor repeats
/// any: what is on the wire and what is still to be put there make up the
/// same bytes as before; and it is done exactly where nothing is left.
pub proof fn put_keeps_bytes(cx: Cx, data: Seq<u8>, written: nat)
    requires
        written <= data.len(),
    ensures
        ({
            let (cx2, now, p) = put_step(cx, data, written);
            &&& written <= now <= data.len()
            &&& cx2.wire + data.skip(now as int) == cx.wire + data.skip(written as int)
            &&& (p matches Poll::Ready(Ok(()))) <==> now == data.len()
            &&& cx2.read == cx.read
            &&& cx2.flush == cx.flush
            &&& (p matches Poll::Pending) ==> cx2.write is None && cx2.wants
                == crate::transport::WantsView::Write(data.skip(now as int))
        }),
{
    let (cx2, now, p) = put_step(cx, data, written);
    assert(cx2.wire + data.skip(now as int) =~= cx.wire + data.skip(written as int));
}

/// A write into a body puts exactly the accepted bytes on the wire, counts
/// them, and never takes the body beyond its length.
pub proof fn bounded_write_keeps_bytes(cx: Cx, max_length: u64, offset: u64, buffer: Seq<u8>)
    requires
        offset <= max_length,
    ensures
        ({
            let (cx2, now, p) = bounded_write(cx, max_length, offset, buffer);
            &&& offset <= now <= max_length
            &&& now - offset <= buffer.len()
            &&& cx2.wire == cx.wire + buffer.take(now - offset)
            &&& p matches Poll::Ready(Ok(n)) ==> now == offset + n
            &&& !(p matches Poll::Ready(Ok(_))) ==> now == offset
            &&& p == Poll::Ready(Err::<usize, _>(BodyError::BodyOverflow(max_length))) <==> offset
                + buffer.len() > max_length
        }),
{
    let (cx2, now, p) = bounded_write(cx, max_length, offset, buffer);
    assert(buffer.take(0) =~= Seq::empty());
    assert(cx2.wire =~= cx.wire + buffer.take(now - offset));
}

/// A put into a body comes to what it comes to on the wire: it waits where that waits, and
/// fails exactly where that fails, with that failure.
pub proof fn put_failures_are_those_of_the_wire(cx: Cx, data: Seq<u8>, written: nat)
    requires
        written <= data.len() <= usize::MAX,
    ensures
        ({
            let (cx2, now, p) = put_step(cx, data, written);
            &&& written == data.len() ==> cx2 == cx && p == Poll::Ready(Ok::<_, BodyError>(()))
            &&& written < data.len() ==> cx2.write is None && (match cx.write {
                None => now == written && p is Pending,
                Some(Err(e)) => now == written && p == Poll::Ready(
                    Err::<(), _>(BodyError::BodyWriteError(WriteFailure::Io(e))),
                ),
                Some(Ok(0)) => now == written && p == Poll::Ready(
                    Err::<(), _>(BodyError::BodyWriteError(WriteFailure::WriteZero)),
                ),
                Some(Ok(n)) => if written + n >= data.len() {
                    now == data.len() && p == Poll::Ready(Ok::<_, BodyError>(()))
                } else {
                    now == written + n && p is Pending
                },
            })
        }),
{
    crate::transport::puts_go_on_where_they_were_left(cx, data, written);
}

/// A flush is done exactly where the transport has done it; it is never undone, puts nothing
/// on the wire, and fails with the failure of the transport.
pub proof fn flushes_are_those_of_the_wire(cx: Cx, flushed: bool)
    ensures
        ({
            let (cx2, now, p) = flush_step(cx, flushed);
            &&& cx2.flush is None
            &&& cx2.read == cx.read && cx2.write == cx.write && cx2.wire == cx.wire
            &&& match cx.flush {
                None => now == flushed && p is Pending && cx2.wants
                    == crate::transport::WantsView::Flush,
                Some(Ok(())) => now && p == Poll::Ready(Ok::<_, BodyError>(())) && cx2.wants
                    == cx.wants,
                Some(Err(e)) => now == flushed && p == Poll::Ready(
                    Err::<(), _>(BodyError::BodyWriteError(WriteFailure::Io(e))),
                ) && cx2.wants == cx.wants,
            }
        }),
{
}

/// A write that fits into a body comes to what the transport makes of it, and fails with its
/// failure; one that does not fit touches nothing.
pub proof fn writes_that_fit_are_those_of_the_wire(
    cx: Cx,
    max_length: u64,
    offset: u64,
    buffer: Seq<u8>,
)
    requires
        offset <= max_length,
        buffer.len() <= usize::MAX,
    ensures
        ({
            let (cx2, now, p) = bounded_write(cx, max_length, offset, buffer);
            &&& offset + buffer.len() > max_length ==> cx2 == cx && now == offset && p
                == Poll::Ready(Err::<usize, _>(BodyError::BodyOverflow(max_length)))
            &&& offset + buffer.len() <= max_length ==> (match cx.write {
                None => p is Pending && cx2.wants == crate::transport::WantsView::Write(buffer),
                Some(Err(e)) => p == Poll::Ready(
                    Err::<usize, _>(BodyError::BodyWriteError(WriteFailure::Io(e))),
                ),
                Some(Ok(n)) => p == Poll::Ready(
                    Ok::<_, BodyError>(
                        if n <= buffer.len() {
                            n
                        } else {
                            buffer.len() as usize
                        },
                    ),
                ),
            })
        }),
{
}

/// A write of all of a buffer keeps its account: what is on the wire and what is still to be
/// put there make up the same bytes as before, and the body grows by what was put there,
/// never beyond its length. It is refused exactly where what is left of the buffer does not
/// fit, and then nothing is put on the wire; it is done exactly where nothing is left.
pub proof fn bounded_put_keeps_bytes(
    cx: Cx,
    max_length: u64,
    offset: u64,
    buffer: Seq<u8>,
    written: nat,
)
    requires
        offset <= max_length,
        written <= buffer.len() <= usize::MAX,
    ensures
        ({
            let (cx2, end, now, p) = bounded_put(cx, max_length, offset, buffer, written);
            &&& written <= now <= buffer.len()
            &&& cx2.wire + buffer.skip(now as int) == cx.wire + buffer.skip(written as int)
            &&& end - offset == now - written
            &&& end <= max_length
            &&& (p matches Poll::Ready(Ok(()))) <==> now == buffer.len()
            &&& p == Poll::Ready(Err::<(), _>(BodyError::BodyOverflow(max_length))) <==> offset + (
            buffer.len() - written) > max_length
            &&& offset + (buffer.len() - written) > max_length ==> cx2 == cx && now == written
            &&& offset + (buffer.len() - written) <= max_length ==> p == put_step(
                cx,
                buffer,
                written,
            ).2 && cx2 == put_step(cx, buffer, written).0 && now == put_step(cx, buffer, written).1
            &&& cx2.read == cx.read && cx2.flush == cx.flush
        }),
{
    put_keeps_bytes(cx, buffer, written);
    put_failures_are_those_of_the_wire(cx, buffer, written);
}

} // verus!
