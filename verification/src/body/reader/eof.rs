//! Reader for bodies that end with the connection.
use bytes::Bytes;
use vstd::prelude::*;

use crate::body::error::{BodyError, BodyResult};
use crate::body::reader::{data_view, given, smaller, unread, ReadStep};
use crate::http_message::message::ParseSlots;
use crate::io_buffer::{Buffered, BytesReader};
use crate::octets::octets;
use crate::transport::{Context, Cx, Poll};

verus! {

/// Body reader for responses with no framing headers where the body is
/// terminated by connection close (RFC 9112 section 6.3 rule 8).
#[derive(Debug)]
pub struct EofBodyReader<I> {
    reader: BytesReader<I>,
    parse_slots: ParseSlots,
    eof: bool,
}

/// The model of an [`EofBodyReader`].
#[verifier::ext_equal]
pub struct EofView<I> {
    pub reader: Buffered<I>,
    pub slots: nat,
    pub eof: bool,
}

impl<I> EofView<I> {
    /// At most `max_len` of the bytes in the buffer.
    pub open spec fn take(self, cx: Cx, max_len: nat) -> (
        Self,
        Cx,
        Poll<BodyResult<Option<Seq<u8>>>>,
    ) {
        let at = smaller(self.reader.buf.len(), max_len) as int;
        (
            EofView { reader: self.reader.skip(at), ..self },
            cx,
            Poll::Ready(Ok(Some(self.reader.buf.take(at)))),
        )
    }

    /// A read of at most `max_len` bytes: what is in the buffer comes first;
    /// where it is empty and no byte comes, the body is over. Where none is asked
    /// for, none comes, and the transport is not asked.
    pub open spec fn poll_read(self, cx: Cx, max_len: nat) -> (
        Self,
        Cx,
        Poll<BodyResult<Option<Seq<u8>>>>,
    ) {
        if self.eof {
            (self, cx, Poll::Ready(Ok(None)))
        } else if self.reader.buf.len() > 0 {
            self.take(cx, max_len)
        } else {
            let (reader, cx, p) = if max_len == 0 {
                (self.reader, cx, Poll::Ready(Ok(0)))
            } else {
                self.reader.poll_read(cx, max_len)
            };
            let next = EofView { reader, ..self };
            match p {
                Poll::Pending => (next, cx, Poll::Pending),
                Poll::Ready(Err(e)) => (next, cx, Poll::Ready(Err(BodyError::BodyReadError(e)))),
                Poll::Ready(Ok(n)) => if n == 0 {
                    (EofView { eof: true, ..next }, cx, Poll::Ready(Ok(None)))
                } else {
                    next.take(cx, max_len)
                },
            }
        }
    }
}

impl<I> View for EofBodyReader<I> {
    type V = EofView<I>;

    closed spec fn view(&self) -> EofView<I> {
        EofView { reader: self.reader@, slots: self.parse_slots@, eof: self.eof }
    }
}

impl<I> EofBodyReader<I> {
    /// A reader at the start of a body.
    pub fn new(reader: BytesReader<I>, parse_slots: ParseSlots) -> (r: Self)
        ensures
            r@ == (EofView { reader: reader@, slots: parse_slots@, eof: false }),
    {
        Self { reader, parse_slots, eof: false }
    }

    /// Read at most `max_len` bytes of the body; `None` at its end. With an empty
    /// buffer, a read of no bytes cannot be told from the end of the stream.
    pub fn poll_read(&mut self, cx: &mut Context, max_len: usize) -> (r: Poll<
        BodyResult<Option<Bytes>>,
    >)
        ensures
            (final(self)@, final(cx)@, data_view(r)) == old(self)@.poll_read(
                old(cx)@,
                max_len as nat,
            ),
    {
        if self.eof {
            return Poll::Ready(Ok(None));
        }
        // Return already-buffered data first.
        if self.reader.is_empty() {
            // Try to read more; a zero return means the connection was closed.
            let read = if max_len == 0 {
                Poll::Ready(Ok(0))
            } else {
                self.reader.poll_read(cx, max_len)
            };
            match read {
                Poll::Pending => return Poll::Pending,
                Poll::Ready(Err(e)) => return Poll::Ready(Err(BodyError::BodyReadError(e))),
                Poll::Ready(Ok(n)) => {
                    if n == 0 {
                        self.eof = true;
                        return Poll::Ready(Ok(None));
                    }
                },
            }
        }
        let len: usize = self.reader.len();
        let at: usize = if len <= max_len {
            len
        } else {
            max_len
        };
        Poll::Ready(Ok(Some(self.reader.split_to(at))))
    }

    /// Whether the end of the body has been seen.
    pub fn drained(&self) -> (r: bool)
        ensures
            r == self@.eof,
    {
        self.eof
    }

    /// There isn't any reason to drain an EOF reader because draining discards
    /// the body, and we only find the end of the body when the remote end
    /// closes the connection. For this reason, draining discards the
    /// connection, and returns the internal [`ParseSlots`] so they can be
    /// reused.
    pub fn drain(self) -> (r: ParseSlots)
        ensures
            r@ == self@.slots,
    {
        let Self { reader: _, parse_slots, eof: _ } = self;
        parse_slots
    }
}

/// Once a read has told the end of the body, every further read does.
pub proof fn eof_end_is_final<I>(s: EofView<I>, cx: Cx, max_len: nat, cx_later: Cx, later: nat)
    requires
        s.poll_read(cx, max_len).2 == Poll::Ready(Ok::<Option<Seq<u8>>, BodyError>(None)),
    ensures
        ({
            let t = s.poll_read(cx, max_len).0;
            t.poll_read(cx_later, later) == (
                t,
                cx_later,
                Poll::Ready(Ok::<Option<Seq<u8>>, BodyError>(None)),
            )
        }),
{
}

/// The stream has ended: the outcome of a read says so.
pub open spec fn stream_ended(cx: Cx) -> bool {
    cx.read matches Some(Ok(data)) && data.len() == 0
}

impl<I> EofView<I> {
    /// What is unread, and what is still to come behind it, is the rest `body` of the
    /// body; and the stream ends only once all of it has come.
    pub open spec fn holds(self, cx: Cx, coming: Seq<u8>, body: Seq<u8>) -> bool {
        &&& self.eof ==> self.reader.buf.len() == 0 && body.len() == 0
        &&& unread(self.reader, cx) + coming == body
        &&& stream_ended(cx) ==> coming.len() == 0
    }

    /// The reader after several reads.
    pub open spec fn after(self, steps: Seq<ReadStep>) -> Self
        decreases steps.len(),
    {
        if steps.len() == 0 {
            self
        } else {
            self.after(steps.drop_last()).poll_read(steps.last().cx, steps.last().max_len).0
        }
    }

    /// What several reads have given, one after the other.
    pub open spec fn read_by(self, steps: Seq<ReadStep>) -> Seq<u8>
        decreases steps.len(),
    {
        if steps.len() == 0 {
            Seq::empty()
        } else {
            self.read_by(steps.drop_last()) + given(
                self.after(steps.drop_last()).poll_read(
                    steps.last().cx,
                    steps.last().max_len,
                ).2,
            )
        }
    }

    /// The reads follow each other: each asks for some bytes, the transport does not
    /// fail, and between two of them bytes only come in, in order, of those that were
    /// still to come; and the stream ends only once all of them have come.
    pub open spec fn follow(self, steps: Seq<ReadStep>) -> bool
        decreases steps.len(),
    {
        steps.len() > 0 ==> {
            let before = steps.drop_last();
            let s = self.after(before);
            let last = steps.last();
            &&& self.follow(before)
            &&& last.max_len > 0
            &&& !(last.cx.read matches Some(Err(_)))
            &&& stream_ended(last.cx) ==> last.coming.len() == 0
            &&& before.len() > 0 ==> {
                let (t, cx2, _) = self.after(before.drop_last()).poll_read(
                    before.last().cx,
                    before.last().max_len,
                );
                unread(s.reader, last.cx) + last.coming == unread(t.reader, cx2)
                    + before.last().coming
            }
        }
    }
}

/// A read of some bytes gives the next of a body, however it comes in; or, where there
/// are none and the stream has ended, the end of the body. It fails only where the
/// transport does.
pub proof fn eof_read_gives_the_body<I>(
    s: EofView<I>,
    cx: Cx,
    max_len: nat,
    coming: Seq<u8>,
    body: Seq<u8>,
)
    requires
        max_len > 0,
        s.holds(cx, coming, body),
    ensures
        ({
            let (t, cx2, p) = s.poll_read(cx, max_len);
            &&& cx2.read == cx.read || cx2.read is None
            &&& match p {
                Poll::Ready(Ok(Some(data))) => {
                    &&& 0 < data.len() <= max_len
                    &&& data.len() <= body.len()
                    &&& data == body.take(data.len() as int)
                    &&& t.holds(cx2, coming, body.skip(data.len() as int))
                },
                Poll::Ready(Ok(None)) => body.len() == 0 && t.eof && t.holds(cx2, coming, body),
                Poll::Pending => cx2.read is None && t.holds(cx2, coming, body),
                Poll::Ready(Err(_)) => cx.read matches Some(Err(_)),
            }
        }),
{
    let (t, cx2, p) = s.poll_read(cx, max_len);
    if let Poll::Ready(Ok(Some(data))) = p {
        let n = data.len() as int;
        assert(data =~= body.take(n));
        assert(unread(t.reader, cx2) + coming =~= body.skip(n));
    } else {
        assert(unread(t.reader, cx2) =~= unread(s.reader, cx));
    }
}

/// Over all reads of a body, however it comes in: what they have given is the front of
/// it, and no read fails; and once one has told the end of the body, they have given
/// all of it.
pub proof fn eof_reads_give_the_body<I>(s: EofView<I>, steps: Seq<ReadStep>, body: Seq<u8>)
    requires
        steps.len() > 0,
        s.follow(steps),
        s.holds(steps[0].cx, steps[0].coming, body),
    ensures
        ({
            let last = steps.last();
            let (t, cx2, p) = s.after(steps.drop_last()).poll_read(last.cx, last.max_len);
            let data = s.read_by(steps);
            &&& !(p matches Poll::Ready(Err(_)))
            &&& data.len() <= body.len()
            &&& data == body.take(data.len() as int)
            &&& t.holds(cx2, last.coming, body.skip(data.len() as int))
            &&& (p matches Poll::Ready(Ok(None))) ==> data == body && t.eof
        }),
    decreases steps.len(),
{
    let before = steps.drop_last();
    let last = steps.last();
    let s1 = s.after(before);
    let seen = s.read_by(before);
    let left = body.skip(seen.len() as int);
    if before.len() > 0 {
        assert(before[0] == steps[0]);
        eof_reads_give_the_body(s, before, body);
    } else {
        assert(left =~= body);
        assert(seen =~= body.take(0));
    }
    assert(s1.holds(last.cx, last.coming, left));
    eof_read_gives_the_body(s1, last.cx, last.max_len, last.coming, left);
    let (t, cx2, p) = s1.poll_read(last.cx, last.max_len);
    let n = given(p).len() as int;
    let data = s.read_by(steps);
    assert(data =~= seen + given(p));
    if p matches Poll::Ready(Ok(Some(_))) {
        assert(left.skip(n) =~= body.skip(seen.len() + n));
        assert(data =~= body.take(seen.len() + n));
    } else {
        assert(data =~= seen);
        if p matches Poll::Ready(Ok(None)) {
            assert(body.take(seen.len() as int) =~= body);
        }
    }
}

/// A read gives as much as there is and as was asked for, whichever is less. Where nothing is
/// there and some is asked for, it waits exactly where nothing has come, and fails exactly
/// where the transport did; the end of the stream is the end of the body, which is no failure.
pub proof fn reads_give_what_there_is<I>(s: EofView<I>, cx: Cx, max_len: nat)
    ensures
        ({
            let (t, cx2, p) = s.poll_read(cx, max_len);
            &&& t.slots == s.slots && t.reader.io == s.reader.io
            &&& cx2.write == cx.write && cx2.flush == cx.flush && cx2.wire == cx.wire
            &&& s.eof ==> t == s && cx2 == cx && (p matches Poll::Ready(Ok(None)))
            &&& !s.eof && s.reader.buf.len() > 0 ==> {
                &&& cx2 == cx
                &&& !t.eof
                &&& p matches Poll::Ready(Ok(Some(data))) && data.len() <= max_len && (data.len()
                    == max_len || t.reader.buf.len() == 0) && s.reader.buf == data + t.reader.buf
            }
            &&& !s.eof && s.reader.buf.len() == 0 && max_len > 0 ==> cx2.read is None && (
            match cx.read {
                None => p is Pending && t == s && cx2.wants == crate::transport::WantsView::Read(
                    max_len,
                ),
                Some(Err(e)) => !t.eof && (p matches Poll::Ready(Err(BodyError::BodyReadError(f)))
                    && f == e),
                Some(Ok(came)) => if came.len() == 0 {
                    t.eof && (p matches Poll::Ready(Ok(None)))
                } else {
                    &&& !t.eof
                    &&& p matches Poll::Ready(Ok(Some(data))) && data.len() <= max_len && (
                    data.len() == max_len || t.reader.buf.len() == 0) && came == data
                        + t.reader.buf
                },
            })
        }),
{
    let (t, cx2, p) = s.poll_read(cx, max_len);
    if let Poll::Ready(Ok(Some(data))) = p {
        if s.reader.buf.len() > 0 {
            assert(s.reader.buf =~= data + t.reader.buf);
        } else if let Some(Ok(came)) = cx.read {
            assert(s.reader.buf + came =~= came);
            assert(came =~= data + t.reader.buf);
        }
    } else {
        if let Some(Ok(came)) = cx.read {
            assert(s.reader.buf + came =~= came || s.reader.buf.len() > 0);
        }
        assert(s.reader.buf =~= s.reader.buf);
    }
}

/// A read of a body that ends with the connection gives the next bytes that came, as many as
/// are asked for and are there; it ends exactly where the stream does, and stays ended.
pub proof fn reads_give_the_next_bytes<I>(
    b: &mut EofBodyReader<I>,
    cx: &mut Context,
    max_len: usize,
    r: Poll<BodyResult<Option<Bytes>>>,
)
    requires
        call_ensures(EofBodyReader::<I>::poll_read, (b, cx, max_len), r),
        max_len > 0,
        !old(b)@.eof,
    ensures
        ({
            let came = unread(old(b)@.reader, old(cx)@);
            match r {
                Poll::Ready(Ok(Some(data))) => {
                    &&& 0 < octets(data).len() <= max_len
                    &&& came == octets(data) + unread(final(b)@.reader, final(cx)@)
                    &&& octets(data).len() == max_len || final(b)@.reader.buf.len() == 0
                    &&& !final(b)@.eof
                },
                Poll::Ready(Ok(None)) => {
                    &&& came.len() == 0
                    &&& old(cx)@.read matches Some(Ok(_))
                    &&& final(b)@.eof
                },
                Poll::Pending => came.len() == 0 && old(cx)@.read is None && !final(b)@.eof,
                Poll::Ready(Err(e)) => came.len() == 0 && !final(b)@.eof && (
                old(cx)@.read matches Some(Err(f)) && e == BodyError::BodyReadError(f)),
            }
        }),
{
    reads_give_what_there_is(old(b)@, old(cx)@, max_len as nat);
    if let Poll::Ready(Ok(Some(data))) = r {
        assert(unread(old(b)@.reader, old(cx)@) =~= octets(data) + unread(
            final(b)@.reader,
            final(cx)@,
        ));
    }
}

} // verus!
