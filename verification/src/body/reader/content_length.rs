//! Reader for bodies whose length a `content-length` header states.
use bytes::Bytes;
use vstd::prelude::*;

use crate::body::error::{BodyError, BodyResult};
use crate::body::reader::{
    data_view, ensure_step, given, poll_ensure, read_failed, smaller, unread, ReadStep, DRAIN_SIZE,
};
use crate::http_message::message::ParseSlots;
use crate::io_buffer::{Buffered, BytesReader};
use crate::octets::octets;
use crate::transport::{Context, Cx, Poll};

verus! {

/// A reader of a body of known length.
#[derive(Debug)]
pub struct ContentLengthBodyReader<I> {
    /// the total body length specified by the content-length header.
    length: u64,
    /// the amount of the body already read
    offset: u64,
    /// the io associated with this body read
    reader: BytesReader<I>,
    /// These are not ever used while processing a content-length body. They
    /// exist here in order to allow higher level calls to reuse the slot
    /// allocation.
    parse_slots: ParseSlots,
}

/// The model of a [`ContentLengthBodyReader`].
#[verifier::ext_equal]
pub struct ContentLengthView<I> {
    pub length: u64,
    pub offset: u64,
    pub reader: Buffered<I>,
    pub slots: nat,
}

impl<I> ContentLengthView<I> {
    /// How much of the body is still to be read.
    pub open spec fn remaining(self) -> nat {
        if self.offset <= self.length {
            (self.length - self.offset) as nat
        } else {
            0
        }
    }

    /// A read of at most `max_len` bytes of the body: what has come, as far as
    /// the body goes; `None` once the body is over.
    pub open spec fn poll_read(self, cx: Cx, max_len: nat) -> (
        Self,
        Cx,
        Poll<BodyResult<Option<Seq<u8>>>>,
    ) {
        if self.remaining() == 0 {
            (self, cx, Poll::Ready(Ok(None)))
        } else {
            let (reader, cx, p) = ensure_step(self.reader, cx);
            match p {
                Poll::Pending => (ContentLengthView { reader, ..self }, cx, Poll::Pending),
                Poll::Ready(Err(e)) => (
                    ContentLengthView { reader, ..self },
                    cx,
                    Poll::Ready(Err(e)),
                ),
                Poll::Ready(Ok(())) => {
                    let at = smaller(smaller(self.remaining(), reader.buf.len()), max_len);
                    (
                        ContentLengthView {
                            offset: (self.offset + at) as u64,
                            reader: reader.skip(at as int),
                            ..self
                        },
                        cx,
                        Poll::Ready(Ok(Some(reader.buf.take(at as int)))),
                    )
                },
            }
        }
    }

    /// What is unread, and what is still to come behind it, is the rest `body` of
    /// the body, and `rest` behind it.
    pub open spec fn holds(self, cx: Cx, coming: Seq<u8>, body: Seq<u8>, rest: Seq<u8>) -> bool {
        &&& self.offset <= self.length
        &&& self.remaining() == body.len()
        &&& unread(self.reader, cx) + coming == body + rest
    }

    /// Reads, at most `fuel` of them, until one gives no data: `None` where
    /// that takes more.
    pub open spec fn poll_drain(self, cx: Cx, fuel: nat) -> Option<
        (Self, Cx, Poll<BodyResult<()>>),
    >
        decreases fuel,
    {
        if fuel == 0 {
            None
        } else {
            let (next, cx, p) = self.poll_read(cx, DRAIN_SIZE as nat);
            match p {
                Poll::Pending => Some((next, cx, Poll::Pending)),
                Poll::Ready(Err(e)) => Some((next, cx, Poll::Ready(Err(e)))),
                Poll::Ready(Ok(None)) => Some((next, cx, Poll::Ready(Ok(())))),
                Poll::Ready(Ok(Some(_))) => next.poll_drain(cx, (fuel - 1) as nat),
            }
        }
    }
}

/// A drain of any body that can come to the reader ends behind it: what follows is
/// unread. The drain is pending only while bytes are still to come, and it fails only
/// where the transport does before they have come.
pub open spec fn drains_any_length<I, E>(
    s: ContentLengthView<I>,
    cx: Cx,
    t: ContentLengthView<I>,
    cx2: Cx,
    r: Poll<Result<(), E>>,
) -> bool {
    forall|coming: Seq<u8>, body: Seq<u8>, rest: Seq<u8>|
        #[trigger] s.holds(cx, coming, body, rest) ==> match r {
            Poll::Ready(Ok(_)) => t.holds(cx2, coming, Seq::empty(), rest),
            Poll::Pending => coming.len() > 0 && exists|left: Seq<u8>| #[trigger]
                t.holds(cx2, coming, left, rest),
            Poll::Ready(Err(_)) => coming.len() > 0 && read_failed(cx),
        }
}

impl<I> View for ContentLengthBodyReader<I> {
    type V = ContentLengthView<I>;

    closed spec fn view(&self) -> ContentLengthView<I> {
        ContentLengthView {
            length: self.length,
            offset: self.offset,
            reader: self.reader@,
            slots: self.parse_slots@,
        }
    }
}

impl<I> ContentLengthBodyReader<I> {
    /// A reader at the start of a body of `length` bytes.
    pub fn new(length: u64, reader: BytesReader<I>, parse_slots: ParseSlots) -> (r: Self)
        ensures
            r@ == (ContentLengthView { length, offset: 0, reader: reader@, slots: parse_slots@ }),
    {
        Self { length, offset: 0, reader, parse_slots }
    }

    /// The length of the body.
    pub fn content_length(&self) -> (n: u64)
        ensures
            n == self@.length,
    {
        self.length
    }

    /// Whether the body has been read to its end.
    pub fn drained(&self) -> (r: bool)
        ensures
            r == (self@.remaining() == 0),
    {
        self.remaining() == 0
    }

    fn remaining(&self) -> (n: u64)
        ensures
            n == self@.remaining(),
    {
        if self.offset <= self.length {
            self.length - self.offset
        } else {
            0
        }
    }

    /// Read at most `max_len` bytes of the body; `None` at its end.
    pub fn poll_read(&mut self, cx: &mut Context, max_len: usize) -> (r: Poll<
        BodyResult<Option<Bytes>>,
    >)
        ensures
            (final(self)@, final(cx)@, data_view(r)) == old(self)@.poll_read(
                old(cx)@,
                max_len as nat,
            ),
    {
        let remaining: u64 = self.remaining();
        if remaining == 0 {
            return Poll::Ready(Ok(None));
        }
        match poll_ensure(cx, &mut self.reader) {
            Poll::Pending => return Poll::Pending,
            Poll::Ready(Err(e)) => return Poll::Ready(Err(e)),
            Poll::Ready(Ok(())) => {},
        }
        let mut at: usize = self.reader.len();
        if max_len < at {
            at = max_len;
        }
        if remaining < at as u64 {
            at = remaining as usize;
        }
        self.offset = self.offset + at as u64;
        Poll::Ready(Ok(Some(self.reader.split_to(at))))
    }

    /// Read the body to its end, and drop it.
    pub fn poll_drain(&mut self, cx: &mut Context) -> (r: Poll<BodyResult<()>>)
        ensures
            exists|n: nat| #[trigger]
                old(self)@.poll_drain(old(cx)@, n) == Some((final(self)@, final(cx)@, r)),
            (r matches Poll::Ready(Ok(()))) ==> final(self)@.remaining() == 0,
            drains_any_length(old(self)@, old(cx)@, final(self)@, final(cx)@, r),
    {
        let ghost mut k: nat = 0;
        loop
            invariant
                cx@.read == old(cx)@.read || cx@.read is None,
                forall|coming: Seq<u8>, body: Seq<u8>, rest: Seq<u8>|
                    #[trigger] old(self)@.holds(old(cx)@, coming, body, rest) ==> exists|
                        left: Seq<u8>,
                    | #[trigger] self@.holds(cx@, coming, left, rest),
                forall|n: nat| #[trigger]
                    self@.poll_drain(cx@, n) == old(self)@.poll_drain(old(cx)@, n + k),
            decreases self@.remaining(),
        {
            let ghost before = self@;
            let ghost cx0 = cx@;
            let read = self.poll_read(cx, DRAIN_SIZE);
            proof {
                assert(before.poll_drain(cx0, 1) == old(self)@.poll_drain(old(cx)@, 1 + k));
                reveal_with_fuel(ContentLengthView::poll_drain, 2);
                assert forall|coming: Seq<u8>, body: Seq<u8>, rest: Seq<u8>| #[trigger]
                    before.holds(cx0, coming, body, rest) implies match data_view(read) {
                    Poll::Ready(Ok(None)) => self@.holds(cx@, coming, Seq::empty(), rest),
                    Poll::Ready(Ok(Some(data))) => self@.holds(
                        cx@,
                        coming,
                        body.skip(data.len() as int),
                        rest,
                    ),
                    Poll::Pending => coming.len() > 0 && self@.holds(cx@, coming, body, rest),
                    Poll::Ready(Err(_)) => coming.len() > 0 && read_failed(cx0),
                } by {
                    content_length_read_gives_the_body(
                        before,
                        cx0,
                        DRAIN_SIZE as nat,
                        coming,
                        body,
                        rest,
                    );
                    if body.len() == 0 {
                        assert(body =~= Seq::empty());
                    }
                }
            }
            match read {
                Poll::Pending => return Poll::Pending,
                Poll::Ready(Err(e)) => return Poll::Ready(Err(e)),
                Poll::Ready(Ok(None)) => return Poll::Ready(Ok(())),
                Poll::Ready(Ok(Some(_))) => {
                    proof {
                        assert forall|n: nat| #[trigger]
                            self@.poll_drain(cx@, n) == old(self)@.poll_drain(
                            old(cx)@,
                            n + (k + 1),
                        ) by {
                            assert(before.poll_drain(cx0, n + 1) == old(self)@.poll_drain(
                                old(cx)@,
                                n + 1 + k,
                            ));
                        }
                        k = k + 1;
                    }
                },
            }
        }
    }

    /// Give back the connection. The body has to have been read to its end.
    pub fn finish(self) -> (r: (BytesReader<I>, ParseSlots))
        requires
            self@.remaining() == 0,
        ensures
            r.0@ == self@.reader,
            r.1@ == self@.slots,
    {
        let Self { length: _, offset: _, reader, parse_slots } = self;
        (reader, parse_slots)
    }
}

/// A read hands out the next bytes of what has come, takes no more than asked,
/// and never goes beyond the length of the body.
pub proof fn content_length_read_is_exact<I>(s: ContentLengthView<I>, cx: Cx, max_len: nat)
    requires
        s.offset <= s.length,
    ensures
        ({
            let (t, cx2, p) = s.poll_read(cx, max_len);
            &&& t.length == s.length
            &&& t.offset <= t.length
            &&& t.reader.io == s.reader.io
            &&& t.slots == s.slots
            &&& p matches Poll::Ready(Ok(Some(data))) ==> {
                &&& data.len() <= max_len
                &&& t.offset == s.offset + data.len()
                &&& unread(s.reader, cx) =~= data + unread(t.reader, cx2)
                &&& max_len > 0 ==> data.len() > 0
            }
            &&& !(p matches Poll::Ready(Ok(Some(_)))) ==> unread(s.reader, cx) =~= unread(
                t.reader,
                cx2,
            )
            &&& (p matches Poll::Ready(Ok(None))) <==> s.remaining() == 0
        }),
{
}

/// A read gives the next bytes of a body, however it comes in; or, where there are
/// none, the end of the body. It is pending only while bytes are still to come, and it
/// fails only where the transport does before they have come.
pub proof fn content_length_read_gives_the_body<I>(
    s: ContentLengthView<I>,
    cx: Cx,
    max_len: nat,
    coming: Seq<u8>,
    body: Seq<u8>,
    rest: Seq<u8>,
)
    requires
        s.holds(cx, coming, body, rest),
    ensures
        ({
            let (t, cx2, p) = s.poll_read(cx, max_len);
            &&& cx2.read == cx.read || cx2.read is None
            &&& match p {
                Poll::Ready(Ok(Some(data))) => {
                    &&& data.len() <= max_len
                    &&& max_len > 0 ==> data.len() > 0
                    &&& data.len() <= body.len()
                    &&& data == body.take(data.len() as int)
                    &&& t.holds(cx2, coming, body.skip(data.len() as int), rest)
                },
                Poll::Ready(Ok(None)) => body.len() == 0 && t.holds(cx2, coming, body, rest),
                Poll::Pending => coming.len() > 0 && cx2.read is None && t.holds(
                    cx2,
                    coming,
                    body,
                    rest,
                ),
                Poll::Ready(Err(_)) => coming.len() > 0 && read_failed(cx),
            }
        }),
{
    let (t, cx2, p) = s.poll_read(cx, max_len);
    content_length_read_is_exact(s, cx, max_len);
    let all = body + rest;
    if let Poll::Ready(Ok(Some(data))) = p {
        let n = data.len() as int;
        assert(data =~= all.take(n));
        assert(data =~= body.take(n));
        assert(unread(t.reader, cx2) + coming =~= all.skip(n));
        assert(all.skip(n) =~= body.skip(n) + rest);
    } else {
        assert(unread(t.reader, cx2) + coming == all);
    }
}

impl<I> ContentLengthView<I> {
    /// The reader after several reads.
    pub open spec fn after(self, steps: Seq<ReadStep>) -> Self
        decreases steps.len(),
    {
        if steps.len() == 0 {
            self
        } else {
            self.after(steps.drop_last()).poll_read(steps.last().cx, steps.last().max_len).0
        }
    }

    /// What several reads have given, one after the other.
    pub open spec fn read_by(self, steps: Seq<ReadStep>) -> Seq<u8>
        decreases steps.len(),
    {
        if steps.len() == 0 {
            Seq::empty()
        } else {
            self.read_by(steps.drop_last()) + given(
                self.after(steps.drop_last()).poll_read(
                    steps.last().cx,
                    steps.last().max_len,
                ).2,
            )
        }
    }

    /// The reads follow each other: the transport does not fail, and between two of
    /// them bytes only come in, in order, of those that were still to come.
    pub open spec fn follow(self, steps: Seq<ReadStep>) -> bool
        decreases steps.len(),
    {
        steps.len() > 0 ==> {
            let before = steps.drop_last();
            let s = self.after(before);
            let last = steps.last();
            &&& self.follow(before)
            &&& !read_failed(last.cx)
            &&& before.len() > 0 ==> {
                let (t, cx2, _) = self.after(before.drop_last()).poll_read(
                    before.last().cx,
                    before.last().max_len,
                );
                unread(s.reader, last.cx) + last.coming == unread(t.reader, cx2)
                    + before.last().coming
            }
        }
    }
}

/// Over all reads of a body, however it comes in: what they have given is the front of
/// it, and no read fails; and once one has told the end of the body, they have given
/// all of it, and what follows is unread.
pub proof fn length_reads_give_the_body<I>(
    s: ContentLengthView<I>,
    steps: Seq<ReadStep>,
    body: Seq<u8>,
    rest: Seq<u8>,
)
    requires
        steps.len() > 0,
        s.follow(steps),
        s.holds(steps[0].cx, steps[0].coming, body, rest),
    ensures
        ({
            let last = steps.last();
            let (t, cx2, p) = s.after(steps.drop_last()).poll_read(last.cx, last.max_len);
            let data = s.read_by(steps);
            &&& !(p matches Poll::Ready(Err(_)))
            &&& data.len() <= body.len()
            &&& data == body.take(data.len() as int)
            &&& t.holds(cx2, last.coming, body.skip(data.len() as int), rest)
            &&& (p matches Poll::Ready(Ok(None))) ==> {
                &&& data == body
                &&& unread(t.reader, cx2) + last.coming == rest
            }
        }),
    decreases steps.len(),
{
    let before = steps.drop_last();
    let last = steps.last();
    let s1 = s.after(before);
    let seen = s.read_by(before);
    let left = body.skip(seen.len() as int);
    if before.len() > 0 {
        assert(before[0] == steps[0]);
        length_reads_give_the_body(s, before, body, rest);
    } else {
        assert(left =~= body);
        assert(seen =~= body.take(0));
    }
    assert(s1.holds(last.cx, last.coming, left, rest));
    content_length_read_gives_the_body(s1, last.cx, last.max_len, last.coming, left, rest);
    let (t, cx2, p) = s1.poll_read(last.cx, last.max_len);
    let n = given(p).len() as int;
    let data = s.read_by(steps);
    assert(data =~= seen + given(p));
    if p matches Poll::Ready(Ok(Some(_))) {
        assert(left.skip(n) =~= body.skip(seen.len() + n));
        assert(data =~= body.take(seen.len() + n));
    } else {
        assert(data =~= seen);
        if p matches Poll::Ready(Ok(None)) {
            assert(body.take(seen.len() as int) =~= body);
            assert(left + rest =~= rest);
        }
    }
}

/// A read gives as much as there is, as was asked for, and as the body has left, whichever is
/// least. It waits exactly where nothing has come and the body is not over, and fails exactly
/// where the transport did, or where the stream ended before the body. The end of the body is
/// told once all of it has been given, and without a look at the transport.
pub proof fn reads_give_what_there_is<I>(s: ContentLengthView<I>, cx: Cx, max_len: nat)
    requires
        s.offset <= s.length,
    ensures
        ({
            let (t, cx2, p) = s.poll_read(cx, max_len);
            let left = s.length - s.offset;
            let ready = if s.reader.buf.len() > 0 {
                s.reader.buf
            } else {
                match cx.read {
                    Some(Ok(data)) => data,
                    _ => Seq::empty(),
                }
            };
            &&& cx2.write == cx.write && cx2.flush == cx.flush && cx2.wire == cx.wire
            &&& left == 0 ==> t == s && cx2 == cx && (p matches Poll::Ready(Ok(None)))
            &&& left > 0 && ready.len() > 0 ==> {
                &&& p matches Poll::Ready(Ok(Some(data))) && {
                    let n = data.len();
                    &&& n <= max_len && n <= left && n <= ready.len()
                    &&& n == max_len || n == left || n == ready.len()
                    &&& ready == data + t.reader.buf
                    &&& t.offset == s.offset + n
                }
                &&& s.reader.buf.len() > 0 ==> cx2 == cx
            }
            &&& left > 0 && ready.len() == 0 ==> t.offset == s.offset && t.reader.buf.len() == 0 && (
            match cx.read {
                None => p is Pending && cx2.wants == crate::transport::WantsView::Read(
                    crate::body::reader::IO_FILL_LEN as nat,
                ),
                Some(Err(e)) => p matches Poll::Ready(
                    Err(crate::body::error::BodyError::BodyReadError(f)),
                ) && f == e,
                Some(Ok(_)) => p matches Poll::Ready(
                    Err(crate::body::error::BodyError::UnexpectedEOF),
                ),
            })
        }),
{
    crate::body::reader::bytes_are_ensured(s.reader, cx);
    let (reader, cx1, q) = ensure_step(s.reader, cx);
    let (t, cx2, p) = s.poll_read(cx, max_len);
    if let Poll::Ready(Ok(Some(data))) = p {
        assert(reader.buf =~= data + t.reader.buf);
    }
}

/// A drain of a body of stated length passes over just what is left of the body, no byte
/// less and no byte more, and is done exactly where all of that has come.
pub proof fn drains_pass_over_what_is_left<I>(
    b: &mut ContentLengthBodyReader<I>,
    cx: &mut Context,
    coming: Seq<u8>,
    r: Poll<BodyResult<()>>,
)
    requires
        call_ensures(ContentLengthBodyReader::<I>::poll_drain, (b, cx), r),
        old(b)@.offset <= old(b)@.length,
        (unread(old(b)@.reader, old(cx)@) + coming).len() >= old(b)@.length - old(b)@.offset,
    ensures
        ({
            let left = old(b)@.length - old(b)@.offset;
            match r {
                Poll::Ready(Ok(_)) => {
                    &&& final(b)@.offset == final(b)@.length
                    &&& unread(final(b)@.reader, final(cx)@) + coming == (unread(
                        old(b)@.reader,
                        old(cx)@,
                    ) + coming).skip(left)
                },
                Poll::Pending => coming.len() > 0 && final(b)@.offset < final(b)@.length,
                Poll::Ready(Err(_)) => coming.len() > 0 && read_failed(old(cx)@),
            }
        }),
{
    let left = old(b)@.length - old(b)@.offset;
    let all = unread(old(b)@.reader, old(cx)@) + coming;
    assert(all =~= all.take(left) + all.skip(left));
    assert(old(b)@.holds(old(cx)@, coming, all.take(left), all.skip(left)));
    if r is Ready && r->Ready_0 is Ok {
        assert(Seq::<u8>::empty() + all.skip(left) =~= all.skip(left));
    }
    if r is Pending {
        let n = choose|n: nat| #[trigger]
            old(b)@.poll_drain(old(cx)@, n) == Some((final(b)@, final(cx)@, r));
        lemma_pending_drains_are_not_done(old(b)@, old(cx)@, n);
    }
}

/// A drain that waits has not come to the end of the body.
proof fn lemma_pending_drains_are_not_done<I>(s: ContentLengthView<I>, cx: Cx, fuel: nat)
    requires
        s.offset <= s.length,
    ensures
        s.poll_drain(cx, fuel) matches Some((t, _, p)) ==> (p is Pending ==> t.offset < t.length),
    decreases fuel,
{
    if fuel > 0 {
        content_length_read_is_exact(s, cx, DRAIN_SIZE as nat);
        reads_give_what_there_is(s, cx, DRAIN_SIZE as nat);
        let (t, cx2, p) = s.poll_read(cx, DRAIN_SIZE as nat);
        if p is Ready && p->Ready_0 is Ok && p->Ready_0->Ok_0 is Some {
            lemma_pending_drains_are_not_done(t, cx2, (fuel - 1) as nat);
        }
    }
}

/// A read of a body of stated length gives the next bytes that came, as many as are asked for
/// and are there, and not beyond the end of the body; and none exactly at that end.
pub proof fn reads_give_the_next_bytes<I>(
    b: &mut ContentLengthBodyReader<I>,
    cx: &mut Context,
    max_len: usize,
    r: Poll<BodyResult<Option<Bytes>>>,
)
    requires
        call_ensures(ContentLengthBodyReader::<I>::poll_read, (b, cx, max_len), r),
        old(b)@.offset <= old(b)@.length,
        max_len > 0,
    ensures
        ({
            let left = old(b)@.length - old(b)@.offset;
            let came = unread(old(b)@.reader, old(cx)@);
            match r {
                Poll::Ready(Ok(Some(data))) => {
                    let n = octets(data).len();
                    &&& 0 < n <= left && n <= max_len
                    &&& came == octets(data) + unread(final(b)@.reader, final(cx)@)
                    &&& final(b)@.offset == old(b)@.offset + n
                    &&& n == left || n == max_len || final(b)@.reader.buf.len() == 0
                },
                Poll::Ready(Ok(None)) => left == 0 && final(b)@ == old(b)@ && final(cx)@
                    == old(cx)@,
                Poll::Pending => left > 0 && came.len() == 0 && old(cx)@.read is None,
                Poll::Ready(Err(e)) => {
                    &&& left > 0 && came.len() == 0
                    &&& old(cx)@.read matches Some(Ok(_)) ==> e == BodyError::UnexpectedEOF
                    &&& old(cx)@.read matches Some(Err(f)) ==> e == BodyError::BodyReadError(f)
                    &&& old(cx)@.read is Some
                },
            }
        }),
{
    reads_give_what_there_is(old(b)@, old(cx)@, max_len as nat);
    content_length_read_is_exact(old(b)@, old(cx)@, max_len as nat);
}

} // verus!
