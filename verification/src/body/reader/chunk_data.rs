//! Reader for the data of one chunk (RFC 9112 section 7.1).
use bytes::Bytes;
use vstd::prelude::*;

use crate::body::error::{BodyError, BodyResult};
use crate::body::reader::chunk_head::{ChunkHeadReader, ChunkHeadStateView, ChunkHeadView};
use crate::body::reader::{
    data_view, ensure_step, given, poll_ensure, smaller, unread, ReadStep, DRAIN_SIZE,
};
use crate::http_message::message::ParseSlots;
use crate::io_buffer::{Buffered, BytesReader};
use crate::octets::octets;
use crate::text::{crlf, CR, LF};
use crate::transport::{Context, Cx, Poll};

verus! {

/// The extensions attached to a chunk header, together with the rest of the
/// header.
#[derive(Debug)]
pub struct ChunkExtensions {
    chunk_header_bytes: Bytes,
}

impl View for ChunkExtensions {
    type V = Seq<u8>;

    closed spec fn view(&self) -> Seq<u8> {
        octets(self.chunk_header_bytes)
    }
}

impl ChunkExtensions {
    /// The extensions in these bytes of a chunk header.
    pub(crate) fn new(chunk_header_bytes: Bytes) -> (r: Self)
        ensures
            r@ == octets(chunk_header_bytes),
    {
        Self { chunk_header_bytes }
    }

    /// The bytes of the chunk header.
    pub fn header_bytes(&self) -> (b: &Bytes)
        ensures
            octets(*b) == self@,
    {
        &self.chunk_header_bytes
    }
}

/// Where in a chunk a reader is.
#[derive(Debug, Clone, Copy, PartialEq, Eq, Structural)]
pub enum ChunkBodyState {
    /// In the data.
    InBody,
    /// Behind the data; the footer starts with a carriage return.
    InFooterNeedCR,
    /// In the footer; a line feed ends it.
    InFooterNeedLF,
    /// Behind the footer.
    Done,
}

/// Positioned within a single chunk. Holds the chunk's declared size and any
/// extensions. Owns the IO for the duration of reading this chunk.
#[derive(Debug)]
pub struct ChunkDataReader<I> {
    reader: BytesReader<I>,
    parse_slots: ParseSlots,
    strict_trailers: bool,
    size: u64,
    extensions: ChunkExtensions,
    remaining: u64,
    state: ChunkBodyState,
}

/// The model of a [`ChunkDataReader`].
#[verifier::ext_equal]
pub struct ChunkDataView<I> {
    pub reader: Buffered<I>,
    pub slots: nat,
    pub strict: bool,
    pub size: u64,
    pub header: Seq<u8>,
    pub remaining: u64,
    pub state: ChunkBodyState,
}

impl<I> ChunkDataView<I> {
    /// The reader of the chunk header that follows the chunk.
    pub open spec fn finish(self) -> ChunkHeadView<I> {
        ChunkHeadView {
            reader: self.reader,
            slots: self.slots,
            strict: self.strict,
            state: ChunkHeadStateView::ReadingSize,
        }
    }

    /// The last byte of the footer.
    pub open spec fn poll_lf(self, cx: Cx) -> (Self, Cx, Poll<BodyResult<Option<Seq<u8>>>>) {
        let (reader, cx, p) = ensure_step(self.reader, cx);
        let now = ChunkDataView { reader, state: ChunkBodyState::InFooterNeedLF, ..self };
        match p {
            Poll::Pending => (now, cx, Poll::Pending),
            Poll::Ready(Err(e)) => (now, cx, Poll::Ready(Err(e))),
            Poll::Ready(Ok(())) => {
                let next = ChunkDataView { reader: reader.skip(1), ..now };
                if reader.buf[0] == LF {
                    (
                        ChunkDataView { state: ChunkBodyState::Done, ..next },
                        cx,
                        Poll::Ready(Ok(None)),
                    )
                } else {
                    (
                        next,
                        cx,
                        Poll::Ready(Err(BodyError::InvalidChunkFooter(LF, reader.buf[0]))),
                    )
                }
            },
        }
    }

    /// The footer.
    pub open spec fn poll_cr(self, cx: Cx) -> (Self, Cx, Poll<BodyResult<Option<Seq<u8>>>>) {
        let (reader, cx, p) = ensure_step(self.reader, cx);
        let now = ChunkDataView { reader, state: ChunkBodyState::InFooterNeedCR, ..self };
        match p {
            Poll::Pending => (now, cx, Poll::Pending),
            Poll::Ready(Err(e)) => (now, cx, Poll::Ready(Err(e))),
            Poll::Ready(Ok(())) => {
                let next = ChunkDataView { reader: reader.skip(1), ..now };
                if reader.buf[0] == CR {
                    next.poll_lf(cx)
                } else {
                    (
                        next,
                        cx,
                        Poll::Ready(Err(BodyError::InvalidChunkFooter(CR, reader.buf[0]))),
                    )
                }
            },
        }
    }

    /// A read of at most `max_len` bytes of the chunk: what has come, as far
    /// as the chunk goes; `None` once the chunk and its footer are consumed.
    #[verifier::opaque]
    pub open spec fn poll_read(self, cx: Cx, max_len: nat) -> (
        Self,
        Cx,
        Poll<BodyResult<Option<Seq<u8>>>>,
    ) {
        match self.state {
            ChunkBodyState::InBody => if self.remaining == 0 {
                self.poll_cr(cx)
            } else {
                let (reader, cx, p) = ensure_step(self.reader, cx);
                let now = ChunkDataView { reader, ..self };
                match p {
                    Poll::Pending => (now, cx, Poll::Pending),
                    Poll::Ready(Err(e)) => (now, cx, Poll::Ready(Err(e))),
                    Poll::Ready(Ok(())) => {
                        let at = smaller(
                            smaller(self.remaining as nat, reader.buf.len()),
                            max_len,
                        );
                        (
                            ChunkDataView {
                                reader: reader.skip(at as int),
                                remaining: (self.remaining - at) as u64,
                                ..now
                            },
                            cx,
                            Poll::Ready(Ok(Some(reader.buf.take(at as int)))),
                        )
                    },
                }
            },
            ChunkBodyState::InFooterNeedCR => self.poll_cr(cx),
            ChunkBodyState::InFooterNeedLF => self.poll_lf(cx),
            ChunkBodyState::Done => (self, cx, Poll::Ready(Ok(None))),
        }
    }

    /// Reads, at most `fuel` of them, until one gives no data: `None` where
    /// that takes more.
    pub open spec fn poll_drain(self, cx: Cx, fuel: nat) -> Option<
        (Self, Cx, Poll<BodyResult<()>>),
    >
        decreases fuel,
    {
        if fuel == 0 {
            None
        } else {
            let (next, cx, p) = self.poll_read(cx, DRAIN_SIZE as nat);
            match p {
                Poll::Pending => Some((next, cx, Poll::Pending)),
                Poll::Ready(Err(e)) => Some((next, cx, Poll::Ready(Err(e)))),
                Poll::Ready(Ok(None)) => Some((next, cx, Poll::Ready(Ok(())))),
                Poll::Ready(Ok(Some(_))) => next.poll_drain(cx, (fuel - 1) as nat),
            }
        }
    }
}

impl<I> View for ChunkDataReader<I> {
    type V = ChunkDataView<I>;

    closed spec fn view(&self) -> ChunkDataView<I> {
        ChunkDataView {
            reader: self.reader@,
            slots: self.parse_slots@,
            strict: self.strict_trailers,
            size: self.size,
            header: self.extensions@,
            remaining: self.remaining,
            state: self.state,
        }
    }
}

impl<I> ChunkDataReader<I> {
    /// A reader at the start of the data of a chunk.
    pub(crate) fn new(
        reader: BytesReader<I>,
        parse_slots: ParseSlots,
        strict_trailers: bool,
        size: u64,
        chunk_header: Bytes,
    ) -> (r: Self)
        ensures
            r@ == (ChunkDataView {
                reader: reader@,
                slots: parse_slots@,
                strict: strict_trailers,
                size,
                header: octets(chunk_header),
                remaining: size,
                state: ChunkBodyState::InBody,
            }),
    {
        Self {
            reader,
            parse_slots,
            strict_trailers,
            size,
            extensions: ChunkExtensions::new(chunk_header),
            remaining: size,
            state: ChunkBodyState::InBody,
        }
    }

    /// The declared byte length of this chunk.
    pub fn size(&self) -> (n: u64)
        ensures
            n == self@.size,
    {
        self.size
    }

    /// The extensions attached to this chunk header, if any.
    pub fn extensions(&self) -> (e: &ChunkExtensions)
        ensures
            e@ == self@.header,
    {
        &self.extensions
    }

    /// Read up to `max_len` bytes from this chunk's body. Returns `None` when
    /// the chunk is fully drained and the chunk footer (`\r\n`) has been
    /// consumed.
    pub fn poll_read(&mut self, cx: &mut Context, max_len: usize) -> (r: Poll<
        BodyResult<Option<Bytes>>,
    >)
        ensures
            (final(self)@, final(cx)@, data_view(r)) == old(self)@.poll_read(
                old(cx)@,
                max_len as nat,
            ),
    {
        loop
            invariant
                self@.poll_read(cx@, max_len as nat) == old(self)@.poll_read(
                    old(cx)@,
                    max_len as nat,
                ),
            decreases
                    match self@.state {
                        ChunkBodyState::InBody => 3int,
                        ChunkBodyState::InFooterNeedCR => 2int,
                        ChunkBodyState::InFooterNeedLF => 1int,
                        ChunkBodyState::Done => 0int,
                    },
        {
            reveal(ChunkDataView::poll_read);
            match self.state {
                ChunkBodyState::InBody => {
                    if self.remaining == 0 {
                        self.state = ChunkBodyState::InFooterNeedCR;
                        continue ;
                    }
                    match poll_ensure(cx, &mut self.reader) {
                        Poll::Pending => return Poll::Pending,
                        Poll::Ready(Err(e)) => return Poll::Ready(Err(e)),
                        Poll::Ready(Ok(())) => {},
                    }
                    let mut at: usize = self.reader.len();
                    if max_len < at {
                        at = max_len;
                    }
                    if self.remaining < at as u64 {
                        at = self.remaining as usize;
                    }
                    self.remaining = self.remaining - at as u64;
                    return Poll::Ready(Ok(Some(self.reader.split_to(at))));
                },
                ChunkBodyState::InFooterNeedCR => {
                    match poll_ensure(cx, &mut self.reader) {
                        Poll::Pending => return Poll::Pending,
                        Poll::Ready(Err(e)) => return Poll::Ready(Err(e)),
                        Poll::Ready(Ok(())) => {},
                    }
                    let b: u8 = self.reader.get_u8();
                    if b == CR {
                        self.state = ChunkBodyState::InFooterNeedLF;
                    } else {
                        return Poll::Ready(Err(BodyError::InvalidChunkFooter(CR, b)));
                    }
                },
                ChunkBodyState::InFooterNeedLF => {
                    match poll_ensure(cx, &mut self.reader) {
                        Poll::Pending => return Poll::Pending,
                        Poll::Ready(Err(e)) => return Poll::Ready(Err(e)),
                        Poll::Ready(Ok(())) => {},
                    }
                    let b: u8 = self.reader.get_u8();
                    if b == LF {
                        self.state = ChunkBodyState::Done;
                    } else {
                        return Poll::Ready(Err(BodyError::InvalidChunkFooter(LF, b)));
                    }
                },
                ChunkBodyState::Done => return Poll::Ready(Ok(None)),
            }
        }
    }

    /// Read the chunk to its end, and drop it.
    pub fn poll_drain(&mut self, cx: &mut Context) -> (r: Poll<BodyResult<()>>)
        ensures
            exists|n: nat| #[trigger]
                old(self)@.poll_drain(old(cx)@, n) == Some((final(self)@, final(cx)@, r)),
            (r matches Poll::Ready(Ok(()))) ==> final(self)@.state == ChunkBodyState::Done,
    {
        let ghost mut k: nat = 0;
        loop
            invariant
                forall|n: nat| #[trigger]
                    self@.poll_drain(cx@, n) == old(self)@.poll_drain(old(cx)@, n + k),
            decreases self@.remaining,
        {
            let ghost before = self@;
            let ghost cx0 = cx@;
            let read = self.poll_read(cx, DRAIN_SIZE);
            proof {
                chunk_read_is_exact(before, cx0, DRAIN_SIZE as nat);
                chunk_read_takes_reads(before, cx0, DRAIN_SIZE as nat);
                assert(before.poll_drain(cx0, 1) == old(self)@.poll_drain(old(cx)@, 1 + k));
                reveal_with_fuel(ChunkDataView::poll_drain, 2);
            }
            match read {
                Poll::Pending => return Poll::Pending,
                Poll::Ready(Err(e)) => return Poll::Ready(Err(e)),
                Poll::Ready(Ok(None)) => return Poll::Ready(Ok(())),
                Poll::Ready(Ok(Some(_))) => {
                    proof {
                        assert forall|n: nat| #[trigger]
                            self@.poll_drain(cx@, n) == old(self)@.poll_drain(
                            old(cx)@,
                            n + (k + 1),
                        ) by {
                            assert(before.poll_drain(cx0, n + 1) == old(self)@.poll_drain(
                                old(cx)@,
                                n + 1 + k,
                            ));
                        }
                        k = k + 1;
                    }
                },
            }
        }
    }

    /// Finish the body chunk body reader returning a head reader. The chunk
    /// has to be fully drained.
    pub fn finish(self) -> (r: ChunkHeadReader<I>)
        requires
            self@.state == ChunkBodyState::Done,
        ensures
            r@ == self@.finish(),
    {
        let Self {
            reader,
            parse_slots,
            strict_trailers,
            size: _,
            extensions: _,
            remaining: _,
            state: _,
        } = self;
        ChunkHeadReader::new(reader, parse_slots, strict_trailers)
    }
}

/// `a` is what is left of `b` after some bytes from its front.
pub open spec fn is_tail(a: Seq<u8>, b: Seq<u8>) -> bool {
    a.len() <= b.len() && a == b.skip(b.len() - a.len())
}

proof fn lemma_fill_keeps<I>(reader: Buffered<I>, cx: Cx)
    ensures
        unread(ensure_step(reader, cx).0, ensure_step(reader, cx).1) == unread(reader, cx),
{
    assert(unread(ensure_step(reader, cx).0, ensure_step(reader, cx).1) =~= unread(reader, cx));
}

proof fn lemma_tail_of_tail(a: Seq<u8>, b: Seq<u8>, c: Seq<u8>)
    requires
        is_tail(a, b),
        is_tail(b, c),
    ensures
        is_tail(a, c),
{
    assert(a =~= c.skip(c.len() - a.len()));
}

proof fn lemma_lf<I>(s: ChunkDataView<I>, cx: Cx)
    ensures
        ({
            let (t, cx2, p) = s.poll_lf(cx);
            &&& t.size == s.size
            &&& t.reader.io == s.reader.io
            &&& is_tail(unread(t.reader, cx2), unread(s.reader, cx))
            &&& (p matches Poll::Ready(Ok(None))) ==> unread(s.reader, cx) == seq![LF] + unread(
                t.reader,
                cx2,
            )
        }),
{
    let start = unread(s.reader, cx);
    let (t, cx2, p) = s.poll_lf(cx);
    let left = unread(t.reader, cx2);
    lemma_fill_keeps(s.reader, cx);
    assert(start.skip(0) =~= start);
    assert(left =~= start.skip(start.len() - left.len()));
    if p matches Poll::Ready(Ok(None)) {
        assert(start =~= seq![LF] + left);
    }
}

proof fn lemma_cr<I>(s: ChunkDataView<I>, cx: Cx)
    ensures
        ({
            let (t, cx2, p) = s.poll_cr(cx);
            &&& t.size == s.size
            &&& t.reader.io == s.reader.io
            &&& is_tail(unread(t.reader, cx2), unread(s.reader, cx))
            &&& (p matches Poll::Ready(Ok(None))) ==> unread(s.reader, cx) == crlf() + unread(
                t.reader,
                cx2,
            )
        }),
{
    let start = unread(s.reader, cx);
    let (reader, cx1, p1) = ensure_step(s.reader, cx);
    lemma_fill_keeps(s.reader, cx);
    assert(start.skip(0) =~= start);
    if p1 matches Poll::Ready(Ok(())) {
        let next = ChunkDataView {
            reader: reader.skip(1),
            state: ChunkBodyState::InFooterNeedCR,
            ..s
        };
        let middle = unread(next.reader, cx1);
        assert(middle =~= start.skip(1));
        if reader.buf[0] == CR {
            lemma_lf(next, cx1);
            let (t, cx2, p) = next.poll_lf(cx1);
            lemma_tail_of_tail(unread(t.reader, cx2), middle, start);
            if p matches Poll::Ready(Ok(None)) {
                assert(start =~= crlf() + unread(t.reader, cx2));
            }
        }
    }
}

/// A read of a chunk hands out the next bytes of what has come, takes no more
/// than asked, and never goes beyond the chunk; at the end of the chunk it
/// consumes the footer and nothing else.
pub proof fn chunk_read_is_exact<I>(s: ChunkDataView<I>, cx: Cx, max_len: nat)
    ensures
        ({
            let (t, cx2, p) = s.poll_read(cx, max_len);
            &&& t.size == s.size
            &&& t.reader.io == s.reader.io
            &&& is_tail(unread(t.reader, cx2), unread(s.reader, cx))
            &&& p matches Poll::Ready(Ok(Some(data))) ==> {
                &&& data.len() <= max_len
                &&& t.remaining == s.remaining - data.len()
                &&& unread(s.reader, cx) == data + unread(t.reader, cx2)
                &&& max_len > 0 ==> data.len() > 0
            }
            &&& (p matches Poll::Ready(Ok(None))) && s.state == ChunkBodyState::InBody ==> unread(
                s.reader,
                cx,
            ) == crlf() + unread(t.reader, cx2)
        }),
{
    reveal(ChunkDataView::poll_read);
    let start = unread(s.reader, cx);
    assert(start.skip(0) =~= start);
    lemma_cr(s, cx);
    lemma_lf(s, cx);
    if s.state == ChunkBodyState::InBody && s.remaining > 0 {
        lemma_fill_keeps(s.reader, cx);
        let (t, cx2, p) = s.poll_read(cx, max_len);
        let left = unread(t.reader, cx2);
        assert(left =~= start.skip(start.len() - left.len()));
        if let Poll::Ready(Ok(Some(data))) = p {
            assert(start =~= data + left);
        }
    }
}

/// A read of a chunk takes nothing from the context but the outcome of a read, and
/// is pending only where it awaits one.
pub proof fn chunk_read_takes_reads<I>(s: ChunkDataView<I>, cx: Cx, max_len: nat)
    ensures
        ({
            let (t, cx2, p) = s.poll_read(cx, max_len);
            &&& cx2.write == cx.write
            &&& cx2.flush == cx.flush
            &&& cx2.wire == cx.wire
            &&& cx2.read == cx.read || cx2.read is None
            &&& cx2.events() <= cx.events()
            &&& p is Pending ==> cx2.awaits()
            &&& (p matches Poll::Ready(Ok(None))) ==> t.state == ChunkBodyState::Done && !(s.state
                == ChunkBodyState::InBody && s.remaining > 0)
        }),
{
    reveal(ChunkDataView::poll_read);
}

impl<I> ChunkDataView<I> {
    /// How much of the footer has been consumed.
    pub open spec fn footer_read(self) -> Seq<u8> {
        match self.state {
            ChunkBodyState::InBody | ChunkBodyState::InFooterNeedCR => Seq::empty(),
            ChunkBodyState::InFooterNeedLF => seq![CR],
            ChunkBodyState::Done => crlf(),
        }
    }

    /// What holds of a reader from its creation on: behind the data, no data is
    /// left.
    pub open spec fn is_valid(self) -> bool {
        &&& self.remaining <= self.size
        &&& self.state != ChunkBodyState::InBody ==> self.remaining == 0
    }

    /// The reader after several reads.
    pub open spec fn after(self, steps: Seq<ReadStep>) -> Self
        decreases steps.len(),
    {
        if steps.len() == 0 {
            self
        } else {
            self.after(steps.drop_last()).poll_read(steps.last().cx, steps.last().max_len).0
        }
    }

    /// What several reads have given, one after the other.
    pub open spec fn read_by(self, steps: Seq<ReadStep>) -> Seq<u8>
        decreases steps.len(),
    {
        if steps.len() == 0 {
            Seq::empty()
        } else {
            self.read_by(steps.drop_last()) + given(
                self.after(steps.drop_last()).poll_read(
                    steps.last().cx,
                    steps.last().max_len,
                ).2,
            )
        }
    }

    /// The reads follow each other: none fails, and between two of them bytes only
    /// come in, in order, of those that were still to come.
    pub open spec fn follow(self, steps: Seq<ReadStep>) -> bool
        decreases steps.len(),
    {
        steps.len() > 0 ==> {
            let before = steps.drop_last();
            let s = self.after(before);
            let last = steps.last();
            &&& self.follow(before)
            &&& !(s.poll_read(last.cx, last.max_len).2 matches Poll::Ready(Err(_)))
            &&& before.len() > 0 ==> {
                let (t, cx2, _) = self.after(before.drop_last()).poll_read(
                    before.last().cx,
                    before.last().max_len,
                );
                unread(s.reader, last.cx) + last.coming == unread(t.reader, cx2)
                    + before.last().coming
            }
        }
    }
}

proof fn lemma_read_accounts<I>(s: ChunkDataView<I>, cx: Cx, max_len: nat)
    requires
        s.is_valid(),
        !(s.poll_read(cx, max_len).2 matches Poll::Ready(Err(_))),
    ensures
        ({
            let (t, cx2, p) = s.poll_read(cx, max_len);
            &&& t.is_valid()
            &&& t.size == s.size
            &&& t.remaining + given(p).len() == s.remaining
            &&& given(p).len() <= max_len
            &&& given(p) + t.footer_read() + unread(t.reader, cx2) == s.footer_read() + unread(
                s.reader,
                cx,
            )
            &&& given(p).len() > 0 ==> s.footer_read().len() == 0
            &&& (p matches Poll::Ready(Ok(None))) ==> t.state == ChunkBodyState::Done
        }),
{
    reveal(ChunkDataView::poll_read);
    let (t, cx2, p) = s.poll_read(cx, max_len);
    let (reader, cx1, p1) = ensure_step(s.reader, cx);
    lemma_fill_keeps(s.reader, cx);
    let start = unread(s.reader, cx);
    if s.state == ChunkBodyState::Done {
        assert(given(p) + t.footer_read() + start =~= s.footer_read() + start);
    } else if p1 matches Poll::Ready(Ok(())) {
        if s.state == ChunkBodyState::InBody && s.remaining > 0 {
            assert(given(p) + t.footer_read() + unread(t.reader, cx2) =~= start);
            assert(s.footer_read() + start =~= start);
        } else if s.state == ChunkBodyState::InFooterNeedLF {
            assert(unread(reader.skip(1), cx1) =~= start.skip(1));
            assert(given(p) + t.footer_read() + unread(t.reader, cx2) =~= seq![CR] + start);
        } else {
            let middle = reader.skip(1);
            assert(unread(middle, cx1) =~= start.skip(1));
            let (reader2, cx3, p2) = ensure_step(middle, cx1);
            lemma_fill_keeps(middle, cx1);
            if p2 matches Poll::Ready(Ok(())) {
                assert(unread(reader2.skip(1), cx3) =~= start.skip(2));
            }
            assert(given(p) + t.footer_read() + unread(t.reader, cx2) =~= s.footer_read() + start);
        }
    } else {
        assert(given(p) + t.footer_read() + unread(t.reader, cx2) =~= s.footer_read() + start);
    }
}

/// Over all reads of a chunk: what they have given is the front of the data of the
/// chunk; and once one has told the end of the chunk, they have given all of it,
/// the footer has been consumed, and nothing behind it.
pub proof fn reads_give_the_chunk<I>(s: ChunkDataView<I>, steps: Seq<ReadStep>)
    requires
        s.state == ChunkBodyState::InBody,
        s.remaining == s.size,
        steps.len() > 0,
        s.follow(steps),
    ensures
        ({
            let all = unread(s.reader, steps[0].cx) + steps[0].coming;
            let t = s.after(steps);
            let (_, cx2, p) = s.after(steps.drop_last()).poll_read(
                steps.last().cx,
                steps.last().max_len,
            );
            let data = s.read_by(steps);
            &&& data.len() + t.remaining == s.size
            &&& all == data + t.footer_read() + (unread(t.reader, cx2) + steps.last().coming)
            &&& given(p).len() <= steps.last().max_len
            &&& t.is_valid()
            &&& (p matches Poll::Ready(Ok(None))) ==> {
                &&& data.len() == s.size
                &&& all == data + crlf() + (unread(t.reader, cx2) + steps.last().coming)
                &&& t.state == ChunkBodyState::Done
            }
        }),
    decreases steps.len(),
{
    let before = steps.drop_last();
    let last = steps.last();
    let s1 = s.after(before);
    let all = unread(s.reader, steps[0].cx) + steps[0].coming;
    let (t, cx2, p) = s1.poll_read(last.cx, last.max_len);
    let seen = s.read_by(before);
    let ahead = unread(s1.reader, last.cx) + last.coming;
    if before.len() > 0 {
        assert(before[0] == steps[0]);
        reads_give_the_chunk(s, before);
        assert(all == seen + s1.footer_read() + ahead);
    } else {
        assert(all =~= seen + s1.footer_read() + ahead);
    }
    lemma_read_accounts(s1, last.cx, last.max_len);
    let now = given(p) + t.footer_read() + unread(t.reader, cx2);
    let data = seen + given(p);
    assert(now == s1.footer_read() + unread(s1.reader, last.cx));
    assert(seen + s1.footer_read() + ahead =~= seen + (s1.footer_read() + unread(
        s1.reader,
        last.cx,
    )) + last.coming);
    assert(seen + now + last.coming =~= data + t.footer_read() + (unread(t.reader, cx2)
        + last.coming));
}

/// Once a chunk is over, every further read tells so, and does nothing.
pub proof fn chunk_end_is_final<I>(s: ChunkDataView<I>, cx: Cx, max_len: nat)
    requires
        s.state == ChunkBodyState::Done,
    ensures
        s.poll_read(cx, max_len) == (s, cx, Poll::Ready(Ok::<Option<Seq<u8>>, BodyError>(None))),
{
    reveal(ChunkDataView::poll_read);
}

/// A wrong byte where the footer of a chunk belongs is refused, and named together
/// with the one that belongs there.
pub proof fn wrong_footer_is_refused<I>(s: ChunkDataView<I>, cx: Cx, max_len: nat)
    requires
        s.is_valid(),
        s.remaining == 0,
        s.state != ChunkBodyState::Done,
        unread(s.reader, cx).len() > 0,
    ensures
        ({
            let front = unread(s.reader, cx);
            let p = s.poll_read(cx, max_len).2;
            if s.state == ChunkBodyState::InFooterNeedLF {
                front[0] != LF ==> p == Poll::Ready(
                    Err::<Option<Seq<u8>>, _>(BodyError::InvalidChunkFooter(LF, front[0])),
                )
            } else {
                &&& front[0] != CR ==> p == Poll::Ready(
                    Err::<Option<Seq<u8>>, _>(BodyError::InvalidChunkFooter(CR, front[0])),
                )
                &&& front[0] == CR && front.len() > 1 && front[1] != LF ==> p == Poll::Ready(
                    Err::<Option<Seq<u8>>, _>(BodyError::InvalidChunkFooter(LF, front[1])),
                )
            }
        }),
{
    reveal(ChunkDataView::poll_read);
    lemma_fill_keeps(s.reader, cx);
    let front = unread(s.reader, cx);
    let (reader, cx1, p1) = ensure_step(s.reader, cx);
    assert(p1 matches Poll::Ready(Ok(())));
    assert(reader.buf[0] == front[0]);
    let middle = reader.skip(1);
    assert(unread(middle, cx1) =~= front.skip(1));
    lemma_fill_keeps(middle, cx1);
    if front.len() > 1 {
        let (reader2, cx2, p2) = ensure_step(middle, cx1);
        assert(p2 matches Poll::Ready(Ok(())));
        assert(reader2.buf[0] == front.skip(1)[0]);
    }
}

/// Inside a chunk, a read gives as much as there is, as was asked for, and as the chunk has
/// left, whichever is least. It waits exactly where nothing has come, and fails exactly where
/// the transport did, or where the stream ended.
pub proof fn reads_give_what_there_is<I>(s: ChunkDataView<I>, cx: Cx, max_len: nat)
    requires
        s.state == ChunkBodyState::InBody,
        s.remaining > 0,
    ensures
        ({
            let (t, cx2, p) = s.poll_read(cx, max_len);
            let ready = if s.reader.buf.len() > 0 {
                s.reader.buf
            } else {
                match cx.read {
                    Some(Ok(data)) => data,
                    _ => Seq::empty(),
                }
            };
            &&& t.state == ChunkBodyState::InBody
            &&& t.slots == s.slots && t.strict == s.strict && t.size == s.size && t.header
                == s.header
            &&& cx2.write == cx.write && cx2.flush == cx.flush && cx2.wire == cx.wire
            &&& ready.len() > 0 ==> {
                &&& p matches Poll::Ready(Ok(Some(data))) && {
                    let n = data.len();
                    &&& n <= max_len && n <= s.remaining && n <= ready.len()
                    &&& n == max_len || n == s.remaining || n == ready.len()
                    &&& ready == data + t.reader.buf
                    &&& t.remaining == s.remaining - n
                }
                &&& s.reader.buf.len() > 0 ==> cx2 == cx
            }
            &&& ready.len() == 0 ==> t.remaining == s.remaining && t.reader.buf.len() == 0 && (
            match cx.read {
                None => p is Pending && cx2.wants == crate::transport::WantsView::Read(
                    crate::body::reader::IO_FILL_LEN as nat,
                ),
                Some(Err(e)) => p matches Poll::Ready(Err(BodyError::BodyReadError(f))) && f == e,
                Some(Ok(_)) => p matches Poll::Ready(Err(BodyError::UnexpectedEOF)),
            })
        }),
{
    reveal(ChunkDataView::poll_read);
    crate::body::reader::bytes_are_ensured(s.reader, cx);
    let (reader, cx1, q) = ensure_step(s.reader, cx);
    let (t, cx2, p) = s.poll_read(cx, max_len);
    if let Poll::Ready(Ok(Some(data))) = p {
        assert(reader.buf =~= data + t.reader.buf);
    }
}

/// At the end of a chunk, a read takes the two bytes that end a line, one after the other as
/// they come, and then tells the end. Where one has not come it waits, and remembers what it
/// has taken; it fails where the transport did, or where the stream ended.
pub proof fn footers_are_taken_byte_by_byte<I>(s: ChunkDataView<I>, cx: Cx, max_len: nat)
    requires
        s.is_valid(),
        s.remaining == 0,
        s.state != ChunkBodyState::Done,
    ensures
        ({
            let (t, cx2, p) = s.poll_read(cx, max_len);
            let front = unread(s.reader, cx);
            let owed = if s.state == ChunkBodyState::InFooterNeedLF {
                seq![10u8]
            } else {
                seq![13u8, 10u8]
            };
            &&& t.remaining == 0 && t.slots == s.slots && t.strict == s.strict
            &&& front.len() >= owed.len() && front.take(owed.len() as int) == owed ==> {
                &&& p matches Poll::Ready(Ok(None))
                &&& t.state == ChunkBodyState::Done
                &&& unread(t.reader, cx2) == front.skip(owed.len() as int)
            }
            &&& front.len() == 0 && cx.read is None ==> p is Pending
            &&& front.len() == 1 && owed.len() == 2 && front[0] == 13u8 && cx.read is None ==> {
                &&& p is Pending
                &&& t.state == ChunkBodyState::InFooterNeedLF
                &&& unread(t.reader, cx2).len() == 0
            }
            &&& front.len() == 0 ==> (match cx.read {
                None => true,
                Some(Err(e)) => p matches Poll::Ready(Err(BodyError::BodyReadError(f))) && f == e,
                Some(Ok(_)) => p matches Poll::Ready(Err(BodyError::UnexpectedEOF)),
            })
        }),
{
    reveal(ChunkDataView::poll_read);
    let front = unread(s.reader, cx);
    let (reader, cx1, p1) = ensure_step(s.reader, cx);
    crate::body::reader::bytes_are_ensured(s.reader, cx);
    lemma_fill_keeps(s.reader, cx);
    if front.len() > 0 {
        assert(reader.buf.len() > 0);
        assert(reader.buf[0] == front[0]);
        let middle = reader.skip(1);
        assert(unread(middle, cx1) =~= front.skip(1));
        crate::body::reader::bytes_are_ensured(middle, cx1);
        lemma_fill_keeps(middle, cx1);
        let (reader2, cx2, p2) = ensure_step(middle, cx1);
        if front.len() > 1 {
            assert(reader2.buf[0] == front.skip(1)[0]);
            assert(unread(reader2.skip(1), cx2) =~= front.skip(2));
        }
        assert(front.take(1).len() == 1 ==> front.take(1)[0] == front[0]);
        if front.len() > 1 {
            assert(front.take(2)[0] == front[0] && front.take(2)[1] == front[1]);
        }
    }
}

/// Whatever a read of a chunk comes to, the connection, the slots, the strictness and the
/// header stay the same; and behind the chunk, the next header is read with them.
pub proof fn chunks_keep_the_connection<I>(s: ChunkDataView<I>, cx: Cx, max_len: nat)
    ensures
        ({
            let t = s.poll_read(cx, max_len).0;
            &&& t.reader.io == s.reader.io
            &&& t.slots == s.slots && t.strict == s.strict
            &&& t.size == s.size && t.header == s.header
        }),
        s.finish().reader == s.reader,
        s.finish().slots == s.slots,
        s.finish().strict == s.strict,
        s.finish().state is ReadingSize,
{
    reveal(ChunkDataView::poll_read);
}

} // verus!
