//! Reader for the data of a whole body in the chunked transfer coding (RFC
//! 9112 section 7.1).
use bytes::Bytes;
use vstd::pervasive::unreached;
use vstd::prelude::*;

use crate::body::chunk_coding::{are_plain, chunk_head, encode_chunks, encode_end};
use crate::body::error::{BodyError, BodyResult};
use crate::body::reader::chunk_data::{
    chunk_read_is_exact, chunk_read_takes_reads, is_tail, ChunkBodyState, ChunkDataReader,
    ChunkDataView,
};
use crate::body::reader::chunk_head::{
    header_read_keeps_valid, is_header_line, is_section, poison_comes, reads_any_head,
    ChunkHeadReader, ChunkHeadStateView, ChunkHeadView, FinalChunkReader,
    FinalChunkView, NextChunk, NextChunkView,
};
use crate::body::reader::{
    data_view, ensure_step, given, read_failed, unread, ReadStep, DRAIN_SIZE,
};
use crate::http_message::header::{Field, Headers};
use crate::http_message::message::ParseSlots;
use crate::http_message::raw::{field_lines, written_header_is_chunk_line};
use crate::io_buffer::BytesReader;
use crate::text::{crlf, CR, LF};
use crate::transport::{Context, Cx, Poll};

verus! {

#[derive(Debug)]
enum ChunkedBodyChunkStream<I> {
    InChunk(ChunkDataReader<I>),
    BetweenChunk(ChunkHeadReader<I>),
    Done(FinalChunkReader<I>),
}

/// A reader of the data of all chunks of a body.
#[derive(Debug)]
pub struct ChunkedBodyReader<I> {
    inner: Option<ChunkedBodyChunkStream<I>>,
}

/// Where in a body a [`ChunkedBodyReader`] is.
pub enum ChunkStreamView<I> {
    InChunk(ChunkDataView<I>),
    BetweenChunk(ChunkHeadView<I>),
    Done(FinalChunkView<I>),
}

/// The model of a [`ChunkedBodyReader`]: where it is, or nothing once it has
/// failed.
pub struct ChunkedView<I>(pub Option<ChunkStreamView<I>>);

/// A read inside a chunk: its data, or the end of the chunk.
pub open spec fn in_chunk<I>(r: (ChunkDataView<I>, Cx, Poll<BodyResult<Option<Seq<u8>>>>)) -> (
    ChunkedView<I>,
    Cx,
    Poll<BodyResult<Option<Seq<u8>>>>,
) {
    let (data, cx, p) = r;
    match p {
        Poll::Ready(Err(e)) => (ChunkedView(None), cx, Poll::Ready(Err(e))),
        p => (ChunkedView(Some(ChunkStreamView::InChunk(data))), cx, p),
    }
}

impl<I> ChunkHeadView<I> {
    /// A read between chunks: the next header is read, and then data of its
    /// chunk.
    pub open spec fn poll_read_data(self, cx: Cx, max_len: nat) -> (
        ChunkedView<I>,
        Cx,
        Poll<BodyResult<Option<Seq<u8>>>>,
    ) {
        let (head, cx, p) = self.poll_read_chunk(cx);
        match p {
            Poll::Pending => (
                ChunkedView(Some(ChunkStreamView::BetweenChunk(head))),
                cx,
                Poll::Pending,
            ),
            Poll::Ready(Err(e)) => (ChunkedView(None), cx, Poll::Ready(Err(e))),
            Poll::Ready(Ok(())) => match head.finish() {
                NextChunkView::Data(data) => in_chunk(data.poll_read(cx, max_len)),
                NextChunkView::Final(last) => (
                    ChunkedView(Some(ChunkStreamView::Done(last))),
                    cx,
                    Poll::Ready(Ok(None)),
                ),
            },
        }
    }
}

impl<I> ChunkedView<I> {
    /// A read of at most `max_len` bytes of the data of the body: what has
    /// come, as far as the chunk goes; `None` once the body is over. After a
    /// failure every read fails.
    pub open spec fn poll_read(self, cx: Cx, max_len: nat) -> (
        Self,
        Cx,
        Poll<BodyResult<Option<Seq<u8>>>>,
    ) {
        match self.0 {
            None => (self, cx, Poll::Ready(Err(BodyError::ReadAfterError))),
            Some(ChunkStreamView::Done(_)) => (self, cx, Poll::Ready(Ok(None))),
            Some(ChunkStreamView::BetweenChunk(head)) => head.poll_read_data(cx, max_len),
            Some(ChunkStreamView::InChunk(data)) => {
                let (data, cx, p) = data.poll_read(cx, max_len);
                match p {
                    Poll::Ready(Ok(None)) => data.finish().poll_read_data(cx, max_len),
                    p => in_chunk((data, cx, p)),
                }
            },
        }
    }

    /// The bytes that have come and have not been consumed.
    pub open spec fn unread(self, cx: Cx) -> Seq<u8> {
        match self.0 {
            None => Seq::empty(),
            Some(ChunkStreamView::InChunk(data)) => unread(data.reader, cx),
            Some(ChunkStreamView::BetweenChunk(head)) => unread(head.reader, cx),
            Some(ChunkStreamView::Done(last)) => unread(last.reader, cx),
        }
    }

    /// What is unread, and what is still to come behind it, is the rest of a
    /// body, however its headers are spelled: the data of `chunks`, the trailer
    /// fields, and `rest` behind them. Inside a chunk, the first of `chunks` is
    /// what is left of it.
    pub open spec fn holds(
        self,
        cx: Cx,
        coming: Seq<u8>,
        chunks: Seq<Seq<u8>>,
        trailers: Seq<Field>,
        rest: Seq<u8>,
    ) -> bool {
        match self.0 {
            Some(ChunkStreamView::BetweenChunk(head)) => match head.state {
                ChunkHeadStateView::ReadingSize => exists|end: Seq<u8>|
                    #[trigger] chunks_come(head, cx, coming, chunks, end) && is_body_end(
                        end,
                        trailers,
                        rest,
                        head.slots,
                        head.strict,
                    ),
                _ => chunks.len() == 0 && exists|line: Seq<u8>, section: Seq<u8>| #[trigger]
                    head.expects_end(cx, coming, line, section, trailers, rest),
            },
            Some(ChunkStreamView::InChunk(data)) => exists|end: Seq<u8>|
                #[trigger] chunk_comes(data, cx, coming, chunks, end) && is_body_end(
                    end,
                    trailers,
                    rest,
                    data.slots,
                    data.strict,
                ),
            _ => false,
        }
    }

    /// What is unread, and what is still to come behind it, is the rest of a
    /// body that was aborted between two chunks: the data of `chunks`, the byte
    /// that poisons the body, and `rest` behind it.
    pub open spec fn holds_aborted(
        self,
        cx: Cx,
        coming: Seq<u8>,
        chunks: Seq<Seq<u8>>,
        rest: Seq<u8>,
    ) -> bool {
        let end = seq!['x' as u8] + rest;
        match self.0 {
            Some(ChunkStreamView::BetweenChunk(head)) => chunks_come(
                head,
                cx,
                coming,
                chunks,
                end,
            ),
            Some(ChunkStreamView::InChunk(data)) => chunk_comes(data, cx, coming, chunks, end),
            _ => false,
        }
    }

    /// The whole body has been read, and `rest` is unread behind it, or still to
    /// come.
    pub open spec fn is_done(
        self,
        cx: Cx,
        coming: Seq<u8>,
        trailers: Seq<Field>,
        rest: Seq<u8>,
    ) -> bool {
        self.0 matches Some(ChunkStreamView::Done(last)) && last.trailers == trailers
            && self.unread(cx) + coming == rest
    }

    /// Whether there is nothing more to read.
    pub open spec fn is_drained(self) -> bool {
        self.0 is None || self.0->Some_0 is Done
    }

    /// Reads, at most `fuel` of them, until one gives no data: `None` where
    /// that takes more.
    pub open spec fn poll_drain(self, cx: Cx, fuel: nat) -> Option<
        (Self, Cx, Poll<BodyResult<()>>),
    >
        decreases fuel,
    {
        if fuel == 0 {
            None
        } else {
            let (next, cx, p) = self.poll_read(cx, DRAIN_SIZE as nat);
            match p {
                Poll::Pending => Some((next, cx, Poll::Pending)),
                Poll::Ready(Err(e)) => Some((next, cx, Poll::Ready(Err(e)))),
                Poll::Ready(Ok(None)) => Some((next, cx, Poll::Ready(Ok(())))),
                Poll::Ready(Ok(Some(_))) => next.poll_drain(cx, (fuel - 1) as nat),
            }
        }
    }
}

/// The data of chunks, one after the other.
pub open spec fn payload(chunks: Seq<Seq<u8>>) -> Seq<u8>
    decreases chunks.len(),
{
    if chunks.len() == 0 {
        Seq::empty()
    } else {
        chunks[0] + payload(chunks.skip(1))
    }
}

/// Chunks that are written: each has data, and a size that fits its header.
pub open spec fn are_chunks(chunks: Seq<Seq<u8>>) -> bool {
    forall|i: int| 0 <= i < chunks.len() ==> 0 < (#[trigger] chunks[i]).len() <= u64::MAX
}

/// `all` starts with the header of a chunk, its data and its footer, and goes on
/// with `more`.
pub open spec fn is_chunk_in_front(
    all: Seq<u8>,
    line: Seq<u8>,
    data: Seq<u8>,
    more: Seq<u8>,
) -> bool {
    is_header_line(line, data.len() as u64) && all == line + (data + crlf() + more)
}

/// `all` is chunks with this data, however their headers are spelled, and `end`
/// behind them.
pub open spec fn is_chunks(all: Seq<u8>, chunks: Seq<Seq<u8>>, end: Seq<u8>) -> bool
    decreases chunks.len(),
{
    if chunks.len() == 0 {
        all == end
    } else {
        0 < chunks[0].len() <= u64::MAX && exists|line: Seq<u8>, more: Seq<u8>|
            #[trigger] is_chunk_in_front(all, line, chunks[0], more) && is_chunks(
                more,
                chunks.skip(1),
                end,
            )
    }
}

/// `end` starts with the header of the last chunk and a trailer section, and goes
/// on with `rest`.
pub open spec fn is_end_in_front(
    end: Seq<u8>,
    line: Seq<u8>,
    section: Seq<u8>,
    rest: Seq<u8>,
) -> bool {
    is_header_line(line, 0) && end == line + (section + rest)
}

/// `end` is the end of a body with these trailer fields, however it is spelled,
/// and `rest` behind it, for a reader with so many slots.
pub open spec fn is_body_end(
    end: Seq<u8>,
    trailers: Seq<Field>,
    rest: Seq<u8>,
    slots: nat,
    strict: bool,
) -> bool {
    exists|line: Seq<u8>, section: Seq<u8>|
        #[trigger] is_end_in_front(end, line, section, rest) && is_section(
            section,
            trailers,
            slots,
            strict,
        )
}

/// What is unread, and what is still to come behind it, is `chunks`, and `end`
/// behind them.
pub open spec fn chunks_come<I>(
    head: ChunkHeadView<I>,
    cx: Cx,
    coming: Seq<u8>,
    chunks: Seq<Seq<u8>>,
    end: Seq<u8>,
) -> bool {
    head.state is ReadingSize && is_chunks(unread(head.reader, cx) + coming, chunks, end)
}

/// What is unread, and what is still to come behind it, is what is left of a
/// chunk, of which the first of `chunks` has not been read, the other chunks, and
/// `end` behind them.
pub open spec fn chunk_comes<I>(
    data: ChunkDataView<I>,
    cx: Cx,
    coming: Seq<u8>,
    chunks: Seq<Seq<u8>>,
    end: Seq<u8>,
) -> bool {
    &&& chunks.len() > 0
    &&& data.remaining == chunks[0].len()
    &&& data.state != ChunkBodyState::InBody ==> chunks[0].len() == 0
    &&& data.state != ChunkBodyState::Done
    &&& exists|more: Seq<u8>|
        #[trigger] is_chunks(more, chunks.skip(1), end) && unread(data.reader, cx) + coming
            == chunk_left(data.state, chunks[0]) + more
}

/// What is left of a chunk, of which `data` has not been read.
pub open spec fn chunk_left(state: ChunkBodyState, data: Seq<u8>) -> Seq<u8> {
    match state {
        ChunkBodyState::InBody => data + crlf(),
        ChunkBodyState::InFooterNeedCR => crlf(),
        ChunkBodyState::InFooterNeedLF => seq![LF],
        ChunkBodyState::Done => Seq::empty(),
    }
}

/// `data` is the front of the first chunk that has any.
pub open spec fn is_from_one_chunk(chunks: Seq<Seq<u8>>, data: Seq<u8>) -> bool {
    let left = if chunks.len() > 0 && chunks[0].len() == 0 {
        chunks.skip(1)
    } else {
        chunks
    };
    left.len() > 0 && data.len() <= left[0].len() && data == left[0].take(data.len() as int)
}

/// What a read of at most `max_len` bytes gives of a body, however it comes in:
/// the next data; or, where there is none, the end of the body. The read is
/// pending only while bytes are still to come, and it fails only where the
/// transport does before they have come.
pub open spec fn reads_back<I>(
    cx: Cx,
    t: ChunkedView<I>,
    cx2: Cx,
    r: Poll<BodyResult<Option<Seq<u8>>>>,
    max_len: nat,
    coming: Seq<u8>,
    chunks: Seq<Seq<u8>>,
    trailers: Seq<Field>,
    rest: Seq<u8>,
) -> bool {
    match r {
        Poll::Ready(Ok(None)) => payload(chunks).len() == 0 && t.is_done(cx2, coming, trailers, rest),
        Poll::Ready(Ok(Some(data))) => {
            &&& payload(chunks).len() > 0
            &&& data.len() <= max_len
            &&& max_len > 0 ==> data.len() > 0
            &&& is_from_one_chunk(chunks, data)
            &&& exists|left: Seq<Seq<u8>>|
                #[trigger] t.holds(cx2, coming, left, trailers, rest) && payload(chunks) == data
                    + payload(left)
        },
        Poll::Pending => {
            &&& coming.len() > 0
            &&& cx2.read is None
            &&& exists|left: Seq<Seq<u8>>|
                #[trigger] t.holds(cx2, coming, left, trailers, rest) && payload(chunks) == payload(
                    left,
                )
        },
        Poll::Ready(Err(_)) => coming.len() > 0 && read_failed(cx),
    }
}

/// A read of at most `max_len` bytes reads back any body that can come to the
/// reader.
pub open spec fn reads_any_body_back<I>(s: ChunkedView<I>, cx: Cx, max_len: nat) -> bool {
    forall|coming: Seq<u8>, chunks: Seq<Seq<u8>>, trailers: Seq<Field>, rest: Seq<u8>|
        #[trigger] s.holds(cx, coming, chunks, trailers, rest) ==> {
            let (t, cx2, p) = s.poll_read(cx, max_len);
            reads_back(cx, t, cx2, p, max_len, coming, chunks, trailers, rest)
        }
}

/// A drain of any body that can come to the reader ends behind it: the whole body
/// has been read, its trailer fields are known, and what follows is unread. The
/// drain is pending only while bytes are still to come, and it fails only where the
/// transport does before they have come. A drain of a body that was aborted never
/// succeeds.
pub open spec fn drains_any_body<I, E>(
    s: ChunkedView<I>,
    cx: Cx,
    t: ChunkedView<I>,
    cx2: Cx,
    r: Poll<Result<(), E>>,
) -> bool {
    &&& forall|coming: Seq<u8>, chunks: Seq<Seq<u8>>, trailers: Seq<Field>, rest: Seq<u8>|
        #[trigger] s.holds(cx, coming, chunks, trailers, rest) ==> match r {
            Poll::Ready(Ok(_)) => t.is_done(cx2, coming, trailers, rest),
            Poll::Pending => coming.len() > 0 && exists|left: Seq<Seq<u8>>|
                #[trigger] t.holds(cx2, coming, left, trailers, rest),
            Poll::Ready(Err(_)) => coming.len() > 0 && read_failed(cx),
        }
    &&& forall|coming: Seq<u8>, chunks: Seq<Seq<u8>>, rest: Seq<u8>|
        #[trigger] s.holds_aborted(cx, coming, chunks, rest) ==> match r {
            Poll::Ready(Ok(_)) => false,
            Poll::Pending => coming.len() > 0 && exists|left: Seq<Seq<u8>>|
                #[trigger] t.holds_aborted(cx2, coming, left, rest),
            Poll::Ready(Err(_)) => true,
        }
}

/// A read of at most `max_len` bytes never takes a body that was aborted for a
/// whole one: it gives the data of the chunks before the abort, and then fails.
pub open spec fn refuses_any_aborted_body<I>(s: ChunkedView<I>, cx: Cx, max_len: nat) -> bool {
    forall|coming: Seq<u8>, chunks: Seq<Seq<u8>>, rest: Seq<u8>|
        #[trigger] s.holds_aborted(cx, coming, chunks, rest) ==> {
            let (t, cx2, p) = s.poll_read(cx, max_len);
            refuses_aborted(cx, t, cx2, p, coming, chunks, rest)
        }
}

/// What a read comes to of a body that was aborted.
pub open spec fn refuses_aborted<I>(
    cx: Cx,
    t: ChunkedView<I>,
    cx2: Cx,
    p: Poll<BodyResult<Option<Seq<u8>>>>,
    coming: Seq<u8>,
    chunks: Seq<Seq<u8>>,
    rest: Seq<u8>,
) -> bool {
    match p {
        Poll::Ready(Ok(None)) => false,
        Poll::Ready(Ok(Some(data))) => exists|left: Seq<Seq<u8>>|
            #[trigger] t.holds_aborted(cx2, coming, left, rest) && payload(chunks) == data + payload(
                left,
            ),
        Poll::Pending => coming.len() > 0 && exists|left: Seq<Seq<u8>>|
            #[trigger] t.holds_aborted(cx2, coming, left, rest) && payload(chunks) == payload(left),
        Poll::Ready(Err(e)) => payload(chunks).len() == 0 && e is InvalidChunkHeader
            || coming.len() > 0 && read_failed(cx),
    }
}

/// What is left of chunks after `n` bytes of the first.
pub open spec fn chunks_left(chunks: Seq<Seq<u8>>, n: int) -> Seq<Seq<u8>> {
    seq![chunks[0].skip(n)] + chunks.skip(1)
}

/// A read inside a chunk gives the next of what is left of it, however it comes
/// in: data, or the end of the chunk.
proof fn lemma_chunk_read<I>(
    d: ChunkDataView<I>,
    cx: Cx,
    max_len: nat,
    coming: Seq<u8>,
    chunks: Seq<Seq<u8>>,
    end: Seq<u8>,
)
    requires
        chunk_comes(d, cx, coming, chunks, end),
    ensures
        ({
            let (t, cx2, p) = d.poll_read(cx, max_len);
            &&& t.slots == d.slots
            &&& t.strict == d.strict
            &&& match p {
                Poll::Ready(Ok(Some(data))) => {
                    let n = data.len() as int;
                    &&& d.remaining > 0
                    &&& data == chunks[0].take(n)
                    &&& n <= chunks[0].len()
                    &&& n <= max_len
                    &&& max_len > 0 ==> n > 0
                    &&& chunk_comes(t, cx2, coming, chunks_left(chunks, n), end)
                },
                Poll::Ready(Ok(None)) => {
                    &&& chunks[0].len() == 0
                    &&& chunks_come(t.finish(), cx2, coming, chunks.skip(1), end)
                    &&& payload(chunks) == payload(chunks.skip(1))
                },
                Poll::Pending => {
                    &&& coming.len() > 0
                    &&& cx2.read is None
                    &&& chunk_comes(t, cx2, coming, chunks, end)
                },
                Poll::Ready(Err(_)) => coming.len() > 0 && read_failed(cx),
            }
        }),
{
    reveal(ChunkDataView::poll_read);
    let (t, cx2, p) = d.poll_read(cx, max_len);
    let first = chunks[0];
    let all = unread(d.reader, cx) + coming;
    let behind = choose|more: Seq<u8>|
        #[trigger] is_chunks(more, chunks.skip(1), end) && all == chunk_left(d.state, first) + more;
    assert(payload(chunks) =~= first + payload(chunks.skip(1)));
    if d.state == ChunkBodyState::InBody && d.remaining > 0 {
        let (reader, cx1, p1) = ensure_step(d.reader, cx);
        assert(unread(reader, cx1) =~= unread(d.reader, cx));
        assert(all == first + crlf() + behind);
        if let Poll::Ready(Ok(Some(data))) = p {
            let at = data.len() as int;
            let left = chunks_left(chunks, at);
            assert(left.skip(1) =~= chunks.skip(1));
            assert(data =~= all.take(at));
            assert(all.take(at) =~= first.take(at));
            assert(unread(t.reader, cx2) + coming =~= all.skip(at));
            assert(all.skip(at) =~= first.skip(at) + crlf() + behind);
            assert(is_chunks(behind, left.skip(1), end));
        }
    } else {
        assert(chunk_left(d.state, first) + behind =~= chunk_left(d.state, Seq::empty()) + behind);
        lemma_footer_read(d, cx, coming, behind);
        assert(payload(chunks) =~= payload(chunks.skip(1)));
    }
}

/// A read behind the data of a chunk gives the end of the chunk.
proof fn lemma_footer_read<I>(d: ChunkDataView<I>, cx: Cx, coming: Seq<u8>, behind: Seq<u8>)
    requires
        d.remaining == 0,
        d.state != ChunkBodyState::Done,
        unread(d.reader, cx) + coming == chunk_left(d.state, Seq::empty()) + behind,
    ensures
        ({
            let (t, cx2, p) = if d.state == ChunkBodyState::InFooterNeedLF {
                d.poll_lf(cx)
            } else {
                d.poll_cr(cx)
            };
            &&& t.remaining == 0
            &&& t.slots == d.slots
            &&& t.strict == d.strict
            &&& match p {
                Poll::Ready(Ok(Some(_))) => false,
                Poll::Ready(Ok(None)) => unread(t.reader, cx2) + coming == behind,
                Poll::Pending => {
                    &&& coming.len() > 0
                    &&& cx2.read is None
                    &&& t.state == ChunkBodyState::InFooterNeedCR || t.state
                        == ChunkBodyState::InFooterNeedLF
                    &&& unread(t.reader, cx2) + coming == chunk_left(t.state, Seq::empty()) + behind
                },
                Poll::Ready(Err(_)) => coming.len() > 0 && read_failed(cx),
            }
        }),
    decreases (if d.state == ChunkBodyState::InFooterNeedLF { 0nat } else { 1 }),
{
    let all = unread(d.reader, cx) + coming;
    let (reader, cx1, p1) = ensure_step(d.reader, cx);
    assert(unread(reader, cx1) =~= unread(d.reader, cx));
    if d.state == ChunkBodyState::InFooterNeedLF {
        assert(all[0] == LF);
        if p1 matches Poll::Ready(Ok(())) {
            assert(reader.buf[0] == all[0]);
            assert(unread(reader.skip(1), cx1) + coming =~= all.skip(1));
            assert(all.skip(1) =~= behind);
        }
    } else {
        assert(all =~= crlf() + behind);
        assert(all[0] == CR);
        if p1 matches Poll::Ready(Ok(())) {
            assert(reader.buf[0] == all[0]);
            let next = ChunkDataView {
                reader: reader.skip(1),
                state: ChunkBodyState::InFooterNeedLF,
                ..d
            };
            assert(unread(next.reader, cx1) + coming =~= all.skip(1));
            assert(all.skip(1) =~= seq![LF] + behind);
            lemma_footer_read(next, cx1, coming, behind);
        }
    }
}

/// A read inside a chunk, as long as it does not end the chunk, reads the body
/// back.
proof fn lemma_data_reads_back<I>(
    d: ChunkDataView<I>,
    cx: Cx,
    max_len: nat,
    coming: Seq<u8>,
    chunks: Seq<Seq<u8>>,
    trailers: Seq<Field>,
    rest: Seq<u8>,
)
    requires
        ChunkedView(Some(ChunkStreamView::InChunk(d))).holds(cx, coming, chunks, trailers, rest),
    ensures
        ({
            let (t, cx2, p) = d.poll_read(cx, max_len);
            if p matches Poll::Ready(Ok(None)) {
                &&& chunks[0].len() == 0
                &&& ChunkedView(Some(ChunkStreamView::BetweenChunk(t.finish()))).holds(
                    cx2,
                    coming,
                    chunks.skip(1),
                    trailers,
                    rest,
                )
                &&& payload(chunks) == payload(chunks.skip(1))
            } else {
                reads_back(
                    cx,
                    ChunkedView(Some(ChunkStreamView::InChunk(t))),
                    cx2,
                    p,
                    max_len,
                    coming,
                    chunks,
                    trailers,
                    rest,
                )
            }
        }),
{
    lemma_in_chunk(d, cx, max_len, coming, chunks, trailers, rest);
    if d.poll_read(cx, max_len).2 matches Poll::Ready(Ok(Some(_))) {
        lemma_payload_left(chunks, 0);
    }
}

/// A read inside a chunk of a body that was aborted gives the data of the chunk,
/// or its end.
proof fn lemma_aborted_data<I>(
    d: ChunkDataView<I>,
    cx: Cx,
    max_len: nat,
    coming: Seq<u8>,
    chunks: Seq<Seq<u8>>,
    rest: Seq<u8>,
)
    requires
        chunk_comes(d, cx, coming, chunks, seq!['x' as u8] + rest),
    ensures
        ({
            let (t, cx2, p) = d.poll_read(cx, max_len);
            if p matches Poll::Ready(Ok(None)) {
                &&& chunks[0].len() == 0
                &&& chunks_come(t.finish(), cx2, coming, chunks.skip(1), seq!['x' as u8] + rest)
                &&& payload(chunks) == payload(chunks.skip(1))
            } else {
                refuses_aborted(
                    cx,
                    ChunkedView(Some(ChunkStreamView::InChunk(t))),
                    cx2,
                    p,
                    coming,
                    chunks,
                    rest,
                )
            }
        }),
{
    lemma_chunk_read(d, cx, max_len, coming, chunks, seq!['x' as u8] + rest);
    let (t, cx2, p) = d.poll_read(cx, max_len);
    let next = ChunkedView(Some(ChunkStreamView::InChunk(t)));
    if let Poll::Ready(Ok(Some(data))) = p {
        let n = data.len() as int;
        lemma_payload_left(chunks, n);
        assert(next.holds_aborted(cx2, coming, chunks_left(chunks, n), rest));
    } else if p is Pending {
        assert(next.holds_aborted(cx2, coming, chunks, rest));
    }
}

/// The header that stands in front of chunks, and what is behind the first of
/// them.
spec fn front_of(all: Seq<u8>, chunks: Seq<Seq<u8>>, end: Seq<u8>) -> (Seq<u8>, Seq<u8>) {
    choose|line: Seq<u8>, more: Seq<u8>|
        #[trigger] is_chunk_in_front(all, line, chunks[0], more) && is_chunks(
            more,
            chunks.skip(1),
            end,
        )
}

/// A read of a chunk header between chunks reads the header of the next of them.
proof fn lemma_head_read<I>(
    h: ChunkHeadView<I>,
    cx: Cx,
    coming: Seq<u8>,
    chunks: Seq<Seq<u8>>,
    end: Seq<u8>,
)
    requires
        reads_any_head(h, cx),
        chunks_come(h, cx, coming, chunks, end),
        chunks.len() > 0,
    ensures
        ({
            let (t, cx2, p) = h.poll_read_chunk(cx);
            match p {
                Poll::Ready(Ok(())) => {
                    &&& t.state matches ChunkHeadStateView::Data { size, .. } && size
                        == chunks[0].len()
                    &&& t.finish() matches NextChunkView::Data(d) && chunk_comes(
                        d,
                        cx2,
                        coming,
                        chunks,
                        end,
                    ) && d.slots == h.slots && d.strict == h.strict
                },
                Poll::Pending => {
                    &&& coming.len() > 0
                    &&& chunks_come(t, cx2, coming, chunks, end)
                    &&& t.slots == h.slots
                    &&& t.strict == h.strict
                    &&& cx2.read is None
                },
                Poll::Ready(Err(_)) => coming.len() > 0 && read_failed(cx),
            }
        }),
{
    let (t, cx2, p) = h.poll_read_chunk(cx);
    let all = unread(h.reader, cx) + coming;
    let (line, more) = front_of(all, chunks, end);
    let n = chunks[0].len() as u64;
    let rest = chunks[0] + crlf() + more;
    assert(is_chunk_in_front(all, line, chunks[0], more));
    assert(h.expects_chunk(cx, coming, line, n, rest));
    if p is Pending {
        assert(is_chunk_in_front(unread(t.reader, cx2) + coming, line, chunks[0], more));
    }
}

/// A read of a chunk header behind the chunks of a body reads the end of the body.
proof fn lemma_end_read<I>(
    h: ChunkHeadView<I>,
    cx: Cx,
    coming: Seq<u8>,
    trailers: Seq<Field>,
    rest: Seq<u8>,
)
    requires
        reads_any_head(h, cx),
        ChunkedView(Some(ChunkStreamView::BetweenChunk(h))).holds(
            cx,
            coming,
            Seq::empty(),
            trailers,
            rest,
        ),
    ensures
        ({
            let (t, cx2, p) = h.poll_read_chunk(cx);
            match p {
                Poll::Ready(Ok(())) => {
                    &&& t.finish() matches NextChunkView::Final(last) && last.trailers == trailers
                        && unread(last.reader, cx2) + coming == rest
                    &&& t.state is Final
                },
                Poll::Pending => {
                    &&& coming.len() > 0
                    &&& cx2.read is None
                    &&& ChunkedView(Some(ChunkStreamView::BetweenChunk(t))).holds(
                        cx2,
                        coming,
                        Seq::empty(),
                        trailers,
                        rest,
                    )
                },
                Poll::Ready(Err(_)) => coming.len() > 0 && read_failed(cx),
            }
        }),
{
    let (t, cx2, p) = h.poll_read_chunk(cx);
    let none = Seq::<Seq<u8>>::empty();
    let (line, section) = if h.state is ReadingSize {
        let end = choose|end: Seq<u8>|
            #[trigger] chunks_come(h, cx, coming, none, end) && is_body_end(
                end,
                trailers,
                rest,
                h.slots,
                h.strict,
            );
        choose|line: Seq<u8>, section: Seq<u8>|
            #[trigger] is_end_in_front(end, line, section, rest) && is_section(
                section,
                trailers,
                h.slots,
                h.strict,
            )
    } else {
        choose|line: Seq<u8>, section: Seq<u8>| #[trigger]
            h.expects_end(cx, coming, line, section, trailers, rest)
    };
    assert(h.expects_end(cx, coming, line, section, trailers, rest));
    if p is Pending {
        assert(t.expects_end(cx2, coming, line, section, trailers, rest));
        if t.state is ReadingSize {
            let end = unread(t.reader, cx2) + coming;
            assert(is_end_in_front(end, line, section, rest));
            assert(chunks_come(t, cx2, coming, none, end));
        }
    }
}

/// What comes to a reader is a matter of the reads alone.
pub proof fn lemma_holds_by_read<I>(s: ChunkedView<I>, cx: Cx, cx2: Cx)
    requires
        cx.read == cx2.read,
    ensures
        forall|coming: Seq<u8>, chunks: Seq<Seq<u8>>, trailers: Seq<Field>, rest: Seq<u8>|
            #[trigger] s.holds(cx, coming, chunks, trailers, rest) ==> s.holds(
                cx2,
                coming,
                chunks,
                trailers,
                rest,
            ),
{
    assert forall|coming: Seq<u8>, chunks: Seq<Seq<u8>>, trailers: Seq<Field>, rest: Seq<u8>|
        #[trigger] s.holds(cx, coming, chunks, trailers, rest) implies s.holds(
        cx2,
        coming,
        chunks,
        trailers,
        rest,
    ) by {
        lemma_holds_by_unread(s, cx, coming, cx2, coming, chunks, trailers, rest);
    }
}

/// What comes to a reader does not depend on how much of it has come already.
pub proof fn lemma_holds_by_unread<I>(
    s: ChunkedView<I>,
    cx: Cx,
    coming: Seq<u8>,
    cx2: Cx,
    coming2: Seq<u8>,
    chunks: Seq<Seq<u8>>,
    trailers: Seq<Field>,
    rest: Seq<u8>,
)
    requires
        s.holds(cx, coming, chunks, trailers, rest),
        s.unread(cx) + coming == s.unread(cx2) + coming2,
    ensures
        s.holds(cx2, coming2, chunks, trailers, rest),
{
    match s.0 {
        Some(ChunkStreamView::BetweenChunk(head)) => {
            if head.state is ReadingSize {
                let end = choose|end: Seq<u8>|
                    #[trigger] chunks_come(head, cx, coming, chunks, end) && is_body_end(
                        end,
                        trailers,
                        rest,
                        head.slots,
                        head.strict,
                    );
                assert(chunks_come(head, cx2, coming2, chunks, end));
            } else {
                let (line, section) = choose|line: Seq<u8>, section: Seq<u8>| #[trigger]
                    head.expects_end(cx, coming, line, section, trailers, rest);
                assert(head.expects_end(cx2, coming2, line, section, trailers, rest));
            }
        },
        Some(ChunkStreamView::InChunk(data)) => {
            let end = choose|end: Seq<u8>|
                #[trigger] chunk_comes(data, cx, coming, chunks, end) && is_body_end(
                    end,
                    trailers,
                    rest,
                    data.slots,
                    data.strict,
                );
            assert(chunk_comes(data, cx2, coming2, chunks, end));
        },
        _ => {},
    }
}

/// A read of a chunk header between the chunks of a body reads the header of the
/// next of them, or the end of the body.
pub proof fn lemma_between<I>(
    h: ChunkHeadView<I>,
    cx: Cx,
    coming: Seq<u8>,
    chunks: Seq<Seq<u8>>,
    trailers: Seq<Field>,
    rest: Seq<u8>,
)
    requires
        reads_any_head(h, cx),
        ChunkedView(Some(ChunkStreamView::BetweenChunk(h))).holds(
            cx,
            coming,
            chunks,
            trailers,
            rest,
        ),
    ensures
        ({
            let (t, cx2, p) = h.poll_read_chunk(cx);
            match p {
                Poll::Ready(Ok(())) => if chunks.len() == 0 {
                    &&& t.finish() matches NextChunkView::Final(last) && last.trailers == trailers
                        && unread(last.reader, cx2) + coming == rest
                } else {
                    &&& 0 < chunks[0].len() <= u64::MAX
                    &&& t.finish() matches NextChunkView::Data(d) && d.size == chunks[0].len()
                        && ChunkedView(Some(ChunkStreamView::InChunk(d))).holds(
                        cx2,
                        coming,
                        chunks,
                        trailers,
                        rest,
                    )
                },
                Poll::Pending => {
                    &&& coming.len() > 0
                    &&& cx2.read is None
                    &&& ChunkedView(Some(ChunkStreamView::BetweenChunk(t))).holds(
                        cx2,
                        coming,
                        chunks,
                        trailers,
                        rest,
                    )
                },
                Poll::Ready(Err(_)) => coming.len() > 0 && read_failed(cx),
            }
        }),
{
    let (t, cx1, p) = h.poll_read_chunk(cx);
    if chunks.len() == 0 {
        assert(chunks =~= Seq::empty());
        lemma_end_read(h, cx, coming, trailers, rest);
    } else {
        let end = choose|end: Seq<u8>|
            #[trigger] chunks_come(h, cx, coming, chunks, end) && is_body_end(
                end,
                trailers,
                rest,
                h.slots,
                h.strict,
            );
        lemma_head_read(h, cx, coming, chunks, end);
        if p matches Poll::Ready(Ok(())) {
            assert(t.finish() is Data);
        } else if p is Pending {
            assert(chunks_come(t, cx1, coming, chunks, end));
        }
    }
}

/// A read inside a chunk of a body gives the next of what is left of it: data, or
/// the end of the chunk.
pub proof fn lemma_in_chunk<I>(
    d: ChunkDataView<I>,
    cx: Cx,
    max_len: nat,
    coming: Seq<u8>,
    chunks: Seq<Seq<u8>>,
    trailers: Seq<Field>,
    rest: Seq<u8>,
)
    requires
        ChunkedView(Some(ChunkStreamView::InChunk(d))).holds(cx, coming, chunks, trailers, rest),
    ensures
        ({
            let (t, cx2, p) = d.poll_read(cx, max_len);
            let next = ChunkedView(Some(ChunkStreamView::InChunk(t)));
            match p {
                Poll::Ready(Ok(Some(data))) => {
                    let n = data.len() as int;
                    &&& chunks[0].len() > 0
                    &&& data == chunks[0].take(n)
                    &&& n <= chunks[0].len()
                    &&& n <= max_len
                    &&& max_len > 0 ==> n > 0
                    &&& next.holds(cx2, coming, chunks_left(chunks, n), trailers, rest)
                    &&& payload(chunks) == data + payload(chunks_left(chunks, n))
                },
                Poll::Ready(Ok(None)) => {
                    &&& chunks[0].len() == 0
                    &&& ChunkedView(Some(ChunkStreamView::BetweenChunk(t.finish()))).holds(
                        cx2,
                        coming,
                        chunks.skip(1),
                        trailers,
                        rest,
                    )
                    &&& payload(chunks) == payload(chunks.skip(1))
                },
                Poll::Pending => {
                    &&& coming.len() > 0
                    &&& cx2.read is None
                    &&& next.holds(cx2, coming, chunks, trailers, rest)
                },
                Poll::Ready(Err(_)) => coming.len() > 0 && read_failed(cx),
            }
        }),
{
    let end = choose|end: Seq<u8>|
        #[trigger] chunk_comes(d, cx, coming, chunks, end) && is_body_end(
            end,
            trailers,
            rest,
            d.slots,
            d.strict,
        );
    lemma_chunk_read(d, cx, max_len, coming, chunks, end);
    let (t, cx2, p) = d.poll_read(cx, max_len);
    if let Poll::Ready(Ok(Some(data))) = p {
        lemma_payload_left(chunks, data.len() as int);
    }
}

/// A read between chunks reads the body back.
proof fn lemma_next_reads_back<I>(
    h: ChunkHeadView<I>,
    cx: Cx,
    max_len: nat,
    coming: Seq<u8>,
    chunks: Seq<Seq<u8>>,
    trailers: Seq<Field>,
    rest: Seq<u8>,
)
    requires
        reads_any_head(h, cx),
        ChunkedView(Some(ChunkStreamView::BetweenChunk(h))).holds(
            cx,
            coming,
            chunks,
            trailers,
            rest,
        ),
    ensures
        ({
            let (t, cx2, p) = h.poll_read_data(cx, max_len);
            reads_back(cx, t, cx2, p, max_len, coming, chunks, trailers, rest)
        }),
{
    lemma_between(h, cx, coming, chunks, trailers, rest);
    let (t, cx1, p) = h.poll_read_chunk(cx);
    if p matches Poll::Ready(Ok(())) {
        if let NextChunkView::Data(d) = t.finish() {
            lemma_data_reads_back(d, cx1, max_len, coming, chunks, trailers, rest);
        }
    }
}

/// A read between the chunks of a body that was aborted refuses it, or gives data
/// that stands before the abort.
proof fn lemma_next_refuses<I>(
    h: ChunkHeadView<I>,
    cx: Cx,
    max_len: nat,
    coming: Seq<u8>,
    chunks: Seq<Seq<u8>>,
    rest: Seq<u8>,
)
    requires
        reads_any_head(h, cx),
        chunks_come(h, cx, coming, chunks, seq!['x' as u8] + rest),
    ensures
        ({
            let (t, cx2, p) = h.poll_read_data(cx, max_len);
            refuses_aborted(cx, t, cx2, p, coming, chunks, rest)
        }),
{
    let end = seq!['x' as u8] + rest;
    let (t, cx1, p) = h.poll_read_chunk(cx);
    let between = ChunkedView(Some(ChunkStreamView::BetweenChunk(t)));
    if chunks.len() == 0 {
        assert(poison_comes(unread(h.reader, cx), coming, rest));
        if p is Pending {
            assert(between.holds_aborted(cx1, coming, chunks, rest));
        }
    } else {
        lemma_head_read(h, cx, coming, chunks, end);
        if p matches Poll::Ready(Ok(())) {
            if let NextChunkView::Data(d) = t.finish() {
                lemma_aborted_data(d, cx1, max_len, coming, chunks, rest);
            }
        } else if p is Pending {
            assert(between.holds_aborted(cx1, coming, chunks, rest));
        }
    }
}

/// Every chunk header that a read comes to is read for what it is.
pub open spec fn reads_heads<I>(s: ChunkedView<I>, cx: Cx, max_len: nat) -> bool {
    match s.0 {
        Some(ChunkStreamView::BetweenChunk(head)) => reads_any_head(head, cx),
        Some(ChunkStreamView::InChunk(data)) => {
            let (t, cx1, p) = data.poll_read(cx, max_len);
            (p matches Poll::Ready(Ok(None))) ==> reads_any_head(t.finish(), cx1)
        },
        _ => true,
    }
}

proof fn lemma_reads_any_body_back<I>(s: ChunkedView<I>, cx: Cx, max_len: nat)
    requires
        reads_heads(s, cx, max_len),
    ensures
        reads_any_body_back(s, cx, max_len),
{
    let (t, cx2, p) = s.poll_read(cx, max_len);
    assert forall|coming: Seq<u8>, chunks: Seq<Seq<u8>>, trailers: Seq<Field>, rest: Seq<u8>|
        #[trigger] s.holds(cx, coming, chunks, trailers, rest) implies reads_back(
        cx,
        t,
        cx2,
        p,
        max_len,
        coming,
        chunks,
        trailers,
        rest,
    ) by {
        match s.0 {
            Some(ChunkStreamView::BetweenChunk(head)) => {
                lemma_next_reads_back(head, cx, max_len, coming, chunks, trailers, rest);
            },
            Some(ChunkStreamView::InChunk(data)) => {
                lemma_data_reads_back(data, cx, max_len, coming, chunks, trailers, rest);
                chunk_read_takes_reads(data, cx, max_len);
                let (d, cx1, q) = data.poll_read(cx, max_len);
                if q matches Poll::Ready(Ok(None)) {
                    let left = chunks.skip(1);
                    lemma_next_reads_back(d.finish(), cx1, max_len, coming, left, trailers, rest);
                    if left.len() > 0 {
                        lemma_chunks_have_data(d.finish(), cx1, coming, left, trailers, rest);
                    }
                }
            },
            _ => {},
        }
    }
}

proof fn lemma_chunks_have_data<I>(
    h: ChunkHeadView<I>,
    cx: Cx,
    coming: Seq<u8>,
    chunks: Seq<Seq<u8>>,
    trailers: Seq<Field>,
    rest: Seq<u8>,
)
    requires
        chunks.len() > 0,
        ChunkedView(Some(ChunkStreamView::BetweenChunk(h))).holds(
            cx,
            coming,
            chunks,
            trailers,
            rest,
        ),
    ensures
        chunks[0].len() > 0,
{
}

proof fn lemma_refuses_any_aborted_body<I>(s: ChunkedView<I>, cx: Cx, max_len: nat)
    requires
        reads_heads(s, cx, max_len),
    ensures
        refuses_any_aborted_body(s, cx, max_len),
{
    let (t, cx2, p) = s.poll_read(cx, max_len);
    assert forall|coming: Seq<u8>, chunks: Seq<Seq<u8>>, rest: Seq<u8>|
        #[trigger] s.holds_aborted(cx, coming, chunks, rest) implies refuses_aborted(
        cx,
        t,
        cx2,
        p,
        coming,
        chunks,
        rest,
    ) by {
        match s.0 {
            Some(ChunkStreamView::BetweenChunk(head)) => {
                lemma_next_refuses(head, cx, max_len, coming, chunks, rest);
            },
            Some(ChunkStreamView::InChunk(data)) => {
                lemma_aborted_data(data, cx, max_len, coming, chunks, rest);
                chunk_read_takes_reads(data, cx, max_len);
                let (d, cx1, q) = data.poll_read(cx, max_len);
                if q matches Poll::Ready(Ok(None)) {
                    lemma_next_refuses(d.finish(), cx1, max_len, coming, chunks.skip(1), rest);
                }
            },
            _ => {},
        }
    }
}

/// The data of chunks is what is taken from the first, and the data that is
/// left.
pub proof fn lemma_payload_left(chunks: Seq<Seq<u8>>, n: int)
    requires
        chunks.len() > 0,
        0 <= n <= chunks[0].len(),
    ensures
        payload(chunks) == chunks[0].take(n) + payload(chunks_left(chunks, n)),
        payload(chunks).len() >= chunks[0].len(),
{
    let left = chunks_left(chunks, n);
    assert(left.skip(1) =~= chunks.skip(1));
    assert(payload(chunks) =~= chunks[0].take(n) + payload(left));
}

impl<I> View for ChunkedBodyReader<I> {
    type V = ChunkedView<I>;

    closed spec fn view(&self) -> ChunkedView<I> {
        ChunkedView(
            match self.inner {
                None => None,
                Some(ChunkedBodyChunkStream::InChunk(data)) => Some(ChunkStreamView::InChunk(data@)),
                Some(ChunkedBodyChunkStream::BetweenChunk(head)) => Some(
                    ChunkStreamView::BetweenChunk(head@),
                ),
                Some(ChunkedBodyChunkStream::Done(last)) => Some(ChunkStreamView::Done(last@)),
            },
        )
    }
}

impl<I> ChunkedBodyReader<I> {
    /// A reader at the start of a body.
    pub fn new(reader: BytesReader<I>, parse_slots: ParseSlots) -> (r: Self)
        ensures
            r@ == ChunkedView(
                Some(
                    ChunkStreamView::BetweenChunk(
                        ChunkHeadView {
                            reader: reader@,
                            slots: parse_slots@,
                            strict: false,
                            state: ChunkHeadStateView::ReadingSize,
                        },
                    ),
                ),
            ),
    {
        Self {
            inner: Some(
                ChunkedBodyChunkStream::BetweenChunk(
                    ChunkHeadReader::new(reader, parse_slots, false),
                ),
            ),
        }
    }

    /// A reader at the start of a body that holds the trailer section to the
    /// grammar of trailer fields.
    pub fn with_strict_trailers(reader: BytesReader<I>, parse_slots: ParseSlots) -> (r: Self)
        ensures
            r@ == ChunkedView(
                Some(
                    ChunkStreamView::BetweenChunk(
                        ChunkHeadView {
                            reader: reader@,
                            slots: parse_slots@,
                            strict: true,
                            state: ChunkHeadStateView::ReadingSize,
                        },
                    ),
                ),
            ),
    {
        Self {
            inner: Some(
                ChunkedBodyChunkStream::BetweenChunk(
                    ChunkHeadReader::new(reader, parse_slots, true),
                ),
            ),
        }
    }

    /// Whether there is nothing more to read: the end of the body has been
    /// seen, or a read has failed.
    pub fn drained(&self) -> (r: bool)
        ensures
            r == self@.is_drained(),
    {
        match self.inner {
            None => true,
            Some(ChunkedBodyChunkStream::Done(_)) => true,
            _ => false,
        }
    }

    /// Read the next chunk header, and then data of its chunk.
    fn poll_next(&mut self, mut head: ChunkHeadReader<I>, cx: &mut Context, max_len: usize) -> (r:
        Poll<BodyResult<Option<Bytes>>>)
        requires
            old(self)@.0 is None,
        ensures
            (final(self)@, final(cx)@, data_view(r)) == head@.poll_read_data(
                old(cx)@,
                max_len as nat,
            ),
            (r matches Poll::Ready(Ok(None))) ==> final(self)@.0 is Some && final(self)@.is_drained(),
            final(self)@.0 is Some ==> is_tail(
                final(self)@.unread(final(cx)@),
                unread(head@.reader, old(cx)@),
            ),
            (r matches Poll::Ready(Ok(Some(_)))) && max_len > 0 ==> final(self)@.unread(
                final(cx)@).len() < unread(head@.reader, old(cx)@).len(),
            final(cx)@.read == old(cx)@.read || final(cx)@.read is None,
            reads_any_head(head@, old(cx)@),
    {
        let ghost head0 = head@;
        let ghost cx0 = cx@;
        match head.poll_read_chunk(cx) {
            Poll::Pending => {
                self.inner = Some(ChunkedBodyChunkStream::BetweenChunk(head));
                Poll::Pending
            },
            Poll::Ready(Err(e)) => Poll::Ready(Err(e)),
            Poll::Ready(Ok(())) => match head.finish() {
                NextChunk::Data(mut data) => {
                    let ghost start = unread(head0.reader, cx0);
                    proof {
                        chunk_read_is_exact(data@, cx@, max_len as nat);
                        chunk_read_takes_reads(data@, cx@, max_len as nat);
                    }
                    let read = data.poll_read(cx, max_len);
                    proof {
                        let left = unread(data@.reader, cx@);
                        assert(left =~= start.skip(start.len() - left.len()));
                    }
                    match read {
                        Poll::Ready(Err(e)) => Poll::Ready(Err(e)),
                        read => {
                            self.inner = Some(ChunkedBodyChunkStream::InChunk(data));
                            read
                        },
                    }
                },
                NextChunk::Final(last) => {
                    self.inner = Some(ChunkedBodyChunkStream::Done(last));
                    Poll::Ready(Ok(None))
                },
            },
        }
    }

    /// Read at most `max_len` bytes of the data of the body; `None` at its
    /// end. Data, end and trailers are read for what they are, however they come in
    /// and however they are spelled; and a body that was aborted is not taken for a
    /// whole one.
    pub fn poll_read(&mut self, cx: &mut Context, max_len: usize) -> (r: Poll<
        BodyResult<Option<Bytes>>,
    >)
        ensures
            (final(self)@, final(cx)@, data_view(r)) == old(self)@.poll_read(
                old(cx)@,
                max_len as nat,
            ),
            (r matches Poll::Ready(Ok(None))) ==> final(self)@.0 is Some && final(self)@.is_drained(),
            final(self)@.0 is Some ==> is_tail(
                final(self)@.unread(final(cx)@),
                old(self)@.unread(old(cx)@),
            ),
            (r matches Poll::Ready(Ok(Some(_)))) && max_len > 0 ==> final(self)@.unread(
                final(cx)@).len() < old(self)@.unread(old(cx)@).len(),
            reads_any_body_back(old(self)@, old(cx)@, max_len as nat),
            refuses_any_aborted_body(old(self)@, old(cx)@, max_len as nat),
            final(cx)@.read == old(cx)@.read || final(cx)@.read is None,
    {
        let ghost start = self@.unread(cx@);
        assert(start.skip(0) =~= start);
        let r = match self.inner.take() {
            // We get left with a None after an error, which does not
            // replace inner.
            None => Poll::Ready(Err(BodyError::ReadAfterError)),
            Some(ChunkedBodyChunkStream::Done(last)) => {
                self.inner = Some(ChunkedBodyChunkStream::Done(last));
                Poll::Ready(Ok(None))
            },
            Some(ChunkedBodyChunkStream::BetweenChunk(head)) => self.poll_next(head, cx, max_len),
            Some(ChunkedBodyChunkStream::InChunk(mut data)) => {
                let ghost d = data@;
                let ghost cx0 = cx@;
                proof {
                    chunk_read_is_exact(d, cx0, max_len as nat);
                    chunk_read_takes_reads(d, cx0, max_len as nat);
                }
                match data.poll_read(cx, max_len) {
                    Poll::Ready(Err(e)) => Poll::Ready(Err(e)),
                    Poll::Ready(Ok(None)) => {
                        // The chunk body and footer are fully consumed.
                        let ghost middle = unread(data@.reader, cx@);
                        let r = self.poll_next(data.finish(), cx, max_len);
                        proof {
                            if self@.0 is Some {
                                let left = self@.unread(cx@);
                                assert(left =~= start.skip(start.len() - left.len()));
                            }
                        }
                        r
                    },
                    read => {
                        self.inner = Some(ChunkedBodyChunkStream::InChunk(data));
                        read
                    },
                }
            },
        };
        proof {
            lemma_reads_any_body_back(old(self)@, old(cx)@, max_len as nat);
            lemma_refuses_any_aborted_body(old(self)@, old(cx)@, max_len as nat);
        }
        r
    }

    /// Read the body to its end, and drop it.
    pub fn poll_drain(&mut self, cx: &mut Context) -> (r: Poll<BodyResult<()>>)
        ensures
            exists|n: nat| #[trigger]
                old(self)@.poll_drain(old(cx)@, n) == Some((final(self)@, final(cx)@, r)),
            (r matches Poll::Ready(Ok(()))) ==> final(self)@.0 is Some && final(self)@.is_drained(),
            drains_any_body(old(self)@, old(cx)@, final(self)@, final(cx)@, r),
    {
        let ghost mut k: nat = 0;
        loop
            invariant
                forall|n: nat| #[trigger]
                    self@.poll_drain(cx@, n) == old(self)@.poll_drain(old(cx)@, n + k),
                cx@.read == old(cx)@.read || cx@.read is None,
                forall|coming: Seq<u8>, chunks: Seq<Seq<u8>>, trailers: Seq<Field>, rest: Seq<u8>|
                    #[trigger] old(self)@.holds(old(cx)@, coming, chunks, trailers, rest)
                        ==> exists|left: Seq<Seq<u8>>| #[trigger]
                        self@.holds(cx@, coming, left, trailers, rest),
                forall|coming: Seq<u8>, chunks: Seq<Seq<u8>>, rest: Seq<u8>|
                    #[trigger] old(self)@.holds_aborted(old(cx)@, coming, chunks, rest)
                        ==> exists|left: Seq<Seq<u8>>| #[trigger]
                        self@.holds_aborted(cx@, coming, left, rest),
            decreases self@.unread(cx@).len(),
        {
            let ghost before = self@;
            let ghost cx0 = cx@;
            let read = self.poll_read(cx, DRAIN_SIZE);
            proof {
                assert(before.poll_drain(cx0, 1) == old(self)@.poll_drain(old(cx)@, 1 + k));
                reveal_with_fuel(ChunkedView::poll_drain, 2);
            }
            match read {
                Poll::Pending => return Poll::Pending,
                Poll::Ready(Err(e)) => return Poll::Ready(Err(e)),
                Poll::Ready(Ok(None)) => return Poll::Ready(Ok(())),
                Poll::Ready(Ok(Some(_))) => {
                    proof {
                        assert forall|n: nat| #[trigger]
                            self@.poll_drain(cx@, n) == old(self)@.poll_drain(
                            old(cx)@,
                            n + (k + 1),
                        ) by {
                            assert(before.poll_drain(cx0, n + 1) == old(self)@.poll_drain(
                                old(cx)@,
                                n + 1 + k,
                            ));
                        }
                        k = k + 1;
                    }
                },
            }
        }
    }

    /// Finish the chunked body reader and return the inner parts. The reader
    /// has to have been fully drained, without an error.
    pub fn finish(self) -> (r: (BytesReader<I>, ParseSlots, Headers))
        requires
            self@.0 is Some && self@.0->Some_0 is Done,
        ensures
            r.0@ == self@.0->Some_0->Done_0.reader,
            r.1@ == self@.0->Some_0->Done_0.slots,
            r.2@ == self@.0->Some_0->Done_0.trailers,
    {
        let Self { inner } = self;
        match inner {
            Some(ChunkedBodyChunkStream::Done(last)) => last.into_parts(),
            _ => unreached(),
        }
    }
}

/// A read hands out no more than asked for, and at least one byte where any is
/// asked for and data is given.
pub proof fn chunked_read_is_bounded<I>(s: ChunkedView<I>, cx: Cx, max_len: nat)
    ensures
        s.poll_read(cx, max_len).2 matches Poll::Ready(Ok(Some(data))) ==> data.len() <= max_len && (
        max_len > 0 ==> data.len() > 0),
{
    match s.0 {
        Some(ChunkStreamView::InChunk(data)) => {
            chunk_read_is_exact(data, cx, max_len);
            let (data, cx1, _) = data.poll_read(cx, max_len);
            lemma_next_is_bounded(data.finish(), cx1, max_len);
        },
        Some(ChunkStreamView::BetweenChunk(head)) => {
            lemma_next_is_bounded(head, cx, max_len);
        },
        _ => {},
    }
}

proof fn lemma_next_is_bounded<I>(head: ChunkHeadView<I>, cx: Cx, max_len: nat)
    ensures
        head.poll_read_data(cx, max_len).2 matches Poll::Ready(Ok(Some(data))) ==> data.len()
            <= max_len && (max_len > 0 ==> data.len() > 0),
{
    let (head, cx1, p) = head.poll_read_chunk(cx);
    if p matches Poll::Ready(Ok(())) {
        if let NextChunkView::Data(data) = head.finish() {
            chunk_read_is_exact(data, cx1, max_len);
        }
    }
}

/// After a failure every read fails, and does nothing else; after the end of
/// the body every read tells the end.
pub proof fn chunked_end_is_final<I>(s: ChunkedView<I>, cx: Cx, max_len: nat)
    ensures
        s.0 is None ==> s.poll_read(cx, max_len) == (
            s,
            cx,
            Poll::Ready(Err::<Option<Seq<u8>>, _>(BodyError::ReadAfterError)),
        ),
        s.0 is Some && s.is_drained() ==> s.poll_read(cx, max_len) == (
            s,
            cx,
            Poll::Ready(Ok::<Option<Seq<u8>>, BodyError>(None)),
        ),
        (s.poll_read(cx, max_len).2 matches Poll::Ready(Err(_))) ==> s.poll_read(
            cx,
            max_len,
        ).0.0 is None,
{
}

impl<I> ChunkedView<I> {
    /// What holds of a reader from its creation on.
    pub open spec fn is_valid(self) -> bool {
        self.0 matches Some(ChunkStreamView::BetweenChunk(head)) ==> head.is_valid()
    }
}

proof fn lemma_next_keeps_valid<I>(head: ChunkHeadView<I>, cx: Cx, max_len: nat)
    requires
        head.is_valid(),
    ensures
        head.poll_read_data(cx, max_len).0.is_valid(),
        (head.poll_read_data(cx, max_len).2 matches Poll::Ready(Ok(None)))
            ==> head.poll_read_data(cx, max_len).0.is_drained(),
{
    header_read_keeps_valid(head, cx);
    let (head, cx1, p) = head.poll_read_chunk(cx);
    if p matches Poll::Ready(Ok(())) {
        if let NextChunkView::Data(data) = head.finish() {
            chunk_read_takes_reads(data, cx1, max_len);
        }
    }
}

/// A read keeps a reader valid; and where it tells the end of the body, there is
/// nothing more to read.
pub proof fn chunked_read_keeps_valid<I>(s: ChunkedView<I>, cx: Cx, max_len: nat)
    requires
        s.is_valid(),
    ensures
        s.poll_read(cx, max_len).0.is_valid(),
        (s.poll_read(cx, max_len).2 matches Poll::Ready(Ok(None))) ==> s.poll_read(
            cx,
            max_len,
        ).0.is_drained(),
{
    match s.0 {
        Some(ChunkStreamView::InChunk(data)) => {
            let (data, cx1, _) = data.poll_read(cx, max_len);
            lemma_next_keeps_valid(data.finish(), cx1, max_len);
        },
        Some(ChunkStreamView::BetweenChunk(head)) => {
            lemma_next_keeps_valid(head, cx, max_len);
        },
        _ => {},
    }
}

/// The buffers that have data.
pub open spec fn with_data(buffers: Seq<Seq<u8>>) -> Seq<Seq<u8>>
    decreases buffers.len(),
{
    if buffers.len() == 0 {
        Seq::empty()
    } else if buffers[0].len() == 0 {
        with_data(buffers.skip(1))
    } else {
        seq![buffers[0]] + with_data(buffers.skip(1))
    }
}

proof fn lemma_with_data(buffers: Seq<Seq<u8>>)
    requires
        forall|i: int| 0 <= i < buffers.len() ==> (#[trigger] buffers[i]).len() <= u64::MAX,
    ensures
        are_chunks(with_data(buffers)),
        encode_chunks(with_data(buffers)) == encode_chunks(buffers),
        payload(with_data(buffers)) == payload(buffers),
    decreases buffers.len(),
{
    if buffers.len() > 0 {
        let tail = buffers.skip(1);
        lemma_with_data(tail);
        if buffers[0].len() == 0 {
            assert(encode_chunks(buffers) =~= encode_chunks(tail));
            assert(payload(buffers) =~= payload(tail));
        } else {
            let all = with_data(buffers);
            assert(all.skip(1) =~= with_data(tail));
        }
    }
}

/// What a writer puts on the wire is read back: a reader at the start of a body
/// to which the chunks of any buffers come, behind them the end of the body with
/// its trailer fields, and then whatever follows, reads the data of the buffers,
/// the trailer fields, and not a byte of what follows.
pub proof fn written_body_is_read_back<I>(
    head: ChunkHeadView<I>,
    cx: Cx,
    coming: Seq<u8>,
    buffers: Seq<Seq<u8>>,
    trailers: Seq<Field>,
    rest: Seq<u8>,
)
    requires
        head.state is ReadingSize,
        are_plain(trailers, head.strict),
        trailers.len() <= head.slots,
        forall|i: int| 0 <= i < buffers.len() ==> (#[trigger] buffers[i]).len() <= u64::MAX,
        unread(head.reader, cx) + coming == encode_chunks(buffers) + encode_end(trailers) + rest,
    ensures
        ChunkedView(Some(ChunkStreamView::BetweenChunk(head))).holds(
            cx,
            coming,
            with_data(buffers),
            trailers,
            rest,
        ),
        payload(with_data(buffers)) == payload(buffers),
{
    lemma_with_data(buffers);
    let end = encode_end(trailers) + rest;
    assert(encode_chunks(buffers) + encode_end(trailers) + rest =~= encode_chunks(buffers) + end);
    lemma_encoded_is_chunks(with_data(buffers), end);
    lemma_encoded_is_end(trailers, rest, head.slots, head.strict);
    assert(chunks_come(head, cx, coming, with_data(buffers), end));
}

/// Chunks are spelled as they are written.
proof fn lemma_encoded_is_chunks(chunks: Seq<Seq<u8>>, end: Seq<u8>)
    requires
        are_chunks(chunks),
    ensures
        is_chunks(encode_chunks(chunks) + end, chunks, end),
    decreases chunks.len(),
{
    if chunks.len() == 0 {
        assert(encode_chunks(chunks) + end =~= end);
    } else {
        let first = chunks[0];
        let tail = chunks.skip(1);
        assert(0 < first.len() <= u64::MAX);
        lemma_encoded_is_chunks(tail, end);
        written_header_is_chunk_line(first.len() as u64);
        let all = encode_chunks(chunks) + end;
        let more = encode_chunks(tail) + end;
        assert(all =~= chunk_head(first.len()) + (first + crlf() + more));
        assert(is_chunk_in_front(all, chunk_head(first.len()), first, more));
    }
}

/// The end of a body is spelled as it is written.
proof fn lemma_encoded_is_end(trailers: Seq<Field>, rest: Seq<u8>, slots: nat, strict: bool)
    requires
        are_plain(trailers, strict),
        trailers.len() <= slots,
    ensures
        is_body_end(encode_end(trailers) + rest, trailers, rest, slots, strict),
{
    let section = field_lines(trailers) + crlf();
    let end = encode_end(trailers) + rest;
    written_header_is_chunk_line(0);
    assert(end =~= chunk_head(0) + (section + rest));
    assert(is_end_in_front(end, chunk_head(0), section, rest));
}

impl<I> ChunkedView<I> {
    /// The reader after several reads.
    pub open spec fn after(self, steps: Seq<ReadStep>) -> Self
        decreases steps.len(),
    {
        if steps.len() == 0 {
            self
        } else {
            self.after(steps.drop_last()).poll_read(steps.last().cx, steps.last().max_len).0
        }
    }

    /// What several reads have given, one after the other.
    pub open spec fn read_by(self, steps: Seq<ReadStep>) -> Seq<u8>
        decreases steps.len(),
    {
        if steps.len() == 0 {
            Seq::empty()
        } else {
            self.read_by(steps.drop_last()) + given(
                self.after(steps.drop_last()).poll_read(
                    steps.last().cx,
                    steps.last().max_len,
                ).2,
            )
        }
    }

    /// The reads follow each other: each reads bodies back, the transport does not
    /// fail, and between two of them bytes only come in, in order, of those that
    /// were still to come.
    pub open spec fn follow(self, steps: Seq<ReadStep>) -> bool
        decreases steps.len(),
    {
        steps.len() > 0 ==> {
            let before = steps.drop_last();
            let s = self.after(before);
            let last = steps.last();
            &&& self.follow(before)
            &&& reads_any_body_back(s, last.cx, last.max_len)
            &&& !read_failed(last.cx)
            &&& before.len() > 0 ==> {
                let (t, cx2, _) = self.after(before.drop_last()).poll_read(
                    before.last().cx,
                    before.last().max_len,
                );
                s.unread(last.cx) + last.coming == t.unread(cx2) + before.last().coming
            }
        }
    }

    /// `data` has been read of a body with the data of `chunks`, and what is
    /// unread, and still to come, is the rest of it.
    pub open spec fn has_read(
        self,
        cx: Cx,
        coming: Seq<u8>,
        data: Seq<u8>,
        chunks: Seq<Seq<u8>>,
        trailers: Seq<Field>,
        rest: Seq<u8>,
    ) -> bool {
        ||| self.is_done(cx, coming, trailers, rest) && data == payload(chunks)
        ||| exists|left: Seq<Seq<u8>>|
            #[trigger] self.holds(cx, coming, left, trailers, rest) && payload(chunks) == data
                + payload(left)
    }
}

/// Over all reads of a body, however it comes in: what they have given is the front
/// of the data of its chunks, one after the other, and no read fails; and once one
/// has told the end of the body, they have given all of it, the trailer fields are
/// those of the body, and what follows is unread.
pub proof fn reads_give_the_body<I>(
    s: ChunkedView<I>,
    steps: Seq<ReadStep>,
    chunks: Seq<Seq<u8>>,
    trailers: Seq<Field>,
    rest: Seq<u8>,
)
    requires
        steps.len() > 0,
        s.follow(steps),
        s.holds(steps[0].cx, steps[0].coming, chunks, trailers, rest),
    ensures
        ({
            let last = steps.last();
            let (t, cx2, p) = s.after(steps.drop_last()).poll_read(last.cx, last.max_len);
            &&& !(p matches Poll::Ready(Err(_)))
            &&& t.has_read(cx2, last.coming, s.read_by(steps), chunks, trailers, rest)
            &&& (p matches Poll::Ready(Ok(None))) ==> {
                &&& s.read_by(steps) == payload(chunks)
                &&& t.is_done(cx2, last.coming, trailers, rest)
                &&& t.is_drained()
            }
        }),
    decreases steps.len(),
{
    let before = steps.drop_last();
    let last = steps.last();
    let s1 = s.after(before);
    let (t, cx2, p) = s1.poll_read(last.cx, last.max_len);
    let seen = s.read_by(before);
    let data = s.read_by(steps);
    assert(data =~= seen + given(p));
    if before.len() > 0 {
        assert(before[0] == steps[0]);
        reads_give_the_body(s, before, chunks, trailers, rest);
        let (_, cx1, _) = s.after(before.drop_last()).poll_read(
            before.last().cx,
            before.last().max_len,
        );
        let prior = before.last().coming;
        assert(s1.has_read(cx1, prior, seen, chunks, trailers, rest));
        if s1.is_done(cx1, prior, trailers, rest) && seen == payload(chunks) {
            assert(s1.is_done(last.cx, last.coming, trailers, rest));
        } else {
            let left = choose|left: Seq<Seq<u8>>|
                #[trigger] s1.holds(cx1, prior, left, trailers, rest) && payload(chunks) == seen
                    + payload(left);
            lemma_holds_by_unread(s1, cx1, prior, last.cx, last.coming, left, trailers, rest);
        }
    } else {
        assert(seen + payload(chunks) =~= payload(chunks));
    }
    assert(s1.has_read(last.cx, last.coming, seen, chunks, trailers, rest));
    if s1.is_done(last.cx, last.coming, trailers, rest) && seen == payload(chunks) {
        assert(data =~= seen);
    } else {
        let left = choose|left: Seq<Seq<u8>>|
            #[trigger] s1.holds(last.cx, last.coming, left, trailers, rest) && payload(chunks)
                == seen + payload(left);
        assert(reads_back(
            last.cx,
            t,
            cx2,
            p,
            last.max_len,
            last.coming,
            left,
            trailers,
            rest,
        ));
        match p {
            Poll::Ready(Ok(None)) => {
                assert(data =~= payload(chunks));
            },
            Poll::Ready(Ok(Some(piece))) => {
                let left2 = choose|left2: Seq<Seq<u8>>|
                    #[trigger] t.holds(cx2, last.coming, left2, trailers, rest) && payload(left)
                        == piece + payload(left2);
                assert(seen + (piece + payload(left2)) =~= data + payload(left2));
            },
            Poll::Pending => {
                assert(data =~= seen);
            },
            _ => {},
        }
    }
}

/// As long as a byte of a body is still to come, no read tells the end of the
/// body: a body that is cut off is not taken for a whole one.
pub proof fn cut_body_is_not_complete<I>(
    s: ChunkedView<I>,
    cx: Cx,
    max_len: nat,
    coming: Seq<u8>,
    chunks: Seq<Seq<u8>>,
    trailers: Seq<Field>,
    rest: Seq<u8>,
)
    requires
        reads_any_body_back(s, cx, max_len),
        s.holds(cx, coming, chunks, trailers, rest),
        coming.len() > rest.len(),
    ensures
        !(s.poll_read(cx, max_len).2 matches Poll::Ready(Ok(None))),
{
    let (t, cx2, p) = s.poll_read(cx, max_len);
    assert(reads_back(cx, t, cx2, p, max_len, coming, chunks, trailers, rest));
    if p matches Poll::Ready(Ok(None)) {
        assert((t.unread(cx2) + coming).len() == rest.len());
    }
}

/// A failure inside a body is told as it came, whether in a chunk or between chunks; a pending
/// read stays where it is; and what a chunk gives is given. Behind the last byte of a chunk,
/// the read goes on with the next header; behind the last chunk, it tells the end.
pub proof fn reads_tell_what_the_chunk_tells<I>(s: ChunkedView<I>, cx: Cx, max_len: nat)
    ensures
        ({
            let (t, cx2, p) = s.poll_read(cx, max_len);
            match s.0 {
                None => t == s && cx2 == cx && (p matches Poll::Ready(
                    Err(BodyError::ReadAfterError),
                )),
                Some(ChunkStreamView::Done(_)) => t == s && cx2 == cx && (p matches Poll::Ready(
                    Ok(None),
                )),
                Some(ChunkStreamView::InChunk(data)) => {
                    let (next, cx1, q) = data.poll_read(cx, max_len);
                    match q {
                        Poll::Pending => p is Pending && cx2 == cx1 && t.0 == Some(
                            ChunkStreamView::InChunk(next),
                        ),
                        Poll::Ready(Ok(Some(bytes))) => p == Poll::Ready(
                            Ok::<_, BodyError>(Some(bytes)),
                        ) && cx2 == cx1 && t.0 == Some(ChunkStreamView::InChunk(next)),
                        Poll::Ready(Err(e)) => p == Poll::Ready(
                            Err::<Option<Seq<u8>>, _>(e),
                        ) && cx2 == cx1 && t.0 is None,
                        Poll::Ready(Ok(None)) => {
                            let between = ChunkHeadView {
                                reader: next.reader,
                                slots: next.slots,
                                strict: next.strict,
                                state: ChunkHeadStateView::ReadingSize,
                            };
                            (t, cx2, p) == ChunkedView(
                                Some(ChunkStreamView::BetweenChunk(between)),
                            ).poll_read(cx1, max_len)
                        },
                    }
                },
                Some(ChunkStreamView::BetweenChunk(head)) => {
                    let (next, cx1, q) = head.poll_read_chunk(cx);
                    match q {
                        Poll::Pending => p is Pending && cx2 == cx1 && t.0 == Some(
                            ChunkStreamView::BetweenChunk(next),
                        ),
                        Poll::Ready(Err(e)) => p == Poll::Ready(
                            Err::<Option<Seq<u8>>, _>(e),
                        ) && cx2 == cx1 && t.0 is None,
                        Poll::Ready(Ok(())) => match next.finish() {
                            NextChunkView::Final(last) => p == Poll::Ready(
                                Ok::<Option<Seq<u8>>, BodyError>(None),
                            ) && cx2 == cx1 && t.0 == Some(ChunkStreamView::Done(last)),
                            NextChunkView::Data(data) => {
                                let (d, cx3, r) = data.poll_read(cx1, max_len);
                                &&& p == r
                                &&& cx2 == cx3
                                &&& r is Ready && r->Ready_0 is Err ==> t.0 is None
                                &&& r is Pending || r->Ready_0 is Ok ==> t.0 == Some(
                                    ChunkStreamView::InChunk(d),
                                )
                            },
                        },
                    }
                },
            }
        }),
{
}

} // verus!
