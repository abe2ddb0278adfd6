//! A reader for the body of a message, whichever way the body ends.
use bytes::Bytes;
use vstd::prelude::*;

use crate::body::error::BodyResult;
use crate::body::peekable_reader::{PeekableBodyReader, PeekableView, SourceView};
use crate::body::reader::bodyless::{BodylessBodyReader, BodylessView};
use crate::body::reader::chunk_head::{ChunkHeadStateView, ChunkHeadView};
use crate::body::reader::chunked::{
    drains_any_body, reads_any_body_back, refuses_any_aborted_body, ChunkStreamView, ChunkedBodyReader, ChunkedView,
};
use crate::body::reader::content_length::{
    drains_any_length, ContentLengthBodyReader, ContentLengthView,
};
use crate::body::reader::data_view;
use crate::http_message::message::ParseSlots;
use crate::io_buffer::{Buffered, BytesReader};
use crate::octets::octets;
use crate::transport::{Context, Cx, Poll};

verus! {

/// How the end of a body is told.
#[derive(Debug, Clone, Copy, PartialEq, Eq, Structural)]
pub enum BodyReadMode {
    /// By its length.
    ContentLength(u64),
    /// By the chunked transfer coding.
    Chunk,
    /// There is no body.
    Bodyless,
    /// By the end of the connection.
    Eof,
}

/// A reader of a body, by kind.
pub enum BodyReaderKind<I> {
    Bodyless(BodylessBodyReader<I>),
    CL(ContentLengthBodyReader<I>),
    TE(ChunkedBodyReader<I>),
}

/// The model of a [`BodyReaderKind`].
pub enum KindView<I> {
    Bodyless(BodylessView<I>),
    CL(ContentLengthView<I>),
    TE(ChunkedView<I>),
}

impl<I> KindView<I> {
    /// A read of at most `max_len` bytes of the body; `None` at its end.
    pub open spec fn poll_read(self, cx: Cx, max_len: nat) -> (
        Self,
        Cx,
        Poll<BodyResult<Option<Seq<u8>>>>,
    ) {
        match self {
            KindView::Bodyless(_) => (self, cx, Poll::Ready(Ok(None))),
            KindView::CL(r) => {
                let (r, cx, p) = r.poll_read(cx, max_len);
                (KindView::CL(r), cx, p)
            },
            KindView::TE(r) => {
                let (r, cx, p) = r.poll_read(cx, max_len);
                (KindView::TE(r), cx, p)
            },
        }
    }

    /// Reads, at most `fuel` of them, until one gives no data: `None` where
    /// that takes more.
    pub open spec fn poll_drain(self, cx: Cx, fuel: nat) -> Option<
        (Self, Cx, Poll<BodyResult<()>>),
    > {
        match self {
            KindView::Bodyless(_) => Some((self, cx, Poll::Ready(Ok(())))),
            KindView::CL(r) => match r.poll_drain(cx, fuel) {
                None => None,
                Some((r, cx, p)) => Some((KindView::CL(r), cx, p)),
            },
            KindView::TE(r) => match r.poll_drain(cx, fuel) {
                None => None,
                Some((r, cx, p)) => Some((KindView::TE(r), cx, p)),
            },
        }
    }

    /// Whether there is nothing more to read.
    pub open spec fn is_drained(self) -> bool {
        match self {
            KindView::Bodyless(_) => true,
            KindView::CL(r) => r.remaining() == 0,
            KindView::TE(r) => r.is_drained(),
        }
    }

    /// Whether the end of the body has been read, without a failure.
    pub open spec fn is_finished(self) -> bool {
        self.is_drained() && !(self matches KindView::TE(ChunkedView(None)))
    }

    /// The connection after the body.
    pub open spec fn after(self) -> Buffered<I> {
        match self {
            KindView::Bodyless(r) => r.reader,
            KindView::CL(r) => r.reader,
            KindView::TE(r) => r.0->Some_0->Done_0.reader,
        }
    }

    /// The slots that are given back after the body.
    pub open spec fn slots_after(self) -> nat {
        match self {
            KindView::Bodyless(r) => r.slots,
            KindView::CL(r) => r.slots,
            KindView::TE(r) => r.0->Some_0->Done_0.slots,
        }
    }

    /// A drain of any body that can come to the reader ends behind it.
    pub open spec fn drains_any<E>(self, cx: Cx, t: Self, cx2: Cx, r: Poll<Result<(), E>>) -> bool {
        match (self, t) {
            (KindView::TE(c), KindView::TE(d)) => drains_any_body(c, cx, d, cx2, r),
            (KindView::CL(c), KindView::CL(d)) => drains_any_length(c, cx, d, cx2, r),
            (KindView::Bodyless(_), _) => t == self && cx2 == cx && (r matches Poll::Ready(Ok(_))),
            _ => false,
        }
    }

    /// How the end of the body is told.
    pub open spec fn mode(self) -> BodyReadMode {
        match self {
            KindView::Bodyless(_) => BodyReadMode::Bodyless,
            KindView::CL(r) => BodyReadMode::ContentLength(r.length),
            KindView::TE(_) => BodyReadMode::Chunk,
        }
    }
}

impl<I> View for BodyReaderKind<I> {
    type V = KindView<I>;

    open spec fn view(&self) -> KindView<I> {
        match *self {
            BodyReaderKind::Bodyless(r) => KindView::Bodyless(r@),
            BodyReaderKind::CL(r) => KindView::CL(r@),
            BodyReaderKind::TE(r) => KindView::TE(r@),
        }
    }
}

impl<I> BodyReaderKind<I> {
    /// How the end of the body is told.
    pub fn mode(&self) -> (m: BodyReadMode)
        ensures
            m == self@.mode(),
    {
        match self {
            BodyReaderKind::Bodyless(_) => BodyReadMode::Bodyless,
            BodyReaderKind::CL(r) => BodyReadMode::ContentLength(r.content_length()),
            BodyReaderKind::TE(_) => BodyReadMode::Chunk,
        }
    }

    /// Read at most `max_len` bytes of the body; `None` at its end.
    pub fn poll_read(&mut self, cx: &mut Context, max_len: usize) -> (r: Poll<
        BodyResult<Option<Bytes>>,
    >)
        ensures
            (final(self)@, final(cx)@, data_view(r)) == old(self)@.poll_read(
                old(cx)@,
                max_len as nat,
            ),
            old(self)@ matches KindView::TE(c) ==> reads_any_body_back(c, old(cx)@, max_len as nat)
                && refuses_any_aborted_body(c, old(cx)@, max_len as nat),
            (r matches Poll::Ready(Ok(None))) ==> final(self)@.is_finished(),
            final(cx)@.read == old(cx)@.read || final(cx)@.read is None,
    {
        match self {
            BodyReaderKind::Bodyless(_) => Poll::Ready(Ok(None)),
            BodyReaderKind::CL(r) => r.poll_read(cx, max_len),
            BodyReaderKind::TE(r) => r.poll_read(cx, max_len),
        }
    }

    /// Whether there is nothing more to read.
    pub fn drained(&self) -> (r: bool)
        ensures
            r == self@.is_drained(),
    {
        match self {
            BodyReaderKind::Bodyless(_) => true,
            BodyReaderKind::CL(r) => r.drained(),
            BodyReaderKind::TE(r) => r.drained(),
        }
    }

    /// Read the body to its end, and drop it.
    pub fn poll_drain(&mut self, cx: &mut Context) -> (r: Poll<BodyResult<()>>)
        ensures
            exists|n: nat| #[trigger]
                old(self)@.poll_drain(old(cx)@, n) == Some((final(self)@, final(cx)@, r)),
            (r matches Poll::Ready(Ok(()))) ==> final(self)@.is_finished(),
            old(self)@.drains_any(old(cx)@, final(self)@, final(cx)@, r),
    {
        match self {
            BodyReaderKind::Bodyless(_) => {
                assert(old(self)@.poll_drain(old(cx)@, 0) is Some);
                Poll::Ready(Ok(()))
            },
            BodyReaderKind::CL(r) => {
                let ghost before = r@;
                let p = r.poll_drain(cx);
                proof {
                    let n = choose|n: nat| #[trigger]
                        before.poll_drain(old(cx)@, n) == Some((r@, cx@, p));
                    assert(old(self)@.poll_drain(old(cx)@, n) is Some);
                }
                p
            },
            BodyReaderKind::TE(r) => {
                let ghost before = r@;
                let p = r.poll_drain(cx);
                proof {
                    let n = choose|n: nat| #[trigger]
                        before.poll_drain(old(cx)@, n) == Some((r@, cx@, p));
                    assert(old(self)@.poll_drain(old(cx)@, n) is Some);
                }
                p
            },
        }
    }

    /// Give back the connection. The body has to have been read to its end.
    pub fn finish(self) -> (r: (BytesReader<I>, ParseSlots))
        requires
            self@.is_finished(),
        ensures
            r.0@ == self@.after(),
            r.1@ == self@.slots_after(),
    {
        match self {
            BodyReaderKind::Bodyless(r) => r.drain(),
            BodyReaderKind::CL(r) => r.finish(),
            BodyReaderKind::TE(r) => {
                let (reader, parse_slots, _trailers) = r.finish();
                (reader, parse_slots)
            },
        }
    }
}

/// A reader of a body.
pub struct BodyReader<I> {
    kind: BodyReaderKind<I>,
}

impl<I> View for BodyReader<I> {
    type V = KindView<I>;

    closed spec fn view(&self) -> KindView<I> {
        self.kind@
    }
}

/// A reader at the start of a body in this mode.
pub open spec fn new_reader<I>(reader: Buffered<I>, mode: BodyReadMode, slots: nat) -> KindView<I> {
    match mode {
        BodyReadMode::ContentLength(length) => KindView::CL(
            ContentLengthView { length, offset: 0, reader, slots },
        ),
        BodyReadMode::Chunk => KindView::TE(
            ChunkedView(
                Some(
                    ChunkStreamView::BetweenChunk(
                        ChunkHeadView {
                            reader,
                            slots,
                            strict: true,
                            state: ChunkHeadStateView::ReadingSize,
                        },
                    ),
                ),
            ),
        ),
        _ => KindView::Bodyless(BodylessView { reader, slots }),
    }
}

impl<I> BodyReader<I> {
    /// A reader at the start of a body. The trailer section of a chunked body
    /// is held to the grammar of trailer fields.
    pub fn new(io: BytesReader<I>, mode: BodyReadMode, parse_slots: ParseSlots) -> (r: Self)
        requires
            mode != BodyReadMode::Eof,
        ensures
            r@ == new_reader(io@, mode, parse_slots@),
    {
        let kind = match mode {
            BodyReadMode::ContentLength(length) => BodyReaderKind::CL(
                ContentLengthBodyReader::new(length, io, parse_slots),
            ),
            BodyReadMode::Chunk => BodyReaderKind::TE(
                ChunkedBodyReader::with_strict_trailers(io, parse_slots),
            ),
            _ => BodyReaderKind::Bodyless(BodylessBodyReader::new(io, parse_slots)),
        };
        Self { kind }
    }

    /// How the end of the body is told.
    pub fn mode(&self) -> (m: BodyReadMode)
        ensures
            m == self@.mode(),
    {
        self.kind.mode()
    }

    /// The reader, by kind.
    pub fn into_kind(self) -> (r: BodyReaderKind<I>)
        ensures
            r@ == self@,
    {
        let Self { kind } = self;
        kind
    }

    /// Read at most `max_len` bytes of the body; `None` at its end.
    pub fn poll_read(&mut self, cx: &mut Context, max_len: usize) -> (r: Poll<
        BodyResult<Option<Bytes>>,
    >)
        ensures
            (final(self)@, final(cx)@, data_view(r)) == old(self)@.poll_read(
                old(cx)@,
                max_len as nat,
            ),
            old(self)@ matches KindView::TE(c) ==> reads_any_body_back(c, old(cx)@, max_len as nat)
                && refuses_any_aborted_body(c, old(cx)@, max_len as nat),
            (r matches Poll::Ready(Ok(None))) ==> final(self)@.is_finished(),
    {
        self.kind.poll_read(cx, max_len)
    }

    /// Whether there is nothing more to read.
    pub fn drained(&self) -> (r: bool)
        ensures
            r == self@.is_drained(),
    {
        self.kind.drained()
    }

    /// A reader of the same body that can look ahead.
    pub fn peekable(self) -> (r: PeekableBodyReader<I>)
        ensures
            r@ == (PeekableView { peeked: Seq::empty(), source: SourceView::Framed(self@) }),
    {
        let Self { kind } = self;
        match kind {
            BodyReaderKind::Bodyless(r) => PeekableBodyReader::from_bodyless(r),
            BodyReaderKind::CL(r) => PeekableBodyReader::from_content_length(r),
            BodyReaderKind::TE(r) => PeekableBodyReader::from_chunked(r),
        }
    }

    /// Read the body to its end, and drop it.
    pub fn poll_drain(&mut self, cx: &mut Context) -> (r: Poll<BodyResult<()>>)
        ensures
            exists|n: nat| #[trigger]
                old(self)@.poll_drain(old(cx)@, n) == Some((final(self)@, final(cx)@, r)),
            (r matches Poll::Ready(Ok(()))) ==> final(self)@.is_finished(),
            old(self)@.drains_any(old(cx)@, final(self)@, final(cx)@, r),
    {
        let ghost before = self@;
        let p = self.kind.poll_drain(cx);
        proof {
            let n = choose|n: nat| #[trigger]
                before.poll_drain(old(cx)@, n) == Some((self@, cx@, p));
            assert(old(self)@.poll_drain(old(cx)@, n) is Some);
        }
        p
    }

    /// Give back the connection. The body has to have been read to its end.
    pub fn finish(self) -> (r: (BytesReader<I>, ParseSlots))
        requires
            self@.is_finished(),
        ensures
            r.0@ == self@.after(),
            r.1@ == self@.slots_after(),
    {
        let Self { kind } = self;
        kind.finish()
    }
}

/// A body is read by its own kind, and stays of that kind; where there is none, nothing is
/// read.
pub proof fn reads_keep_the_kind<I>(b: KindView<I>, cx: Cx, max_len: nat)
    ensures
        ({
            let (t, cx2, p) = b.poll_read(cx, max_len);
            match (b, t) {
                (KindView::Bodyless(_), _) => t == b && cx2 == cx && (p matches Poll::Ready(
                    Ok(None),
                )),
                (KindView::CL(c), KindView::CL(d)) => (d, cx2, p) == c.poll_read(cx, max_len),
                (KindView::TE(c), KindView::TE(d)) => (d, cx2, p) == c.poll_read(cx, max_len),
                _ => false,
            }
        }),
{
}

/// A new reader reads a body whose end is told as asked for, from the front of what is
/// unread; a body of length zero, and none at all, are at their end from the start.
pub proof fn new_readers_are_at_the_start<I>(reader: Buffered<I>, mode: BodyReadMode, slots: nat)
    requires
        mode != BodyReadMode::Eof,
    ensures
        new_reader(reader, mode, slots).mode() == mode,
        new_reader(reader, mode, slots).is_drained() <==> mode == BodyReadMode::Bodyless || mode
            == BodyReadMode::ContentLength(0),
        match new_reader(reader, mode, slots) {
            KindView::Bodyless(r) => r.reader == reader && r.slots == slots,
            KindView::CL(r) => r.reader == reader && r.slots == slots && r.offset == 0,
            KindView::TE(r) => r.0 matches Some(ChunkStreamView::BetweenChunk(head)) && head.reader
                == reader && head.slots == slots && head.strict && head.state is ReadingSize,
        },
{
}

/// After a body, the connection comes back as the body left it, with its slots.
pub proof fn connections_come_back_after_the_body<I>(
    b: BodyReader<I>,
    r: (BytesReader<I>, ParseSlots),
)
    requires
        call_ensures(BodyReader::<I>::finish, (b,), r),
    ensures
        match b@ {
            KindView::Bodyless(v) => r.0@ == v.reader && r.1@ == v.slots,
            KindView::CL(v) => r.0@ == v.reader && r.1@ == v.slots,
            KindView::TE(v) => v.0 matches Some(
                crate::body::reader::chunked::ChunkStreamView::Done(last),
            ) ==> r.0@ == last.reader && r.1@ == last.slots,
        },
{
}

/// Where there is no body, a drain does nothing; any other body is drained as one of its kind
/// is, and keeps its kind.
pub proof fn drains_go_by_kind<I>(b: KindView<I>, cx: Cx, fuel: nat)
    requires
        fuel > 0,
    ensures
        match b {
            KindView::Bodyless(_) => b.poll_drain(cx, fuel) == Some(
                (b, cx, Poll::Ready(Ok::<(), crate::body::error::BodyError>(()))),
            ),
            KindView::CL(v) => match (v.poll_drain(cx, fuel), b.poll_drain(cx, fuel)) {
                (None, None) => true,
                (Some((t, c, p)), Some((u, d, q))) => u == KindView::CL(t) && d == c && q == p,
                _ => false,
            },
            KindView::TE(v) => match (v.poll_drain(cx, fuel), b.poll_drain(cx, fuel)) {
                (None, None) => true,
                (Some((t, c, p)), Some((u, d, q))) => u == KindView::TE(t) && d == c && q == p,
                _ => false,
            },
        },
{
}

/// A reader tells the mode that it was made for, and that it is drained exactly where there is
/// nothing more to read: there is no body, all of the stated length was read, or the last
/// chunk was, or a read has failed.
pub proof fn readers_tell_their_mode_and_their_end<I>(
    b: &BodyReader<I>,
    mode: BodyReadMode,
    drained: bool,
)
    requires
        call_ensures(BodyReader::<I>::mode, (b,), mode),
        call_ensures(BodyReader::<I>::drained, (b,), drained),
    ensures
        match b@ {
            KindView::Bodyless(_) => mode == BodyReadMode::Bodyless && drained,
            KindView::CL(v) => mode == BodyReadMode::ContentLength(v.length) && drained == (
            v.offset >= v.length),
            KindView::TE(v) => mode == BodyReadMode::Chunk && drained == (match v.0 {
                None => true,
                Some(stream) => stream is Done,
            }),
        },
{
}

} // verus!
