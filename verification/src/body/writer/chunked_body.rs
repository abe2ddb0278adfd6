//! A writer that puts every buffer it is given on the wire as one chunk.
use vstd::prelude::*;

use crate::body::chunk_coding::{encode_chunk, encode_end};
use crate::body::error::{BodyError, BodyResult};
use crate::body::writer::chunked::{
    close_bytes, cycle_makes_one_chunk, open_bytes, Abort, AbortView, Close, CloseView, Finish,
    FinishView, Open, OpenView, Ready, Write, WriteView,
};
use crate::body::writer::{bounded_write_keeps_bytes, put_keeps_bytes};
use crate::http_message::header::Headers;
use crate::text::crlf;
use crate::transport::{Context, Cx, Poll};

verus! {

enum ChunkState<I> {
    Idle(Ready<I>),
    WritingHead(Open<I>),
    WritingData { writer: Write<I>, written: usize },
    WritingFooter(Close<I>),
}

/// Where in a chunk a [`ChunkedBodyWriter`] is.
pub enum ChunkStateView<I> {
    /// Between chunks.
    Idle(I),
    WritingHead(OpenView<I>),
    WritingData { writer: WriteView<I>, written: nat },
    WritingFooter(CloseView<I>),
}

/// The model of a [`ChunkedBodyWriter`]: where it is, or nothing once it has
/// failed.
pub struct ChunkedWriterView<I>(pub Option<ChunkStateView<I>>);

/// The footer is written.
pub open spec fn write_footer<I>(footer: CloseView<I>, cx: Cx) -> (
    ChunkedWriterView<I>,
    Cx,
    Poll<BodyResult<()>>,
) {
    let (footer, cx, p) = footer.poll_close(cx);
    match p {
        Poll::Pending => (
            ChunkedWriterView(Some(ChunkStateView::WritingFooter(footer))),
            cx,
            Poll::Pending,
        ),
        Poll::Ready(Err(e)) => (ChunkedWriterView(None), cx, Poll::Ready(Err(e))),
        Poll::Ready(Ok(())) => (
            ChunkedWriterView(Some(ChunkStateView::Idle(footer.writer))),
            cx,
            Poll::Ready(Ok(())),
        ),
    }
}

/// All of `buf` but its first `written` bytes is written, and then the footer.
pub open spec fn write_data<I>(writer: WriteView<I>, written: nat, cx: Cx, buf: Seq<u8>) -> (
    ChunkedWriterView<I>,
    Cx,
    Poll<BodyResult<()>>,
)
    decreases (if cx.write is Some { 1nat } else { 0 }),
{
    let (writer2, cx2, p) = writer.poll_write(cx, buf.skip(written as int));
    match p {
        Poll::Pending => (
            ChunkedWriterView(Some(ChunkStateView::WritingData { writer: writer2, written })),
            cx2,
            Poll::Pending,
        ),
        Poll::Ready(Err(e)) => (ChunkedWriterView(None), cx2, Poll::Ready(Err(e))),
        Poll::Ready(Ok(n)) => if writer2.chunk_offset >= writer2.chunk_length {
            write_footer(
                CloseView {
                    writer: writer2.writer,
                    footer: close_bytes(writer2.chunk_length),
                    written: 0,
                },
                cx2,
            )
        } else {
            write_data(writer2, written + n as nat, cx2, buf)
        },
    }
}

/// The header is written, and then the data and the footer.
pub open spec fn write_head<I>(head: OpenView<I>, cx: Cx, buf: Seq<u8>) -> (
    ChunkedWriterView<I>,
    Cx,
    Poll<BodyResult<()>>,
) {
    let (head, cx, p) = head.poll_open(cx);
    match p {
        Poll::Pending => (
            ChunkedWriterView(Some(ChunkStateView::WritingHead(head))),
            cx,
            Poll::Pending,
        ),
        Poll::Ready(Err(e)) => (ChunkedWriterView(None), cx, Poll::Ready(Err(e))),
        Poll::Ready(Ok(())) => write_data(
            WriteView { writer: head.writer, chunk_length: head.chunk_length, chunk_offset: 0 },
            0,
            cx,
            buf,
        ),
    }
}

impl<I> ChunkedWriterView<I> {
    /// `buf` is written as one chunk, from where the writer is on. No chunk is
    /// written for no data. After a failure every write fails.
    pub open spec fn poll_write(self, cx: Cx, buf: Seq<u8>) -> (Self, Cx, Poll<BodyResult<()>>) {
        if buf.len() == 0 {
            (self, cx, Poll::Ready(Ok(())))
        } else {
            match self.0 {
                None => (self, cx, Poll::Ready(Err(BodyError::WriteAfterError))),
                Some(ChunkStateView::Idle(writer)) => write_head(
                    OpenView { writer, chunk_length: buf.len() as u64, written: 0 },
                    cx,
                    buf,
                ),
                Some(ChunkStateView::WritingHead(head)) => write_head(head, cx, buf),
                Some(ChunkStateView::WritingData { writer, written }) => write_data(
                    writer,
                    written,
                    cx,
                    buf,
                ),
                Some(ChunkStateView::WritingFooter(footer)) => write_footer(footer, cx),
            }
        }
    }

    /// How much of the current buffer has been written.
    pub open spec fn written(self) -> nat {
        match self.0 {
            Some(ChunkStateView::WritingData { written, .. }) => written,
            _ => 0,
        }
    }

    /// The chunk that is being written, if any, is that of `buf`.
    pub open spec fn is_writing(self, buf: Seq<u8>) -> bool {
        match self.0 {
            None => false,
            Some(ChunkStateView::Idle(_)) => true,
            Some(ChunkStateView::WritingHead(head)) => head.chunk_length == buf.len()
                && head.written <= open_bytes(head.chunk_length).len(),
            Some(ChunkStateView::WritingData { writer, written }) => writer.chunk_length
                == buf.len() && writer.chunk_offset == written && written <= buf.len(),
            Some(ChunkStateView::WritingFooter(footer)) => footer.written <= footer.footer.len(),
        }
    }

    /// What is still to be put on the wire for the chunk of `buf`.
    pub open spec fn to_write(self, buf: Seq<u8>) -> Seq<u8> {
        match self.0 {
            None => Seq::empty(),
            Some(ChunkStateView::Idle(_)) => encode_chunk(buf),
            Some(ChunkStateView::WritingHead(head)) => head.pending() + buf + crlf(),
            Some(ChunkStateView::WritingData { written, .. }) => buf.skip(written as int) + crlf(),
            Some(ChunkStateView::WritingFooter(footer)) => footer.pending(),
        }
    }
}

/// What a write of `buf` does to the wire: what was to be put there for its chunk
/// is there once the write is done, and until then what is there and what is
/// still to be put there make up the same bytes.
pub open spec fn write_keeps_bytes<I>(
    s: ChunkedWriterView<I>,
    cx: Cx,
    t: ChunkedWriterView<I>,
    cx2: Cx,
    r: Poll<BodyResult<()>>,
    buf: Seq<u8>,
) -> bool {
    match r {
        Poll::Ready(Ok(())) => (t.0 matches Some(ChunkStateView::Idle(_))) && cx2.wire == cx.wire
            + s.to_write(buf),
        Poll::Pending => t.is_writing(buf) && cx2.wire + t.to_write(buf) == cx.wire + s.to_write(
            buf,
        ),
        Poll::Ready(Err(e)) => t.0 is None && e is BodyWriteError,
    }
}

proof fn lemma_footer_keeps_bytes<I>(footer: CloseView<I>, cx: Cx, buf: Seq<u8>)
    requires
        footer.written <= footer.footer.len(),
    ensures
        ({
            let (t, cx2, r) = write_footer(footer, cx);
            write_keeps_bytes(
                ChunkedWriterView(Some(ChunkStateView::WritingFooter(footer))),
                cx,
                t,
                cx2,
                r,
                buf,
            )
        }),
{
    put_keeps_bytes(cx, footer.footer, footer.written);
    let (footer2, cx2, p) = footer.poll_close(cx);
    if p matches Poll::Ready(Ok(())) {
        assert(cx2.wire + footer2.pending() =~= cx2.wire);
    }
}

proof fn lemma_data_keeps_bytes<I>(writer: WriteView<I>, written: nat, cx: Cx, buf: Seq<u8>)
    requires
        buf.len() > 0,
        writer.chunk_length == buf.len(),
        writer.chunk_offset == written,
        written <= buf.len(),
    ensures
        ({
            let (t, cx2, r) = write_data(writer, written, cx, buf);
            write_keeps_bytes(
                ChunkedWriterView(Some(ChunkStateView::WritingData { writer, written })),
                cx,
                t,
                cx2,
                r,
                buf,
            )
        }),
    decreases (if cx.write is Some { 1nat } else { 0 }),
{
    let rest = buf.skip(written as int);
    bounded_write_keeps_bytes(cx, writer.chunk_length, writer.chunk_offset, rest);
    let (writer2, cx2, p) = writer.poll_write(cx, rest);
    match p {
        Poll::Ready(Ok(n)) => {
            let left = buf.skip(written + n);
            assert(cx2.wire + (left + crlf()) =~= cx.wire + (rest + crlf()));
            if writer2.chunk_offset >= writer2.chunk_length {
                let footer = CloseView {
                    writer: writer2.writer,
                    footer: close_bytes(writer2.chunk_length),
                    written: 0,
                };
                lemma_footer_keeps_bytes(footer, cx2, buf);
                assert(footer.pending() =~= crlf());
                assert(left + crlf() =~= crlf());
            } else {
                lemma_data_keeps_bytes(writer2, written + n as nat, cx2, buf);
            }
        },
        Poll::Pending => {
            assert(rest.take(0) =~= Seq::empty());
            assert(cx2.wire =~= cx.wire);
        },
        _ => {},
    }
}

proof fn lemma_head_keeps_bytes<I>(head: OpenView<I>, cx: Cx, buf: Seq<u8>)
    requires
        buf.len() > 0,
        head.chunk_length == buf.len(),
        head.written <= open_bytes(head.chunk_length).len(),
    ensures
        ({
            let (t, cx2, r) = write_head(head, cx, buf);
            write_keeps_bytes(
                ChunkedWriterView(Some(ChunkStateView::WritingHead(head))),
                cx,
                t,
                cx2,
                r,
                buf,
            )
        }),
{
    put_keeps_bytes(cx, open_bytes(head.chunk_length), head.written);
    let (head2, cx2, p) = head.poll_open(cx);
    let before = head.pending();
    let after = head2.pending();
    assert(cx.wire + (before + buf + crlf()) =~= (cx.wire + before) + buf + crlf());
    assert(cx2.wire + (after + buf + crlf()) =~= (cx2.wire + after) + buf + crlf());
    if p matches Poll::Ready(Ok(())) {
        assert(after =~= Seq::empty());
        assert(buf.skip(0) =~= buf);
        assert(cx2.wire + (buf + crlf()) =~= (cx2.wire + after) + buf + crlf());
        lemma_data_keeps_bytes(
            WriteView { writer: head2.writer, chunk_length: head2.chunk_length, chunk_offset: 0 },
            0,
            cx2,
            buf,
        );
    }
}

/// A write neither loses, repeats nor changes a byte: between chunks, the whole
/// write puts the buffer on the wire as one chunk, and nothing else.
pub proof fn chunked_write_keeps_bytes<I>(s: ChunkedWriterView<I>, cx: Cx, buf: Seq<u8>)
    requires
        0 < buf.len() <= u64::MAX,
        s.is_writing(buf),
    ensures
        ({
            let (t, cx2, r) = s.poll_write(cx, buf);
            write_keeps_bytes(s, cx, t, cx2, r, buf)
        }),
{
    match s.0 {
        None => {},
        Some(ChunkStateView::Idle(writer)) => {
            let head = OpenView { writer, chunk_length: buf.len() as u64, written: 0 };
            lemma_head_keeps_bytes(head, cx, buf);
            cycle_makes_one_chunk(buf);
            assert(head.pending() =~= open_bytes(head.chunk_length));
        },
        Some(ChunkStateView::WritingHead(head)) => lemma_head_keeps_bytes(head, cx, buf),
        Some(ChunkStateView::WritingData { writer, written }) => lemma_data_keeps_bytes(
            writer,
            written,
            cx,
            buf,
        ),
        Some(ChunkStateView::WritingFooter(footer)) => lemma_footer_keeps_bytes(footer, cx, buf),
    }
}

impl<I> ChunkedWriterView<I> {
    /// The connection, unless a write has failed.
    pub open spec fn io(self) -> Option<I> {
        match self.0 {
            None => None,
            Some(ChunkStateView::Idle(writer)) => Some(writer),
            Some(ChunkStateView::WritingHead(head)) => Some(head.writer),
            Some(ChunkStateView::WritingData { writer, .. }) => Some(writer.writer),
            Some(ChunkStateView::WritingFooter(footer)) => Some(footer.writer),
        }
    }

    /// The writer after several polls with the same buffer.
    pub open spec fn after(self, polls: Seq<Cx>, buf: Seq<u8>) -> Self
        decreases polls.len(),
    {
        if polls.len() == 0 {
            self
        } else {
            self.after(polls.drop_last(), buf).poll_write(polls.last(), buf).0
        }
    }

    /// The polls follow each other: each but the last is pending, and between two of
    /// them nothing is put on the wire.
    pub open spec fn follow(self, polls: Seq<Cx>, buf: Seq<u8>) -> bool
        decreases polls.len(),
    {
        polls.len() > 1 ==> {
            let before = polls.drop_last();
            let (_, cx2, r) = self.after(before.drop_last(), buf).poll_write(before.last(), buf);
            &&& self.follow(before, buf)
            &&& r is Pending
            &&& polls.last().wire == cx2.wire
        }
    }
}

proof fn lemma_data_keeps_io<I>(writer: WriteView<I>, written: nat, cx: Cx, buf: Seq<u8>)
    ensures
        ({
            let (t, _, r) = write_data(writer, written, cx, buf);
            if r matches Poll::Ready(Err(_)) {
                t.0 is None
            } else {
                t.io() == Some(writer.writer)
            }
        }),
    decreases (if cx.write is Some { 1nat } else { 0 }),
{
    let (writer2, cx2, p) = writer.poll_write(cx, buf.skip(written as int));
    if let Poll::Ready(Ok(n)) = p {
        if writer2.chunk_offset < writer2.chunk_length {
            lemma_data_keeps_io(writer2, written + n as nat, cx2, buf);
        }
    }
}

/// A write keeps the connection, unless it fails; then there is no writer left.
pub proof fn chunked_write_keeps_io<I>(s: ChunkedWriterView<I>, cx: Cx, buf: Seq<u8>)
    ensures
        ({
            let (t, _, r) = s.poll_write(cx, buf);
            if r matches Poll::Ready(Err(_)) {
                t.0 is None
            } else {
                t.io() == s.io()
            }
        }),
{
    match s.0 {
        Some(ChunkStateView::Idle(writer)) => {
            let head = OpenView { writer, chunk_length: buf.len() as u64, written: 0 };
            let (head2, cx2, _) = head.poll_open(cx);
            lemma_data_keeps_io(
                WriteView { writer, chunk_length: head2.chunk_length, chunk_offset: 0 },
                0,
                cx2,
                buf,
            );
        },
        Some(ChunkStateView::WritingHead(head)) => {
            let (head2, cx2, _) = head.poll_open(cx);
            lemma_data_keeps_io(
                WriteView {
                    writer: head2.writer,
                    chunk_length: head2.chunk_length,
                    chunk_offset: 0,
                },
                0,
                cx2,
                buf,
            );
        },
        Some(ChunkStateView::WritingData { writer, written }) => {
            lemma_data_keeps_io(writer, written, cx, buf);
        },
        _ => {},
    }
}

/// After a failure every write of data fails, and does nothing else.
pub proof fn write_failure_is_final<I>(s: ChunkedWriterView<I>, cx: Cx, buf: Seq<u8>)
    requires
        s.0 is None,
        buf.len() > 0,
    ensures
        s.poll_write(cx, buf) == (
            s,
            cx,
            Poll::Ready(Err::<(), _>(BodyError::WriteAfterError)),
        ),
{
}

/// No data is written as nothing at all: no chunk, which would end the body.
pub proof fn no_data_is_no_chunk<I>(s: ChunkedWriterView<I>, cx: Cx)
    ensures
        s.poll_write(cx, Seq::empty()) == (s, cx, Poll::Ready(Ok::<(), BodyError>(()))),
{
}

/// Over all polls with one buffer, however the writes come out: once the last of
/// them succeeds, exactly one chunk with the data of the buffer stands on the wire
/// behind what was there before, and the writer is between chunks again; until then
/// what is there and what is still to be put there make up the same bytes; and
/// after a failure there is no writer left.
pub proof fn polls_write_one_chunk<I>(s: ChunkedWriterView<I>, polls: Seq<Cx>, buf: Seq<u8>)
    requires
        0 < buf.len() <= u64::MAX,
        s.0 matches Some(ChunkStateView::Idle(_)),
        polls.len() > 0,
        s.follow(polls, buf),
    ensures
        ({
            let (t, cx2, r) = s.after(polls.drop_last(), buf).poll_write(polls.last(), buf);
            let all = polls[0].wire + encode_chunk(buf);
            match r {
                Poll::Ready(Ok(())) => t == s && cx2.wire == all,
                Poll::Pending => t.is_writing(buf) && t.io() == s.io() && cx2.wire + t.to_write(buf)
                    == all,
                Poll::Ready(Err(e)) => t.0 is None && e is BodyWriteError,
            }
        }),
    decreases polls.len(),
{
    let before = polls.drop_last();
    let s1 = s.after(before, buf);
    if before.len() > 0 {
        assert(before[0] == polls[0]);
        polls_write_one_chunk(s, before, buf);
    }
    chunked_write_keeps_bytes(s1, polls.last(), buf);
    chunked_write_keeps_io(s1, polls.last(), buf);
}

/// A writer of a chunked body.
pub struct ChunkedBodyWriter<I> {
    /// `None` after an error.
    state: Option<ChunkState<I>>,
}

impl<I> View for ChunkedBodyWriter<I> {
    type V = ChunkedWriterView<I>;

    closed spec fn view(&self) -> ChunkedWriterView<I> {
        ChunkedWriterView(
            match self.state {
                None => None,
                Some(ChunkState::Idle(ready)) => Some(ChunkStateView::Idle(ready.io())),
                Some(ChunkState::WritingHead(head)) => Some(ChunkStateView::WritingHead(head@)),
                Some(ChunkState::WritingData { writer, written }) => Some(
                    ChunkStateView::WritingData { writer: writer@, written: written as nat },
                ),
                Some(ChunkState::WritingFooter(footer)) => Some(
                    ChunkStateView::WritingFooter(footer@),
                ),
            },
        )
    }
}

impl<I> ChunkedBodyWriter<I> {
    /// A body of which nothing has been written.
    pub fn new(writer: I) -> (r: Self)
        ensures
            r@ == ChunkedWriterView(Some(ChunkStateView::Idle(writer))),
    {
        Self { state: Some(ChunkState::Idle(Ready::new(writer))) }
    }

    /// Write the footer.
    fn poll_footer(&mut self, mut footer: Close<I>, cx: &mut Context) -> (r: Poll<BodyResult<()>>)
        requires
            old(self)@.0 is None,
        ensures
            (final(self)@, final(cx)@, r) == write_footer(footer@, old(cx)@),
    {
        match footer.poll_close(cx) {
            Poll::Pending => {
                self.state = Some(ChunkState::WritingFooter(footer));
                Poll::Pending
            },
            Poll::Ready(Err(e)) => Poll::Ready(Err(e)),
            Poll::Ready(Ok(())) => match footer.into_ready() {
                Ok(ready) => {
                    self.state = Some(ChunkState::Idle(ready));
                    Poll::Ready(Ok(()))
                },
                Err(e) => Poll::Ready(Err(e)),
            },
        }
    }

    /// Write the rest of the data, and the footer.
    fn poll_data(
        &mut self,
        start: Write<I>,
        from: usize,
        cx: &mut Context,
        buf: &[u8],
    ) -> (r: Poll<BodyResult<()>>)
        requires
            old(self)@.0 is None,
            from <= buf@.len(),
        ensures
            (final(self)@, final(cx)@, r) == write_data(start@, from as nat, old(cx)@, buf@),
    {
        let mut writer = start;
        let mut written: usize = from;
        loop
            invariant
                self@.0 is None,
                written <= buf@.len(),
                write_data(writer@, written as nat, cx@, buf@) == write_data(
                    start@,
                    from as nat,
                    old(cx)@,
                    buf@,
                ),
            decreases (if cx@.write is Some { 1nat } else { 0 }),
        {
            let (_done, rest) = buf.split_at(written);
            assert(rest@ == buf@.skip(written as int));
            match writer.poll_write(cx, rest) {
                Poll::Pending => {
                    self.state = Some(ChunkState::WritingData { writer, written });
                    return Poll::Pending;
                },
                Poll::Ready(Err(e)) => return Poll::Ready(Err(e)),
                Poll::Ready(Ok(n)) => {
                    let total: usize = buf.len();
                    assert(written + n <= total);
                    written = written + n;
                    if writer.chunk_remaining() == 0 {
                        match writer.into_close() {
                            Ok(footer) => return self.poll_footer(footer, cx),
                            Err(e) => return Poll::Ready(Err(e)),
                        }
                    }
                },
            }
        }
    }

    /// Write the rest of the header, and the data and the footer.
    fn poll_head(&mut self, mut head: Open<I>, cx: &mut Context, buf: &[u8]) -> (r: Poll<
        BodyResult<()>,
    >)
        requires
            old(self)@.0 is None,
        ensures
            (final(self)@, final(cx)@, r) == write_head(head@, old(cx)@, buf@),
    {
        match head.poll_open(cx) {
            Poll::Pending => {
                self.state = Some(ChunkState::WritingHead(head));
                Poll::Pending
            },
            Poll::Ready(Err(e)) => Poll::Ready(Err(e)),
            Poll::Ready(Ok(())) => match head.into_write() {
                Ok(writer) => self.poll_data(writer, 0, cx, buf),
                Err(e) => Poll::Ready(Err(e)),
            },
        }
    }

    /// Write `buf` as one chunk. While the write is pending, the same buffer has
    /// to be given again.
    pub fn poll_write(&mut self, cx: &mut Context, buf: &[u8]) -> (r: Poll<BodyResult<()>>)
        requires
            old(self)@.written() <= buf@.len(),
        ensures
            (final(self)@, final(cx)@, r) == old(self)@.poll_write(old(cx)@, buf@),
            buf@.len() > 0 && old(self)@.is_writing(buf@) ==> write_keeps_bytes(
                old(self)@,
                old(cx)@,
                final(self)@,
                final(cx)@,
                r,
                buf@,
            ),
    {
        if buf.len() == 0 {
            return Poll::Ready(Ok(()));
        }
        proof {
            if self@.is_writing(buf@) {
                chunked_write_keeps_bytes(self@, cx@, buf@);
            }
        }
        match self.state.take() {
            None => Poll::Ready(Err(BodyError::WriteAfterError)),
            Some(ChunkState::Idle(idle)) => self.poll_head(idle.open(buf.len() as u64), cx, buf),
            Some(ChunkState::WritingHead(head)) => self.poll_head(head, cx, buf),
            Some(ChunkState::WritingData { writer, written }) => self.poll_data(
                writer,
                written,
                cx,
                buf,
            ),
            Some(ChunkState::WritingFooter(footer)) => self.poll_footer(footer, cx),
        }
    }

    /// End the body with trailer fields. Errors with
    /// [`BodyError::WriteAfterError`] where the writer is not between chunks.
    pub fn into_finish(self, trailers: &Headers) -> (r: BodyResult<Finish<I>>)
        ensures
            match self@.0 {
                Some(ChunkStateView::Idle(writer)) => r matches Ok(f) && f@ == (FinishView {
                    writer,
                    data: encode_end(trailers@),
                    written: 0,
                    flushed: false,
                }),
                _ => r matches Err(e) && e == BodyError::WriteAfterError,
            },
    {
        match self.state {
            Some(ChunkState::Idle(idle)) => Ok(idle.finish_with_trailers(trailers)),
            _ => Err(BodyError::WriteAfterError),
        }
    }

    /// Poison the body. Between chunks a byte is to be written that no chunk
    /// header starts with; inside a chunk there is nothing to write, as the
    /// partial chunk already leaves the framing broken.
    pub fn into_abort(self) -> (r: Option<Abort<I>>)
        ensures
            match self@.0 {
                Some(ChunkStateView::Idle(writer)) => r matches Some(a) && a@ == (AbortView {
                    writer,
                    written: false,
                    flushed: false,
                }),
                _ => r is None,
            },
    {
        match self.state {
            Some(ChunkState::Idle(idle)) => Some(idle.abort()),
            _ => None,
        }
    }
}

} // verus!
