//! Forwarding from a body that is not chunk-encoded to one that is.
use bytes::Bytes;
use vstd::prelude::*;

use crate::body::chunk_coding::{encode_chunk, encode_chunks, encode_end};
use crate::body::error::{BodyError, BodyResult};
use crate::body::forwarder::other::{
    done_view, other_read_gives_the_body, other_read_is_exact, other_read_keeps_valid, DoneView,
    OtherBodyReader, OtherReaderView,
};
use crate::body::forwarder::{
    failure, option_view, polled_last, run, step_view, ForwardPoll, Machine, Step, StepView,
    READ_SIZE,
};
use crate::body::reader::chunked::payload;
use crate::body::writer::chunked::{
    close_bytes, cycle_makes_one_chunk, open_bytes, Close, CloseView, Finish, FinishView, Open, OpenView, Ready, Write,
    WriteView,
};
use crate::body::writer::{bounded_write_keeps_bytes, put_keeps_bytes};
use crate::http_message::message::ParseSlots;
use crate::io_buffer::BytesReader;
use crate::octets::octets;
use crate::transport::{Context, Cx, Poll};

verus! {

/// Where an [`OtherToChunkedBodyForwarder`] is.
pub enum O2CState<R, W> {
    /// Reading body bytes from the source. On data, transitions to
    /// `WriteHead`. On EOF/end, transitions to `WriteFinal`.
    ReadData { reader: OtherBodyReader<R>, writer: Ready<W> },
    /// Writing the chunk header for the next data chunk. Once complete,
    /// transitions to `WriteData`.
    WriteHead { reader: OtherBodyReader<R>, writer: Open<W>, data: Bytes },
    /// Writing the chunk body bytes. When the buffer is empty, transitions to
    /// `CloseChunk`.
    WriteData { reader: OtherBodyReader<R>, writer: Write<W>, data: Bytes },
    /// Writing the chunk footer (`\r\n`). Once complete, transitions back to
    /// `ReadData` for the next chunk.
    CloseChunk { reader: OtherBodyReader<R>, writer: Close<W> },
    /// Writing the terminal chunk (`0\r\n\r\n`) and flushing. Once complete,
    /// transitions to `Done`.
    WriteFinal { reader: (ParseSlots, Option<BytesReader<R>>), writer: Finish<W> },
    /// When we reach the terminal `Done` state, we no longer transition.
    Done { reader: (ParseSlots, Option<BytesReader<R>>), writer: W },
}

/// The model of an [`O2CState`].
pub enum O2CView<R, W> {
    ReadData { reader: OtherReaderView<R>, writer: W },
    WriteHead { reader: OtherReaderView<R>, writer: OpenView<W>, data: Seq<u8> },
    WriteData { reader: OtherReaderView<R>, writer: WriteView<W>, data: Seq<u8> },
    CloseChunk { reader: OtherReaderView<R>, writer: CloseView<W> },
    WriteFinal { reader: DoneView<R>, writer: FinishView<W> },
    Done { reader: DoneView<R>, writer: W },
}

impl<R, W> View for O2CState<R, W> {
    type V = O2CView<R, W>;

    open spec fn view(&self) -> O2CView<R, W> {
        match *self {
            O2CState::ReadData { reader, writer } => O2CView::ReadData {
                reader: reader@,
                writer: writer.io(),
            },
            O2CState::WriteHead { reader, writer, data } => O2CView::WriteHead {
                reader: reader@,
                writer: writer@,
                data: octets(data),
            },
            O2CState::WriteData { reader, writer, data } => O2CView::WriteData {
                reader: reader@,
                writer: writer@,
                data: octets(data),
            },
            O2CState::CloseChunk { reader, writer } => O2CView::CloseChunk {
                reader: reader@,
                writer: writer@,
            },
            O2CState::WriteFinal { reader, writer } => O2CView::WriteFinal {
                reader: done_view(reader),
                writer: writer@,
            },
            O2CState::Done { reader, writer } => O2CView::Done {
                reader: done_view(reader),
                writer,
            },
        }
    }
}

impl<R, W> Machine for O2CView<R, W> {
    open spec fn step(self, cx: Cx) -> StepView<Self> {
        match self {
            O2CView::ReadData { reader, writer } => {
                let (reader, cx, p) = reader.poll_read(cx, READ_SIZE as nat);
                match p {
                    Poll::Ready(Err(e)) => StepView::Stop(None, cx, Poll::Ready(Err(e))),
                    Poll::Pending => StepView::Stop(
                        Some(O2CView::ReadData { reader, writer }),
                        cx,
                        Poll::Pending,
                    ),
                    Poll::Ready(Ok(None)) => StepView::Next(
                        O2CView::WriteFinal {
                            reader: reader.into_done(),
                            writer: FinishView {
                                writer,
                                data: encode_end(Seq::empty()),
                                written: 0,
                                flushed: false,
                            },
                        },
                        cx,
                    ),
                    Poll::Ready(Ok(Some(data))) => StepView::Next(
                        O2CView::WriteHead {
                            reader,
                            writer: OpenView {
                                writer,
                                chunk_length: data.len() as u64,
                                written: 0,
                            },
                            data,
                        },
                        cx,
                    ),
                }
            },
            O2CView::WriteHead { reader, writer, data } => {
                let (writer, cx, p) = writer.poll_open(cx);
                match p {
                    Poll::Ready(Err(e)) => StepView::Stop(None, cx, Poll::Ready(Err(e))),
                    Poll::Pending => StepView::Stop(
                        Some(O2CView::WriteHead { reader, writer, data }),
                        cx,
                        Poll::Pending,
                    ),
                    Poll::Ready(Ok(())) => StepView::Next(
                        O2CView::WriteData {
                            reader,
                            writer: WriteView {
                                writer: writer.writer,
                                chunk_length: writer.chunk_length,
                                chunk_offset: 0,
                            },
                            data,
                        },
                        cx,
                    ),
                }
            },
            O2CView::WriteData { reader, writer, data } => {
                let (writer, cx, p) = writer.poll_write(cx, data);
                match p {
                    Poll::Ready(Err(e)) => StepView::Stop(None, cx, Poll::Ready(Err(e))),
                    Poll::Pending => StepView::Stop(
                        Some(O2CView::WriteData { reader, writer, data }),
                        cx,
                        Poll::Pending,
                    ),
                    Poll::Ready(Ok(n)) => {
                        let data = data.skip(n as int);
                        if data.len() > 0 {
                            StepView::Next(O2CView::WriteData { reader, writer, data }, cx)
                        } else if writer.chunk_offset < writer.chunk_length {
                            StepView::Stop(
                                None,
                                cx,
                                Poll::Ready(
                                    Err(
                                        BodyError::IncompleteBody {
                                            expected: writer.chunk_length,
                                            actual: writer.chunk_offset,
                                        },
                                    ),
                                ),
                            )
                        } else {
                            StepView::Next(
                                O2CView::CloseChunk {
                                    reader,
                                    writer: CloseView {
                                        writer: writer.writer,
                                        footer: close_bytes(writer.chunk_length),
                                        written: 0,
                                    },
                                },
                                cx,
                            )
                        }
                    },
                }
            },
            O2CView::CloseChunk { reader, writer } => {
                let (writer, cx, p) = writer.poll_close(cx);
                match p {
                    Poll::Ready(Err(e)) => StepView::Stop(None, cx, Poll::Ready(Err(e))),
                    Poll::Pending => StepView::Stop(
                        Some(O2CView::CloseChunk { reader, writer }),
                        cx,
                        Poll::Pending,
                    ),
                    Poll::Ready(Ok(())) => StepView::Next(
                        O2CView::ReadData { reader, writer: writer.writer },
                        cx,
                    ),
                }
            },
            O2CView::WriteFinal { reader, writer } => {
                let (writer, cx, p) = writer.poll_finish(cx);
                match p {
                    Poll::Ready(Err(e)) => StepView::Stop(None, cx, Poll::Ready(Err(e))),
                    Poll::Pending => StepView::Stop(
                        Some(O2CView::WriteFinal { reader, writer }),
                        cx,
                        Poll::Pending,
                    ),
                    Poll::Ready(Ok(())) => StepView::Next(
                        O2CView::Done { reader, writer: writer.writer },
                        cx,
                    ),
                }
            },
            O2CView::Done { .. } => StepView::Stop(Some(self), cx, Poll::Ready(Ok(()))),
        }
    }

    open spec fn is_done(self) -> bool {
        self is Done
    }

    proof fn step_is_sound(self, cx: Cx) {
    }
}

impl<R, W> O2CView<R, W> {
    /// How many steps there are at most before an outcome has to be taken.
    pub open spec fn rank(self) -> nat {
        match self {
            O2CView::WriteData { .. } => 5,
            O2CView::CloseChunk { .. } => 4,
            O2CView::ReadData { .. } => 3,
            O2CView::WriteHead { .. } => 2,
            O2CView::WriteFinal { .. } => 2,
            O2CView::Done { .. } => 0,
        }
    }

    /// Whether a chunk header has been written to its end and not been left
    /// behind.
    pub open spec fn has_written_header(self) -> bool {
        self matches O2CView::WriteHead { writer, .. } && writer.written >= open_bytes(
            writer.chunk_length,
        ).len()
    }
}

/// One step of the forwarder.
fn advance<R, W>(state: O2CState<R, W>, cx: &mut Context) -> (r: Step<O2CState<R, W>>)
    ensures
        step_view(r, final(cx)@) == state@.step(old(cx)@),
        r matches Step::Next(next) ==> {
            &&& final(cx)@.events() <= old(cx)@.events()
            &&& final(cx)@.events() == old(cx)@.events() && !state@.has_written_header()
                ==> next@.rank() < state@.rank()
            &&& !next@.has_written_header()
        },
{
    match state {
        O2CState::ReadData { mut reader, writer } => {
            proof {
                other_read_is_exact(reader@, cx@, READ_SIZE as nat);
            }
            match reader.poll_read(cx, READ_SIZE) {
                Poll::Ready(Err(e)) => Step::Stop(None, Poll::Ready(Err(e))),
                Poll::Pending => Step::Stop(
                    Some(O2CState::ReadData { reader, writer }),
                    Poll::Pending,
                ),
                Poll::Ready(Ok(None)) => {
                    let writer = writer.finish();
                    let reader = reader.into_done();
                    Step::Next(O2CState::WriteFinal { reader, writer })
                },
                Poll::Ready(Ok(Some(data))) => {
                    let writer = writer.open(data.len() as u64);
                    Step::Next(O2CState::WriteHead { reader, writer, data })
                },
            }
        },
        O2CState::WriteHead { reader, mut writer, data } => match writer.poll_open(cx) {
            Poll::Ready(Err(e)) => Step::Stop(None, Poll::Ready(Err(e))),
            Poll::Pending => Step::Stop(
                Some(O2CState::WriteHead { reader, writer, data }),
                Poll::Pending,
            ),
            Poll::Ready(Ok(())) => match writer.into_write() {
                Ok(writer) => Step::Next(O2CState::WriteData { reader, writer, data }),
                Err(e) => Step::Stop(None, Poll::Ready(Err(e))),
            },
        },
        O2CState::WriteData { reader, mut writer, mut data } => match writer.poll_write(cx, &data) {
            Poll::Ready(Err(e)) => Step::Stop(None, Poll::Ready(Err(e))),
            Poll::Pending => Step::Stop(
                Some(O2CState::WriteData { reader, writer, data }),
                Poll::Pending,
            ),
            Poll::Ready(Ok(len)) => {
                let _written = data.split_to(len);
                if data.len() > 0 {
                    Step::Next(O2CState::WriteData { reader, writer, data })
                } else {
                    match writer.into_close() {
                        Ok(writer) => Step::Next(O2CState::CloseChunk { reader, writer }),
                        Err(e) => Step::Stop(None, Poll::Ready(Err(e))),
                    }
                }
            },
        },
        O2CState::CloseChunk { reader, mut writer } => match writer.poll_close(cx) {
            Poll::Ready(Err(e)) => Step::Stop(None, Poll::Ready(Err(e))),
            Poll::Pending => Step::Stop(
                Some(O2CState::CloseChunk { reader, writer }),
                Poll::Pending,
            ),
            Poll::Ready(Ok(())) => match writer.into_ready() {
                Ok(writer) => Step::Next(O2CState::ReadData { reader, writer }),
                Err(e) => Step::Stop(None, Poll::Ready(Err(e))),
            },
        },
        O2CState::WriteFinal { reader, mut writer } => match writer.poll_finish(cx) {
            Poll::Ready(Err(e)) => Step::Stop(None, Poll::Ready(Err(e))),
            Poll::Pending => Step::Stop(
                Some(O2CState::WriteFinal { reader, writer }),
                Poll::Pending,
            ),
            Poll::Ready(Ok(())) => match writer.into_writer() {
                Ok(writer) => Step::Next(O2CState::Done { reader, writer }),
                Err(e) => Step::Stop(None, Poll::Ready(Err(e))),
            },
        },
        O2CState::Done { reader, writer } => Step::Stop(
            Some(O2CState::Done { reader, writer }),
            Poll::Ready(Ok(())),
        ),
    }
}

/// Forwards a body that is not chunk-encoded to one that is. Each read becomes
/// a chunk.
pub struct OtherToChunkedBodyForwarder<R, W> {
    state: Option<O2CState<R, W>>,
}

impl<R, W> View for OtherToChunkedBodyForwarder<R, W> {
    type V = Option<O2CView<R, W>>;

    closed spec fn view(&self) -> Option<O2CView<R, W>> {
        option_view(self.state)
    }
}

impl<R, W> OtherToChunkedBodyForwarder<R, W> {
    /// A forwarder at the start of a body.
    pub fn new(reader: OtherBodyReader<R>, writer: Ready<W>) -> (r: Self)
        ensures
            r@ == Some(O2CView::ReadData { reader: reader@, writer: writer.io() }),
    {
        Self { state: Some(O2CState::ReadData { reader, writer }) }
    }

    /// Forward as much as can be forwarded. Of a body, exactly its bytes are
    /// forwarded, in order and in chunks, however it comes in and however the writes
    /// come out; and what stands behind the body stays unread.
    pub fn poll_forward(&mut self, cx: &mut Context) -> (r: Poll<BodyResult<()>>)
        ensures
            exists|n: nat| #[trigger]
                run(old(self)@, old(cx)@, n) == Some((final(self)@, final(cx)@, r)),
            forwards(old(self)@, old(cx)@, final(self)@, final(cx)@, r),
    {
        let ghost mut k: nat = 0;
        let mut state = match self.state.take() {
            None => {
                assert(run(old(self)@, cx@, 1) is Some);
                return Poll::Ready(Err(BodyError::ForwardAfterError));
            },
            Some(state) => state,
        };
        // Only a state from before this poll can have written its header.
        let ghost mut first: nat = 1;
        loop
            invariant
                forall|n: nat| #[trigger]
                    run(Some(state@), cx@, n) == run(old(self)@, old(cx)@, n + k),
                self.state is None,
                first == 0 ==> !state@.has_written_header(),
            decreases cx@.events(), first, state@.rank(),
        {
            let ghost before = state@;
            let ghost cx0 = cx@;
            proof {
                assert(run(Some(before), cx0, 1) == run(old(self)@, old(cx)@, 1 + k));
            }
            match advance(state, cx) {
                Step::Stop(parked, p) => {
                    self.state = parked;
                    proof {
                        lemma_forwards(old(self)@, old(cx)@, 1 + k, self@, cx@, p);
                    }
                    return p;
                },
                Step::Next(next) => {
                    state = next;
                    proof {
                        assert forall|n: nat| #[trigger]
                            run(Some(state@), cx@, n) == run(
                            old(self)@,
                            old(cx)@,
                            n + (k + 1),
                        ) by {
                            assert(run(Some(before), cx0, n + 1) == run(
                                old(self)@,
                                old(cx)@,
                                n + 1 + k,
                            ));
                        }
                        k = k + 1;
                        if before.has_written_header() {
                            first = 0;
                        }
                    }
                },
            }
        }
    }
}

impl<R, W> O2CView<R, W> {
    /// What has been read, or told, and has not been put on the wire.
    pub open spec fn owed(self) -> Seq<u8> {
        match self {
            O2CView::ReadData { .. } => Seq::empty(),
            O2CView::WriteHead { writer, data, .. } => writer.pending() + data + close_bytes(
                writer.chunk_length,
            ),
            O2CView::WriteData { writer, data, .. } => data + close_bytes(writer.chunk_length),
            O2CView::CloseChunk { writer, .. } => writer.pending(),
            O2CView::WriteFinal { writer, .. } => writer.pending(),
            O2CView::Done { .. } => Seq::empty(),
        }
    }

    /// The bytes that have come and have not been consumed.
    pub open spec fn unread(self, cx: Cx) -> Seq<u8> {
        match self {
            O2CView::ReadData { reader, .. } => reader.unread(cx),
            O2CView::WriteHead { reader, .. } => reader.unread(cx),
            O2CView::WriteData { reader, .. } => reader.unread(cx),
            O2CView::CloseChunk { reader, .. } => reader.unread(cx),
            O2CView::WriteFinal { reader, .. } => reader.unread(cx),
            O2CView::Done { reader, .. } => reader.unread(cx),
        }
    }

    /// Whether the end of the body has been seen.
    pub open spec fn is_ending(self) -> bool {
        self is WriteFinal || self is Done
    }

    /// What holds of a forwarder from its creation on: a chunk that is being
    /// written is as long as its header says.
    pub open spec fn is_valid(self) -> bool {
        match self {
            O2CView::ReadData { reader, .. } => reader.is_valid(),
            O2CView::WriteHead { reader, writer, data } => reader.is_valid() && writer.chunk_length
                == data.len() && data.len() > 0 && writer.written <= open_bytes(
                writer.chunk_length,
            ).len(),
            O2CView::WriteData { reader, writer, data } => reader.is_valid() && writer.chunk_offset
                + data.len() == writer.chunk_length && writer.chunk_length > 0,
            O2CView::CloseChunk { reader, writer } => reader.is_valid() && writer.written
                <= writer.footer.len(),
            O2CView::WriteFinal { writer, .. } => writer.written <= writer.data.len(),
            O2CView::Done { .. } => true,
        }
    }
}

/// What a step puts on the way: the chunk of the data that it has read, or the
/// end of the body.
pub open spec fn put_on_the_way<R, W>(s: O2CView<R, W>, t: O2CView<R, W>) -> Seq<u8> {
    match (s, t) {
        (O2CView::ReadData { .. }, O2CView::WriteHead { data, .. }) => encode_chunk(data),
        (O2CView::ReadData { .. }, O2CView::WriteFinal { .. }) => encode_end(Seq::empty()),
        _ => Seq::empty(),
    }
}

/// What a step reads.
pub open spec fn read_by_step<R, W>(s: O2CView<R, W>, t: O2CView<R, W>) -> Seq<u8> {
    match (s, t) {
        (O2CView::ReadData { .. }, O2CView::WriteHead { data, .. }) => data,
        _ => Seq::empty(),
    }
}

spec fn step_keeps<R, W>(s: O2CView<R, W>, cx: Cx, t: O2CView<R, W>, cx2: Cx) -> bool {
    &&& t.is_valid()
    &&& cx2.wire + t.owed() == cx.wire + s.owed() + put_on_the_way(s, t)
    &&& s.unread(cx) == read_by_step(s, t) + t.unread(cx2)
}

spec fn step_is_sound<R, W>(s: O2CView<R, W>, cx: Cx) -> bool {
    match s.step(cx) {
        StepView::Next(t, cx2) => {
            &&& step_keeps(s, cx, t, cx2)
            &&& s is ReadData ==> t is WriteHead || t is WriteFinal
            &&& s is WriteFinal ==> t is Done
            &&& t.is_ending() ==> s is ReadData || s is WriteFinal
            &&& !(s is Done)
        },
        StepView::Stop(Some(t), cx2, p) => {
            &&& step_keeps(s, cx, t, cx2)
            &&& t.is_ending() == s.is_ending()
            &&& s is ReadData ==> t is ReadData
            &&& (p matches Poll::Ready(Ok(()))) ==> t is Done
        },
        StepView::Stop(None, _, Poll::Ready(Err(e))) => !(e is BodyOverflow)
            && !(e is IncompleteBody),
        _ => false,
    }
}

proof fn lemma_read_data<R, W>(s: O2CView<R, W>, cx: Cx)
    requires
        s.is_valid(),
        s is ReadData,
    ensures
        step_is_sound(s, cx),
{
    let none = Seq::<u8>::empty();
    if let O2CView::ReadData { reader, writer } = s {
        other_read_is_exact(reader, cx, READ_SIZE as nat);
        other_read_keeps_valid(reader, cx, READ_SIZE as nat);
        let (reader2, cx2, p) = reader.poll_read(cx, READ_SIZE as nat);
        if let Poll::Ready(Ok(Some(data))) = p {
            cycle_makes_one_chunk(data);
            let header = open_bytes(data.len() as u64);
            assert(header.skip(0) =~= header);
            assert(cx2.wire + (header + data + close_bytes(data.len() as u64)) =~= cx.wire + none
                + encode_chunk(data));
        } else if p matches Poll::Ready(Ok(None)) {
            let end = encode_end(Seq::empty());
            assert(end.skip(0) =~= end);
            assert(cx2.wire + end =~= cx.wire + none + end);
            assert(reader.unread(cx) =~= none + reader2.into_done().unread(cx2));
        } else {
            assert(cx2.wire + none =~= cx.wire + none + none);
            assert(reader.unread(cx) =~= none + reader2.unread(cx2));
        }
    }
}

proof fn lemma_write_head<R, W>(s: O2CView<R, W>, cx: Cx)
    requires
        s.is_valid(),
        s is WriteHead,
    ensures
        step_is_sound(s, cx),
{
    let none = Seq::<u8>::empty();
    if let O2CView::WriteHead { reader, writer, data } = s {
        let header = open_bytes(writer.chunk_length);
        put_keeps_bytes(cx, header, writer.written);
        let (writer2, cx2, p) = writer.poll_open(cx);
        let close = close_bytes(writer.chunk_length);
        let before = writer.pending();
        let after = writer2.pending();
        assert(cx2.wire + after == cx.wire + before);
        assert(cx2.wire + (after + data + close) =~= (cx2.wire + after) + data + close);
        assert(cx.wire + (before + data + close) + none =~= (cx.wire + before) + data + close);
        assert(reader.unread(cx) =~= none + reader.unread(cx2));
        if p matches Poll::Ready(Ok(())) {
            assert(after =~= none);
            assert(cx2.wire + (data + close) =~= (cx2.wire + after) + data + close);
        }
    }
}

proof fn lemma_write_data<R, W>(s: O2CView<R, W>, cx: Cx)
    requires
        s.is_valid(),
        s is WriteData,
    ensures
        step_is_sound(s, cx),
{
    let none = Seq::<u8>::empty();
    if let O2CView::WriteData { reader, writer, data } = s {
        bounded_write_keeps_bytes(cx, writer.chunk_length, writer.chunk_offset, data);
        let (writer2, cx2, p) = writer.poll_write(cx, data);
        let close = close_bytes(writer.chunk_length);
        assert(reader.unread(cx) =~= none + reader.unread(cx2));
        assert(data.take(0) =~= none);
        if let Poll::Ready(Ok(n)) = p {
            let left = data.skip(n as int);
            assert(cx2.wire + (left + close) =~= cx.wire + (data + close) + none);
            if left.len() == 0 {
                assert(close.skip(0) =~= close);
                assert(cx2.wire + close =~= cx.wire + (data + close) + none);
            }
        } else {
            assert(cx2.wire + (data + close) =~= cx.wire + (data + close) + none);
        }
    }
}

proof fn lemma_close<R, W>(s: O2CView<R, W>, cx: Cx)
    requires
        s.is_valid(),
        s is CloseChunk,
    ensures
        step_is_sound(s, cx),
{
    let none = Seq::<u8>::empty();
    if let O2CView::CloseChunk { reader, writer } = s {
        put_keeps_bytes(cx, writer.footer, writer.written);
        let (writer2, cx2, p) = writer.poll_close(cx);
        assert(cx2.wire + writer2.pending() == cx.wire + writer.pending());
        assert(reader.unread(cx) =~= none + reader.unread(cx2));
        assert(cx.wire + writer.pending() + none =~= cx.wire + writer.pending());
        if p matches Poll::Ready(Ok(())) {
            assert(writer2.pending() =~= none);
        }
    }
}

proof fn lemma_end<R, W>(s: O2CView<R, W>, cx: Cx)
    requires
        s.is_valid(),
        s is WriteFinal,
    ensures
        step_is_sound(s, cx),
{
    let none = Seq::<u8>::empty();
    if let O2CView::WriteFinal { reader, writer } = s {
        put_keeps_bytes(cx, writer.data, writer.written);
        let (writer2, cx2, p) = writer.poll_finish(cx);
        assert(cx2.wire + writer2.pending() == cx.wire + writer.pending());
        assert(reader.unread(cx) =~= none + reader.unread(cx2));
        assert(cx.wire + writer.pending() + none =~= cx.wire + writer.pending());
        if p matches Poll::Ready(Ok(())) {
            assert(writer2.pending() =~= none);
        }
    }
}

proof fn lemma_done<R, W>(s: O2CView<R, W>, cx: Cx)
    requires
        s is Done,
    ensures
        step_is_sound(s, cx),
{
    let none = Seq::<u8>::empty();
    assert(s.unread(cx) =~= none + s.unread(cx));
    assert(cx.wire + none =~= cx.wire + none + none);
}

proof fn lemma_step_keeps_bytes<R, W>(s: O2CView<R, W>, cx: Cx)
    requires
        s.is_valid(),
    ensures
        step_is_sound(s, cx),
{
    match s {
        O2CView::ReadData { .. } => lemma_read_data(s, cx),
        O2CView::WriteHead { .. } => lemma_write_head(s, cx),
        O2CView::WriteData { .. } => lemma_write_data(s, cx),
        O2CView::CloseChunk { .. } => lemma_close(s, cx),
        O2CView::WriteFinal { .. } => lemma_end(s, cx),
        O2CView::Done { .. } => lemma_done(s, cx),
    }
}

/// `pieces` is what a run has read, none of them empty or longer than is read at a
/// time, and each of them has been put on the way as one chunk, followed by the end
/// of the body once it was seen.
pub open spec fn run_encodes<R, W>(
    s: O2CView<R, W>,
    cx: Cx,
    t: O2CView<R, W>,
    cx2: Cx,
    pieces: Seq<Seq<u8>>,
) -> bool {
    &&& are_pieces(pieces)
    &&& s.unread(cx) == payload(pieces) + t.unread(cx2)
    &&& cx2.wire + t.owed() == cx.wire + s.owed() + encode_chunks(pieces) + if t.is_ending()
        && !s.is_ending() {
        encode_end(Seq::empty())
    } else {
        Seq::empty()
    }
}

/// Forwarding neither loses, repeats, reorders nor changes a byte of the body:
/// however reads and writes come out, what a run has read stands in chunks
/// behind what was there before, and behind the last of them the end of the
/// body, once it was seen. A body that is read correctly is never refused for
/// its length.
pub proof fn forwarding_encodes_what_is_read<R, W>(
    s: O2CView<R, W>,
    cx: Cx,
    fuel: nat,
    parked: Option<O2CView<R, W>>,
    cx2: Cx,
    p: Poll<BodyResult<()>>,
)
    requires
        s.is_valid(),
        run(Some(s), cx, fuel) == Some((parked, cx2, p)),
    ensures
        match parked {
            Some(t) => {
                &&& t.is_valid()
                &&& exists|pieces: Seq<Seq<u8>>| run_encodes(s, cx, t, cx2, pieces)
                &&& (p matches Poll::Ready(Ok(()))) ==> t is Done
            },
            None => p matches Poll::Ready(Err(e)) && !(e is BodyOverflow) && !(e is IncompleteBody),
        },
    decreases fuel,
{
    lemma_step_keeps_bytes(s, cx);
    match s.step(cx) {
        StepView::Stop(parked, cx2, _) => {
            if let Some(t) = parked {
                let none = Seq::<Seq<u8>>::empty();
                assert(payload(none) =~= Seq::empty());
                assert(encode_chunks(none) =~= Seq::empty());
                assert(cx2.wire + t.owed() =~= cx.wire + s.owed() + encode_chunks(none)
                    + Seq::<u8>::empty());
                assert(run_encodes(s, cx, t, cx2, none));
            }
        },
        StepView::Next(next, cx1) => {
            forwarding_encodes_what_is_read(next, cx1, (fuel - 1) as nat, parked, cx2, p);
            if let Some(t) = parked {
                let after = choose|pieces: Seq<Seq<u8>>| run_encodes(next, cx1, t, cx2, pieces);
                match (s, next) {
                    (O2CView::ReadData { reader, .. }, O2CView::WriteHead { data, .. }) => {
                        other_read_is_exact(reader, cx, READ_SIZE as nat);
                        lemma_piece_in_front(s, cx, next, cx1, t, cx2, data, after);
                    },
                    (O2CView::ReadData { .. }, _) => {
                        lemma_ending_reads_nothing(next, cx1, (fuel - 1) as nat, t, cx2, p);
                        lemma_end_in_front(s, cx, next, cx1, t, cx2);
                    },
                    _ => {
                        lemma_nothing_in_front(s, cx, next, cx1, t, cx2, after);
                    },
                }
            }
        },
    }
}

proof fn lemma_piece_in_front<R, W>(
    s: O2CView<R, W>,
    cx: Cx,
    next: O2CView<R, W>,
    cx1: Cx,
    t: O2CView<R, W>,
    cx2: Cx,
    data: Seq<u8>,
    after: Seq<Seq<u8>>,
)
    requires
        s is ReadData,
        next matches O2CView::WriteHead { data: d, .. } && d == data,
        0 < data.len() <= READ_SIZE,
        step_keeps(s, cx, next, cx1),
        run_encodes(next, cx1, t, cx2, after),
    ensures
        run_encodes(s, cx, t, cx2, seq![data] + after),
{
    let pieces = seq![data] + after;
    assert(pieces.skip(1) =~= after);
    assert(pieces[0] == data);
    assert forall|i: int| 0 <= i < pieces.len() implies 0 < (#[trigger] pieces[i]).len()
        <= READ_SIZE by {
        if i > 0 {
            assert(pieces[i] == after[i - 1]);
        }
    }
    let end = if t.is_ending() {
        encode_end(Seq::empty())
    } else {
        Seq::<u8>::empty()
    };
    assert(payload(pieces) == data + payload(after));
    assert(s.unread(cx) =~= payload(pieces) + t.unread(cx2));
    assert(encode_chunks(pieces) == encode_chunk(data) + encode_chunks(after));
    assert(cx.wire + s.owed() + encode_chunk(data) + encode_chunks(after) + end =~= cx.wire
        + s.owed() + encode_chunks(pieces) + end);
}

proof fn lemma_end_in_front<R, W>(
    s: O2CView<R, W>,
    cx: Cx,
    next: O2CView<R, W>,
    cx1: Cx,
    t: O2CView<R, W>,
    cx2: Cx,
)
    requires
        s is ReadData,
        next is WriteFinal,
        step_keeps(s, cx, next, cx1),
        t.is_ending(),
        next.unread(cx1) == t.unread(cx2),
        cx2.wire + t.owed() == cx1.wire + next.owed(),
    ensures
        run_encodes(s, cx, t, cx2, Seq::empty()),
{
    let none = Seq::<Seq<u8>>::empty();
    let end = encode_end(Seq::empty());
    assert(payload(none) =~= Seq::empty());
    assert(encode_chunks(none) =~= Seq::empty());
    assert(s.unread(cx) =~= payload(none) + t.unread(cx2));
    assert(cx.wire + s.owed() + end =~= cx.wire + s.owed() + encode_chunks(none) + end);
}

proof fn lemma_nothing_in_front<R, W>(
    s: O2CView<R, W>,
    cx: Cx,
    next: O2CView<R, W>,
    cx1: Cx,
    t: O2CView<R, W>,
    cx2: Cx,
    after: Seq<Seq<u8>>,
)
    requires
        !(s is ReadData),
        next.is_ending() == s.is_ending(),
        step_keeps(s, cx, next, cx1),
        run_encodes(next, cx1, t, cx2, after),
    ensures
        run_encodes(s, cx, t, cx2, after),
{
    assert(put_on_the_way(s, next) =~= Seq::empty());
    assert(cx1.wire + next.owed() =~= cx.wire + s.owed());
    assert(read_by_step(s, next) =~= Seq::empty());
    assert(s.unread(cx) =~= next.unread(cx1));
}

proof fn lemma_ending_reads_nothing<R, W>(
    s: O2CView<R, W>,
    cx: Cx,
    fuel: nat,
    t: O2CView<R, W>,
    cx2: Cx,
    p: Poll<BodyResult<()>>,
)
    requires
        s.is_valid(),
        s.is_ending(),
        run(Some(s), cx, fuel) == Some((Some(t), cx2, p)),
    ensures
        t.is_ending(),
        s.unread(cx) == t.unread(cx2),
        cx2.wire + t.owed() == cx.wire + s.owed(),
    decreases fuel,
{
    lemma_step_keeps_bytes(s, cx);
    match s.step(cx) {
        StepView::Stop(_, _, _) => {
            assert(cx2.wire + t.owed() =~= cx.wire + s.owed());
            assert(s.unread(cx) =~= t.unread(cx2));
        },
        StepView::Next(next, cx1) => {
            lemma_ending_reads_nothing(next, cx1, (fuel - 1) as nat, t, cx2, p);
            assert(cx1.wire + next.owed() =~= cx.wire + s.owed());
            assert(s.unread(cx) =~= next.unread(cx1));
        },
    }
}

impl<R, W> O2CView<R, W> {
    /// The reader, until the body has been read.
    pub open spec fn source(self) -> Option<OtherReaderView<R>> {
        match self {
            O2CView::ReadData { reader, .. } => Some(reader),
            O2CView::WriteHead { reader, .. } => Some(reader),
            O2CView::WriteData { reader, .. } => Some(reader),
            O2CView::CloseChunk { reader, .. } => Some(reader),
            _ => None,
        }
    }

    /// The rest of a body is unread, or still to come: `body`, and `rest` behind it.
    pub open spec fn carries(
        self,
        cx: Cx,
        coming: Seq<u8>,
        body: Seq<u8>,
        rest: Seq<u8>,
    ) -> bool {
        self.is_valid() && match self.source() {
            Some(reader) => reader.holds(cx, coming, body, rest),
            None => body.len() == 0 && self.unread(cx) + coming == rest,
        }
    }

    /// The stream of a body that ends with the connection does not end while bytes of
    /// it are still to come.
    pub open spec fn comes_whole(self, cx: Cx, coming: Seq<u8>) -> bool {
        self.source() matches Some(reader) ==> reader.comes_whole(cx, coming)
    }

    /// A read can fail.
    pub open spec fn can_fail(self, cx: Cx, coming: Seq<u8>) -> bool {
        self.source() matches Some(reader) && reader.can_fail(cx, coming)
    }

    /// The front of `body` has been read in `pieces`, and the forwarder carries what is
    /// left of it; and what is on the wire and owed makes up `start`, the pieces as
    /// chunks, and the end of the body, once it was seen.
    pub open spec fn has_sent(
        self,
        cx: Cx,
        start: Start,
        coming: Seq<u8>,
        body: Seq<u8>,
        rest: Seq<u8>,
        pieces: Seq<Seq<u8>>,
    ) -> bool {
        let n = payload(pieces).len();
        &&& are_pieces(pieces)
        &&& n <= body.len()
        &&& payload(pieces) == body.take(n as int)
        &&& self.carries(cx, coming, body.skip(n as int), rest)
        &&& start.ended ==> self.is_ending()
        &&& cx.wire + self.owed() == start.bytes + encode_chunks(pieces) + start.end(
            self.is_ending(),
        )
    }
}

/// Pieces of a body, none of them empty or longer than is read at a time.
pub open spec fn are_pieces(pieces: Seq<Seq<u8>>) -> bool {
    forall|i: int| 0 <= i < pieces.len() ==> 0 < (#[trigger] pieces[i]).len() <= READ_SIZE
}

/// What a forwarder starts from: what is on the wire and owed, and whether the end of
/// the body is among it.
pub struct Start {
    pub bytes: Seq<u8>,
    pub ended: bool,
}

impl Start {
    /// What a machine starts from.
    pub open spec fn of<R, W>(s: O2CView<R, W>, cx: Cx) -> Self {
        Start { bytes: cx.wire + s.owed(), ended: s.is_ending() }
    }

    /// The end of the body, where it has been seen since.
    pub open spec fn end(self, seen: bool) -> Seq<u8> {
        if seen && !self.ended {
            encode_end(Seq::empty())
        } else {
            Seq::empty()
        }
    }

    /// All of `body` is on the wire, in chunks, and the end of the body behind them.
    pub open spec fn is_followed_by(self, body: Seq<u8>, wire: Seq<u8>) -> bool {
        exists|pieces: Seq<Seq<u8>>|
            are_pieces(pieces) && #[trigger] payload(pieces) == body && wire == self.bytes
                + encode_chunks(pieces) + self.end(true)
    }
}

/// What a poll has come to, where `body` is what was to be forwarded behind `start`,
/// and `can_fail` says whether a read of it can fail.
pub open spec fn has_forwarded<R, W>(
    t: Option<O2CView<R, W>>,
    cx2: Cx,
    r: Poll<BodyResult<()>>,
    can_fail: bool,
    coming: Seq<u8>,
    start: Start,
    body: Seq<u8>,
    rest: Seq<u8>,
) -> bool {
    match t {
        Some(t) => {
            &&& exists|pieces: Seq<Seq<u8>>| #[trigger]
                t.has_sent(cx2, start, coming, body, rest, pieces)
            &&& (r matches Poll::Ready(Ok(()))) ==> {
                &&& t is Done
                &&& t.carries(cx2, coming, Seq::empty(), rest)
                &&& start.is_followed_by(body, cx2.wire)
            }
        },
        None => r matches Poll::Ready(Err(e)) && (e is BodyWriteError || can_fail),
    }
}

/// What a poll does to a body that comes in: it is on the wire in chunks once the
/// poll succeeds, with the end of the body behind them; until then each piece that
/// has been read is there as a chunk, or owed. A poll fails only where a write does,
/// or a read before the body has come.
pub open spec fn forwards<R, W>(
    s: Option<O2CView<R, W>>,
    cx: Cx,
    t: Option<O2CView<R, W>>,
    cx2: Cx,
    r: Poll<BodyResult<()>>,
) -> bool {
    forall|coming: Seq<u8>, body: Seq<u8>, rest: Seq<u8>|
        s is Some && #[trigger] s->Some_0.carries(cx, coming, body, rest) ==> has_forwarded(
            t,
            cx2,
            r,
            s->Some_0.can_fail(cx, coming),
            coming,
            Start::of(s->Some_0, cx),
            body,
            rest,
        )
}

/// What has been read from `s` to `t` is the front of `body`, and `t` carries what is
/// left of it.
#[verifier::opaque]
spec fn carries_on<R, W>(
    s: O2CView<R, W>,
    cx: Cx,
    t: O2CView<R, W>,
    cx2: Cx,
    coming: Seq<u8>,
    body: Seq<u8>,
    rest: Seq<u8>,
) -> bool {
    let n = s.unread(cx).len() - t.unread(cx2).len();
    0 <= n <= body.len() && t.carries(cx2, coming, body.skip(n), rest)
}

spec fn step_carries<R, W>(
    s: O2CView<R, W>,
    cx: Cx,
    coming: Seq<u8>,
    body: Seq<u8>,
    rest: Seq<u8>,
) -> bool {
    match s.step(cx) {
        StepView::Next(t, cx2) => carries_on(s, cx, t, cx2, coming, body, rest) && (t.can_fail(
            cx2,
            coming,
        ) ==> s.can_fail(cx, coming)),
        StepView::Stop(Some(t), cx2, _) => carries_on(s, cx, t, cx2, coming, body, rest),
        StepView::Stop(None, _, p) => p matches Poll::Ready(Err(e)) && (e is BodyWriteError
            || s.can_fail(cx, coming)),
    }
}

proof fn lemma_read_carries<R, W>(
    s: O2CView<R, W>,
    cx: Cx,
    coming: Seq<u8>,
    body: Seq<u8>,
    rest: Seq<u8>,
)
    requires
        s.carries(cx, coming, body, rest),
        s is ReadData,
    ensures
        step_carries(s, cx, coming, body, rest),
{
    reveal(carries_on);
    assert(body.skip(0) =~= body);
    lemma_read_data(s, cx);
    if let O2CView::ReadData { reader, .. } = s {
        other_read_gives_the_body(reader, cx, READ_SIZE as nat, coming, body, rest);
    }
}

proof fn lemma_head_carries<R, W>(
    s: O2CView<R, W>,
    cx: Cx,
    coming: Seq<u8>,
    body: Seq<u8>,
    rest: Seq<u8>,
)
    requires
        s.carries(cx, coming, body, rest),
        s is WriteHead,
    ensures
        step_carries(s, cx, coming, body, rest),
{
    reveal(carries_on);
    assert(body.skip(0) =~= body);
    lemma_write_head(s, cx);
    if let O2CView::WriteHead { writer, .. } = s {
        put_keeps_bytes(cx, open_bytes(writer.chunk_length), writer.written);
    }
}

proof fn lemma_data_carries<R, W>(
    s: O2CView<R, W>,
    cx: Cx,
    coming: Seq<u8>,
    body: Seq<u8>,
    rest: Seq<u8>,
)
    requires
        s.carries(cx, coming, body, rest),
        s is WriteData,
    ensures
        step_carries(s, cx, coming, body, rest),
{
    reveal(carries_on);
    assert(body.skip(0) =~= body);
    lemma_write_data(s, cx);
    if let O2CView::WriteData { writer, data, .. } = s {
        bounded_write_keeps_bytes(cx, writer.chunk_length, writer.chunk_offset, data);
    }
}

proof fn lemma_close_carries<R, W>(
    s: O2CView<R, W>,
    cx: Cx,
    coming: Seq<u8>,
    body: Seq<u8>,
    rest: Seq<u8>,
)
    requires
        s.carries(cx, coming, body, rest),
        s is CloseChunk,
    ensures
        step_carries(s, cx, coming, body, rest),
{
    reveal(carries_on);
    assert(body.skip(0) =~= body);
    lemma_close(s, cx);
    if let O2CView::CloseChunk { writer, .. } = s {
        put_keeps_bytes(cx, writer.footer, writer.written);
    }
}

proof fn lemma_end_carries<R, W>(
    s: O2CView<R, W>,
    cx: Cx,
    coming: Seq<u8>,
    body: Seq<u8>,
    rest: Seq<u8>,
)
    requires
        s.carries(cx, coming, body, rest),
        s is WriteFinal,
    ensures
        step_carries(s, cx, coming, body, rest),
{
    reveal(carries_on);
    assert(body.skip(0) =~= body);
    lemma_end(s, cx);
    if let O2CView::WriteFinal { writer, .. } = s {
        put_keeps_bytes(cx, writer.data, writer.written);
    }
}

proof fn lemma_step_carries<R, W>(
    s: O2CView<R, W>,
    cx: Cx,
    coming: Seq<u8>,
    body: Seq<u8>,
    rest: Seq<u8>,
)
    requires
        s.carries(cx, coming, body, rest),
    ensures
        step_carries(s, cx, coming, body, rest),
{
    match s {
        O2CView::ReadData { .. } => lemma_read_carries(s, cx, coming, body, rest),
        O2CView::WriteHead { .. } => lemma_head_carries(s, cx, coming, body, rest),
        O2CView::WriteData { .. } => lemma_data_carries(s, cx, coming, body, rest),
        O2CView::CloseChunk { .. } => lemma_close_carries(s, cx, coming, body, rest),
        O2CView::WriteFinal { .. } => lemma_end_carries(s, cx, coming, body, rest),
        O2CView::Done { .. } => {
            reveal(carries_on);
            assert(body.skip(0) =~= body);
        },
    }
}

proof fn lemma_carries_through<R, W>(
    s: O2CView<R, W>,
    cx: Cx,
    m: O2CView<R, W>,
    cx1: Cx,
    t: O2CView<R, W>,
    cx2: Cx,
    coming: Seq<u8>,
    body: Seq<u8>,
    rest: Seq<u8>,
)
    requires
        carries_on(s, cx, m, cx1, coming, body, rest),
        carries_on(
            m,
            cx1,
            t,
            cx2,
            coming,
            body.skip(s.unread(cx).len() - m.unread(cx1).len()),
            rest,
        ),
    ensures
        carries_on(s, cx, t, cx2, coming, body, rest),
{
    reveal(carries_on);
    let n = s.unread(cx).len() - m.unread(cx1).len();
    let k = m.unread(cx1).len() - t.unread(cx2).len();
    assert(body.skip(n).skip(k) =~= body.skip(n + k));
}

/// What a run has read is the front of the body, and the machine carries the rest.
proof fn lemma_run_carries<R, W>(
    s: O2CView<R, W>,
    cx: Cx,
    fuel: nat,
    parked: Option<O2CView<R, W>>,
    cx2: Cx,
    p: Poll<BodyResult<()>>,
    coming: Seq<u8>,
    body: Seq<u8>,
    rest: Seq<u8>,
)
    requires
        s.carries(cx, coming, body, rest),
        run(Some(s), cx, fuel) == Some((parked, cx2, p)),
    ensures
        match parked {
            Some(t) => carries_on(s, cx, t, cx2, coming, body, rest),
            None => p matches Poll::Ready(Err(e)) && (e is BodyWriteError || s.can_fail(cx, coming)),
        },
    decreases fuel,
{
    lemma_step_carries(s, cx, coming, body, rest);
    if let StepView::Next(next, cx1) = s.step(cx) {
        let left = body.skip(s.unread(cx).len() - next.unread(cx1).len());
        assert(next.carries(cx1, coming, left, rest)) by {
            reveal(carries_on);
        }
        lemma_run_carries(next, cx1, (fuel - 1) as nat, parked, cx2, p, coming, left, rest);
        if let Some(t) = parked {
            lemma_carries_through(s, cx, next, cx1, t, cx2, coming, body, rest);
        }
    }
}

proof fn lemma_all_is_sent<R, W>(
    t: O2CView<R, W>,
    cx: Cx,
    start: Start,
    coming: Seq<u8>,
    body: Seq<u8>,
    rest: Seq<u8>,
    pieces: Seq<Seq<u8>>,
)
    requires
        t is Done,
        t.has_sent(cx, start, coming, body, rest, pieces),
    ensures
        t.carries(cx, coming, Seq::empty(), rest),
        start.is_followed_by(body, cx.wire),
{
    let n = payload(pieces).len() as int;
    assert(body.skip(n) =~= Seq::empty());
    assert(body.take(n) =~= body);
    assert(cx.wire + t.owed() =~= cx.wire);
}

proof fn lemma_forwards<R, W>(
    s: Option<O2CView<R, W>>,
    cx: Cx,
    fuel: nat,
    t: Option<O2CView<R, W>>,
    cx2: Cx,
    r: Poll<BodyResult<()>>,
)
    requires
        run(s, cx, fuel) == Some((t, cx2, r)),
    ensures
        forwards(s, cx, t, cx2, r),
{
    assert forall|coming: Seq<u8>, body: Seq<u8>, rest: Seq<u8>|
        s is Some && #[trigger] s->Some_0.carries(cx, coming, body, rest) implies has_forwarded(
        t,
        cx2,
        r,
        s->Some_0.can_fail(cx, coming),
        coming,
        Start::of(s->Some_0, cx),
        body,
        rest,
    ) by {
        let m = s->Some_0;
        let start = Start::of(m, cx);
        lemma_run_carries(m, cx, fuel, t, cx2, r, coming, body, rest);
        forwarding_encodes_what_is_read(m, cx, fuel, t, cx2, r);
        if let Some(t) = t {
            let pieces = choose|pieces: Seq<Seq<u8>>| run_encodes(m, cx, t, cx2, pieces);
            let n = payload(pieces).len() as int;
            reveal(carries_on);
            assert(m.unread(cx) + coming =~= body + rest);
            assert(payload(pieces) =~= (m.unread(cx) + coming).take(n));
            assert(payload(pieces) =~= body.take(n));
            if m.is_ending() {
                lemma_ending_reads_nothing(m, cx, fuel, t, cx2, r);
            }
            assert(t.has_sent(cx2, start, coming, body, rest, pieces));
            if t is Done {
                lemma_all_is_sent(t, cx2, start, coming, body, rest, pieces);
            }
        }
    }
}

/// The polls follow each other: between two of them nothing is put on the wire, and
/// bytes only come in, in order, of those that were still to come; and a stream that
/// ends a body ends only behind it.
pub open spec fn polls_follow<R, W>(
    s: O2CView<R, W>,
    polls: Seq<ForwardPoll<O2CView<R, W>>>,
) -> bool
    decreases polls.len(),
{
    polls.len() > 0 ==> {
        let before = polls.drop_last();
        let last = polls.last();
        if before.len() == 0 {
            forwards(Some(s), last.cx, last.parked, last.cx2, last.r)
        } else {
            let prior = before.last();
            &&& polls_follow(s, before)
            &&& prior.parked is Some
            &&& forwards(prior.parked, last.cx, last.parked, last.cx2, last.r)
            &&& last.cx.wire == prior.cx2.wire
            &&& prior.parked->Some_0.unread(last.cx) + last.coming
                == prior.parked->Some_0.unread(prior.cx2) + prior.coming
            &&& prior.parked->Some_0.comes_whole(last.cx, last.coming)
        }
    }
}

proof fn lemma_pieces_add(a: Seq<Seq<u8>>, b: Seq<Seq<u8>>)
    ensures
        payload(a + b) == payload(a) + payload(b),
        encode_chunks(a + b) == encode_chunks(a) + encode_chunks(b),
    decreases a.len(),
{
    if a.len() == 0 {
        assert(a + b =~= b);
        assert(payload(a + b) =~= payload(a) + payload(b));
        assert(encode_chunks(a + b) =~= encode_chunks(a) + encode_chunks(b));
    } else {
        lemma_pieces_add(a.skip(1), b);
        assert((a + b).skip(1) =~= a.skip(1) + b);
        assert((a + b)[0] == a[0]);
        assert(payload(a + b) =~= payload(a) + payload(b));
        assert(encode_chunks(a + b) =~= encode_chunks(a) + encode_chunks(b));
    }
}

/// What was sent by one poll and what is sent by the next stand behind each other.
proof fn lemma_sent_goes_on<R, W>(
    m: O2CView<R, W>,
    cx1: Cx,
    cx: Cx,
    t: O2CView<R, W>,
    cx2: Cx,
    start: Start,
    coming1: Seq<u8>,
    coming: Seq<u8>,
    body: Seq<u8>,
    rest: Seq<u8>,
    a: Seq<Seq<u8>>,
    b: Seq<Seq<u8>>,
)
    requires
        m.has_sent(cx1, start, coming1, body, rest, a),
        cx.wire == cx1.wire,
        t.has_sent(
            cx2,
            Start::of(m, cx),
            coming,
            body.skip(payload(a).len() as int),
            rest,
            b,
        ),
    ensures
        t.has_sent(cx2, start, coming, body, rest, a + b),
{
    let n = payload(a).len() as int;
    let k = payload(b).len() as int;
    lemma_pieces_add(a, b);
    assert forall|i: int| 0 <= i < (a + b).len() implies 0 < (#[trigger] (a + b)[i]).len()
        <= READ_SIZE by {
        if i < a.len() {
            assert((a + b)[i] == a[i]);
        } else {
            assert((a + b)[i] == b[i - a.len()]);
        }
    }
    assert(payload(a + b) =~= body.take(n + k));
    assert(body.skip(n).skip(k) =~= body.skip(n + k));
    let now = Start::of(m, cx);
    if m.is_ending() {
        assert(payload(b).len() == 0);
        if b.len() > 0 {
            assert(b[0].len() > 0);
            assert(payload(b).len() >= b[0].len());
        }
        assert(encode_chunks(b) =~= Seq::empty());
        assert(now.bytes + encode_chunks(b) + now.end(t.is_ending()) =~= start.bytes
            + encode_chunks(a + b) + start.end(t.is_ending()));
    } else {
        assert(now.bytes + encode_chunks(b) + now.end(t.is_ending()) =~= start.bytes
            + encode_chunks(a + b) + start.end(t.is_ending()));
    }
}

/// Over all polls, however the body comes in and however the writes come out: each
/// piece that has been read stands on the wire as one chunk, or is owed, behind what
/// was there before; and once a poll succeeds, all of the body is there, the end of
/// the body behind it, and what follows is unread.
pub proof fn polls_forward_the_body<R, W>(
    s: O2CView<R, W>,
    polls: Seq<ForwardPoll<O2CView<R, W>>>,
    body: Seq<u8>,
    rest: Seq<u8>,
)
    requires
        polls.len() > 0,
        polls_follow(s, polls),
        s.carries(polls[0].cx, polls[0].coming, body, rest),
    ensures
        has_forwarded(
            polls.last().parked,
            polls.last().cx2,
            polls.last().r,
            polled_last(s, polls).can_fail(polls.last().cx, polls.last().coming),
            polls.last().coming,
            Start::of(s, polls[0].cx),
            body,
            rest,
        ),
    decreases polls.len(),
{
    let before = polls.drop_last();
    let last = polls.last();
    let start = Start::of(s, polls[0].cx);
    if before.len() > 0 {
        assert(before[0] == polls[0]);
        polls_forward_the_body(s, before, body, rest);
        let prior = before.last();
        assert(prior == polls[polls.len() - 2]);
        let m = prior.parked->Some_0;
        assert(prior.parked == Some(m));
        let a = choose|a: Seq<Seq<u8>>| #[trigger]
            m.has_sent(prior.cx2, start, prior.coming, body, rest, a);
        let left = body.skip(payload(a).len() as int);
        assert(m.carries(last.cx, last.coming, left, rest));
        if let Some(t) = last.parked {
            let now = Start::of(m, last.cx);
            let b = choose|b: Seq<Seq<u8>>| #[trigger]
                t.has_sent(last.cx2, now, last.coming, left, rest, b);
            lemma_sent_goes_on(
                m,
                prior.cx2,
                last.cx,
                t,
                last.cx2,
                start,
                prior.coming,
                last.coming,
                body,
                rest,
                a,
                b,
            );
            if t is Done {
                lemma_all_is_sent(t, last.cx2, start, last.coming, body, rest, a + b);
            }
        }
    } else {
        assert(Some(s)->Some_0.carries(last.cx, last.coming, body, rest));
    }
}

/// A step fails exactly where the read, the write or the flush that it makes does, and with
/// that error; or where a chunk is over before as much of it has been written as its header
/// says.
pub proof fn steps_fail_where_their_part_does<R, W>(s: O2CView<R, W>, cx: Cx)
    requires
        s.is_valid(),
    ensures
        ({
            let part = match s {
                O2CView::ReadData { reader, .. } => failure(
                    reader.poll_read(cx, READ_SIZE as nat).2,
                ),
                O2CView::WriteHead { writer, .. } => failure(writer.poll_open(cx).2),
                O2CView::WriteData { writer, data, .. } => failure(writer.poll_write(cx, data).2),
                O2CView::CloseChunk { writer, .. } => failure(writer.poll_close(cx).2),
                O2CView::WriteFinal { writer, .. } => failure(writer.poll_finish(cx).2),
                O2CView::Done { .. } => None,
            };
            match s.step(cx) {
                StepView::Stop(None, _, p) => part is Some && p == Poll::Ready(
                    Err::<(), _>(part->Some_0),
                ),
                _ => part is None,
            }
        }),
{
    if let O2CView::WriteData { writer, data, .. } = s {
        crate::body::writer::bounded_write_keeps_bytes(
            cx,
            writer.chunk_length,
            writer.chunk_offset,
            data,
        );
    }
}

impl<R, W> O2CView<R, W> {
    /// The connection that is written to.
    pub open spec fn sink(self) -> W {
        match self {
            O2CView::ReadData { writer, .. } => writer,
            O2CView::WriteHead { writer, .. } => writer.writer,
            O2CView::WriteData { writer, .. } => writer.writer,
            O2CView::CloseChunk { writer, .. } => writer.writer,
            O2CView::WriteFinal { writer, .. } => writer.writer,
            O2CView::Done { writer, .. } => writer,
        }
    }

    /// The connection that comes back of those that are read from, and the slots: none after
    /// a body that ends with it.
    pub open spec fn given_back(self) -> (Option<R>, nat) {
        match self {
            O2CView::WriteFinal { reader, .. } => (
                match reader.reader {
                    Some(r) => Some(r.io),
                    None => None,
                },
                reader.slots,
            ),
            O2CView::Done { reader, .. } => (
                match reader.reader {
                    Some(r) => Some(r.io),
                    None => None,
                },
                reader.slots,
            ),
            _ => match self.source()->Some_0 {
                OtherReaderView::ContentLength(r) => (Some(r.reader.io), r.slots),
                OtherReaderView::Eof(r) => (None, r.slots),
            },
        }
    }
}

/// Forwarding keeps the connections: that which is written to comes back at its end as it was
/// started with, and so does that which is read from, unless the body ends with it.
pub proof fn forwarding_keeps_the_connections<R, W>(
    s: O2CView<R, W>,
    cx: Cx,
    fuel: nat,
    t: O2CView<R, W>,
    cx2: Cx,
    p: Poll<BodyResult<()>>,
)
    requires
        run(Some(s), cx, fuel) == Some((Some(t), cx2, p)),
    ensures
        t.sink() == s.sink(),
        t.given_back() == s.given_back(),
    decreases fuel,
{
    if let StepView::Next(next, cx1) = s.step(cx) {
        forwarding_keeps_the_connections(next, cx1, (fuel - 1) as nat, t, cx2, p);
    }
}

/// A poll that completes the forwarding has flushed what was written: the outcome of a flush
/// was there, it was no failure, and it is taken. No other poll takes a flush for one that is
/// done.
pub proof fn forwarding_ends_with_a_flush<R, W>(
    s: O2CView<R, W>,
    cx: Cx,
    fuel: nat,
    t: O2CView<R, W>,
    cx2: Cx,
    p: Poll<BodyResult<()>>,
)
    requires
        run(Some(s), cx, fuel) == Some((Some(t), cx2, p)),
        !(s is Done),
        s matches O2CView::WriteFinal { writer, .. } ==> !writer.flushed,
    ensures
        t is Done ==> cx.flush is Some && cx.flush->Some_0 is Ok && cx2.flush is None,
        t is Done <==> p is Ready,
        t matches O2CView::WriteFinal { writer, .. } ==> !writer.flushed,
    decreases fuel,
{
    reveal_with_fuel(run, 2);
    match s {
        O2CView::ReadData { reader, .. } => crate::body::forwarder::other::other_read_is_exact(
            reader,
            cx,
            READ_SIZE as nat,
        ),
        _ => {},
    }
    if let StepView::Next(next, cx1) = s.step(cx) {
        if !(next is Done) {
            forwarding_ends_with_a_flush(next, cx1, (fuel - 1) as nat, t, cx2, p);
        }
    }
}

} // verus!
