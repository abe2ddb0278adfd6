//! Forwarding between chunk-encoded bodies. The chunks keep their sizes; the
//! extensions of their headers are dropped.
use bytes::Bytes;
use vstd::prelude::*;

use crate::body::chunk_coding::{chunk_head, encode_chunks, encode_end};
use crate::body::error::{BodyError, BodyResult};
use crate::body::forwarder::{
    failure, option_view, run, step_view, ForwardPoll, Machine, Step, StepView, READ_SIZE,
};
use crate::body::reader::chunk_data::{chunk_read_takes_reads, ChunkDataReader, ChunkDataView};
use crate::body::reader::chunk_head::{
    header_read_takes_reads, ChunkHeadReader, ChunkHeadView, FinalChunkReader, FinalChunkView,
    NextChunk, NextChunkView,
};
use crate::body::reader::chunked::{
    chunks_left, lemma_between, lemma_holds_by_read, lemma_holds_by_unread, lemma_in_chunk,
    ChunkStreamView,
    ChunkedView,
};
use crate::body::reader::{read_failed, unread};
use crate::body::writer::chunked::{
    close_bytes, open_bytes, Close, CloseView, Finish, FinishView, Open, OpenView, Ready, Write,
    WriteView,
};
use crate::body::writer::put_keeps_bytes;
use crate::http_message::header::{Field, Headers};
use crate::http_message::message::ParseSlots;
use crate::io_buffer::{Buffered, BytesReader};
use crate::octets::octets;
use crate::text::crlf;
use crate::transport::{Context, Cx, Poll};

verus! {

/// Where a [`ChunkToChunkBodyForwarder`] is.
pub enum C2CState<R, W> {
    /// On final chunk, transitions to `WriteFinal`. On normal chunk,
    /// transitions to `WriteChunk`.
    ReadChunk { reader: ChunkHeadReader<R>, writer: Ready<W> },
    /// Once the chunk header has been written, transition to `ReadData`.
    WriteChunk { reader: ChunkDataReader<R>, writer: Open<W> },
    /// Once the final chunk has been written, transition to `Done`.
    WriteFinal { reader: FinalChunkReader<R>, writer: Finish<W> },
    /// When more data is read, transition to `WriteData`. If no more data is read,
    /// transition to `CloseChunk`. Data may arrive in multiple reads.
    ReadData { reader: ChunkDataReader<R>, writer: Write<W> },
    /// When there is no more data to write, transition to `ReadData`.
    WriteData { reader: ChunkDataReader<R>, writer: Write<W>, data: Bytes },
    /// After the chunk is closed, transition to `ReadChunk`.
    CloseChunk { reader: ChunkHeadReader<R>, writer: Close<W> },
    /// When we reach the terminal `Done` state, we no longer transition.
    Done { reader: (BytesReader<R>, ParseSlots, Headers), writer: W },
}

/// The model of a [`C2CState`].
pub enum C2CView<R, W> {
    ReadChunk { reader: ChunkHeadView<R>, writer: W },
    WriteChunk { reader: ChunkDataView<R>, writer: OpenView<W> },
    WriteFinal { reader: FinalChunkView<R>, writer: FinishView<W> },
    ReadData { reader: ChunkDataView<R>, writer: WriteView<W> },
    WriteData { reader: ChunkDataView<R>, writer: WriteView<W>, data: Seq<u8> },
    CloseChunk { reader: ChunkHeadView<R>, writer: CloseView<W> },
    Done { reader: Buffered<R>, slots: nat, trailers: Seq<Field>, writer: W },
}

impl<R, W> View for C2CState<R, W> {
    type V = C2CView<R, W>;

    open spec fn view(&self) -> C2CView<R, W> {
        match *self {
            C2CState::ReadChunk { reader, writer } => C2CView::ReadChunk {
                reader: reader@,
                writer: writer.io(),
            },
            C2CState::WriteChunk { reader, writer } => C2CView::WriteChunk {
                reader: reader@,
                writer: writer@,
            },
            C2CState::WriteFinal { reader, writer } => C2CView::WriteFinal {
                reader: reader@,
                writer: writer@,
            },
            C2CState::ReadData { reader, writer } => C2CView::ReadData {
                reader: reader@,
                writer: writer@,
            },
            C2CState::WriteData { reader, writer, data } => C2CView::WriteData {
                reader: reader@,
                writer: writer@,
                data: octets(data),
            },
            C2CState::CloseChunk { reader, writer } => C2CView::CloseChunk {
                reader: reader@,
                writer: writer@,
            },
            C2CState::Done { reader, writer } => C2CView::Done {
                reader: reader.0@,
                slots: reader.1@,
                trailers: reader.2@,
                writer,
            },
        }
    }
}

impl<R, W> Machine for C2CView<R, W> {
    open spec fn step(self, cx: Cx) -> StepView<Self> {
        match self {
            C2CView::ReadChunk { reader, writer } => {
                let (reader, cx, p) = reader.poll_read_chunk(cx);
                match p {
                    Poll::Ready(Err(e)) => StepView::Stop(None, cx, Poll::Ready(Err(e))),
                    Poll::Pending => StepView::Stop(
                        Some(C2CView::ReadChunk { reader, writer }),
                        cx,
                        Poll::Pending,
                    ),
                    Poll::Ready(Ok(())) => StepView::Next(
                        match reader.finish() {
                            NextChunkView::Data(reader) => C2CView::WriteChunk {
                                reader,
                                writer: OpenView { writer, chunk_length: reader.size, written: 0 },
                            },
                            NextChunkView::Final(reader) => C2CView::WriteFinal {
                                reader,
                                writer: FinishView {
                                    writer,
                                    data: encode_end(reader.trailers),
                                    written: 0,
                                    flushed: false,
                                },
                            },
                        },
                        cx,
                    ),
                }
            },
            C2CView::WriteChunk { reader, writer } => {
                let (writer, cx, p) = writer.poll_open(cx);
                match p {
                    Poll::Ready(Err(e)) => StepView::Stop(None, cx, Poll::Ready(Err(e))),
                    Poll::Pending => StepView::Stop(
                        Some(C2CView::WriteChunk { reader, writer }),
                        cx,
                        Poll::Pending,
                    ),
                    Poll::Ready(Ok(())) => StepView::Next(
                        C2CView::ReadData {
                            reader,
                            writer: WriteView {
                                writer: writer.writer,
                                chunk_length: writer.chunk_length,
                                chunk_offset: 0,
                            },
                        },
                        cx,
                    ),
                }
            },
            C2CView::WriteFinal { reader, writer } => {
                let (writer, cx, p) = writer.poll_finish(cx);
                match p {
                    Poll::Ready(Err(e)) => StepView::Stop(None, cx, Poll::Ready(Err(e))),
                    Poll::Pending => StepView::Stop(
                        Some(C2CView::WriteFinal { reader, writer }),
                        cx,
                        Poll::Pending,
                    ),
                    Poll::Ready(Ok(())) => StepView::Next(
                        C2CView::Done {
                            reader: reader.reader,
                            slots: reader.slots,
                            trailers: reader.trailers,
                            writer: writer.writer,
                        },
                        cx,
                    ),
                }
            },
            C2CView::ReadData { reader, writer } => {
                let (reader, cx, p) = reader.poll_read(cx, READ_SIZE as nat);
                match p {
                    Poll::Ready(Err(e)) => StepView::Stop(None, cx, Poll::Ready(Err(e))),
                    Poll::Pending => StepView::Stop(
                        Some(C2CView::ReadData { reader, writer }),
                        cx,
                        Poll::Pending,
                    ),
                    Poll::Ready(Ok(None)) => if writer.chunk_offset < writer.chunk_length {
                        StepView::Stop(
                            None,
                            cx,
                            Poll::Ready(
                                Err(
                                    BodyError::IncompleteBody {
                                        expected: writer.chunk_length,
                                        actual: writer.chunk_offset,
                                    },
                                ),
                            ),
                        )
                    } else {
                        StepView::Next(
                            C2CView::CloseChunk {
                                reader: reader.finish(),
                                writer: CloseView {
                                    writer: writer.writer,
                                    footer: close_bytes(writer.chunk_length),
                                    written: 0,
                                },
                            },
                            cx,
                        )
                    },
                    Poll::Ready(Ok(Some(data))) => StepView::Next(
                        C2CView::WriteData { reader, writer, data },
                        cx,
                    ),
                }
            },
            C2CView::WriteData { reader, writer, data } => {
                let (writer, cx, p) = writer.poll_write(cx, data);
                match p {
                    Poll::Ready(Err(e)) => StepView::Stop(None, cx, Poll::Ready(Err(e))),
                    Poll::Pending => StepView::Stop(
                        Some(C2CView::WriteData { reader, writer, data }),
                        cx,
                        Poll::Pending,
                    ),
                    Poll::Ready(Ok(n)) => {
                        let data = data.skip(n as int);
                        StepView::Next(
                            if data.len() > 0 {
                                C2CView::WriteData { reader, writer, data }
                            } else {
                                C2CView::ReadData { reader, writer }
                            },
                            cx,
                        )
                    },
                }
            },
            C2CView::CloseChunk { reader, writer } => {
                let (writer, cx, p) = writer.poll_close(cx);
                match p {
                    Poll::Ready(Err(e)) => StepView::Stop(None, cx, Poll::Ready(Err(e))),
                    Poll::Pending => StepView::Stop(
                        Some(C2CView::CloseChunk { reader, writer }),
                        cx,
                        Poll::Pending,
                    ),
                    Poll::Ready(Ok(())) => StepView::Next(
                        C2CView::ReadChunk { reader, writer: writer.writer },
                        cx,
                    ),
                }
            },
            C2CView::Done { .. } => StepView::Stop(Some(self), cx, Poll::Ready(Ok(()))),
        }
    }

    open spec fn is_done(self) -> bool {
        self is Done
    }

    proof fn step_is_sound(self, cx: Cx) {
        match self {
            C2CView::ReadChunk { reader, .. } => header_read_takes_reads(reader, cx),
            C2CView::ReadData { reader, .. } => chunk_read_takes_reads(
                reader,
                cx,
                READ_SIZE as nat,
            ),
            _ => {},
        }
    }
}

impl<R, W> C2CView<R, W> {
    /// How many steps there are at most before an outcome has to be taken.
    pub open spec fn rank(self) -> nat {
        match self {
            C2CView::ReadData { .. } => 5,
            C2CView::WriteData { .. } => 4,
            C2CView::CloseChunk { .. } => 3,
            C2CView::ReadChunk { .. } => 2,
            C2CView::WriteChunk { .. } => 1,
            C2CView::WriteFinal { .. } => 1,
            C2CView::Done { .. } => 0,
        }
    }

    /// Whether a chunk header has been written to its end and not been left
    /// behind.
    pub open spec fn has_written_header(self) -> bool {
        self matches C2CView::WriteChunk { writer, .. } && writer.written >= open_bytes(
            writer.chunk_length,
        ).len()
    }
}

impl<R, W> C2CView<R, W> {
    /// The rest of the body is unread, or still to come, however it is spelled: the
    /// data of `chunks`, the trailer fields, and `rest` behind them. Inside a
    /// chunk, the first of `chunks` is what is left of it, and as much is still
    /// missing from the chunk that is being written.
    pub open spec fn carries(
        self,
        cx: Cx,
        coming: Seq<u8>,
        chunks: Seq<Seq<u8>>,
        trailers: Seq<Field>,
        rest: Seq<u8>,
    ) -> bool {
        match self {
            C2CView::ReadChunk { reader, .. } => between_chunks(reader, cx, coming, chunks, trailers, rest),
            C2CView::WriteChunk { reader, writer } => {
                &&& in_a_chunk(reader, cx, coming, chunks, trailers, rest)
                &&& chunks[0].len() == writer.chunk_length
                &&& writer.chunk_length > 0
                &&& writer.written <= open_bytes(writer.chunk_length).len()
            },
            C2CView::ReadData { reader, writer } => {
                &&& in_a_chunk(reader, cx, coming, chunks, trailers, rest)
                &&& writer.chunk_offset + chunks[0].len() == writer.chunk_length
                &&& writer.chunk_length > 0
            },
            C2CView::WriteData { reader, writer, data } => {
                &&& in_a_chunk(reader, cx, coming, chunks, trailers, rest)
                &&& writer.chunk_offset + data.len() + chunks[0].len() == writer.chunk_length
                &&& writer.chunk_length > 0
            },
            C2CView::CloseChunk { reader, writer } => {
                &&& between_chunks(reader, cx, coming, chunks, trailers, rest)
                &&& writer.written <= writer.footer.len()
            },
            C2CView::WriteFinal { reader, writer } => {
                &&& chunks.len() == 0
                &&& reader.trailers == trailers
                &&& unread(reader.reader, cx) + coming == rest
                &&& writer.written <= writer.data.len()
            },
            C2CView::Done { reader, trailers: fields, .. } => chunks.len() == 0 && fields
                == trailers && unread(reader, cx) + coming == rest,
        }
    }

    /// What is still to be put on the wire of a body whose rest is `chunks` and
    /// the trailer fields.
    pub open spec fn to_write(self, chunks: Seq<Seq<u8>>, trailers: Seq<Field>) -> Seq<u8> {
        let end = encode_end(trailers);
        match self {
            C2CView::ReadChunk { .. } => encode_chunks(chunks) + end,
            C2CView::WriteChunk { writer, .. } => writer.pending() + chunk_rest(chunks, end),
            C2CView::ReadData { .. } => chunk_rest(chunks, end),
            C2CView::WriteData { data, .. } => data + chunk_rest(chunks, end),
            C2CView::CloseChunk { writer, .. } => writer.pending() + (encode_chunks(chunks) + end),
            C2CView::WriteFinal { writer, .. } => writer.pending(),
            C2CView::Done { .. } => Seq::empty(),
        }
    }

    /// The body has been forwarded, and `rest` is unread behind it.
    pub open spec fn is_done(
        self,
        cx: Cx,
        coming: Seq<u8>,
        trailers: Seq<Field>,
        rest: Seq<u8>,
    ) -> bool {
        self matches C2CView::Done { reader, trailers: fields, .. } && fields == trailers
            && unread(reader, cx) + coming == rest
    }

    /// The forwarder carries the rest of a body with these trailer fields; and
    /// what is on the wire and still to be put there makes up `before`.
    pub open spec fn goes_on(
        self,
        cx: Cx,
        before: Seq<u8>,
        coming: Seq<u8>,
        trailers: Seq<Field>,
        rest: Seq<u8>,
    ) -> bool {
        exists|left: Seq<Seq<u8>>|
            #[trigger] self.carries(cx, coming, left, trailers, rest) && cx.wire + self.to_write(
                left,
                trailers,
            ) == before
    }
}

/// A reader between the chunks of a body.
pub open spec fn between_chunks<R>(
    reader: ChunkHeadView<R>,
    cx: Cx,
    coming: Seq<u8>,
    chunks: Seq<Seq<u8>>,
    trailers: Seq<Field>,
    rest: Seq<u8>,
) -> bool {
    ChunkedView(Some(ChunkStreamView::BetweenChunk(reader))).holds(cx, coming, chunks, trailers, rest)
}

/// A reader in a chunk of a body.
pub open spec fn in_a_chunk<R>(
    reader: ChunkDataView<R>,
    cx: Cx,
    coming: Seq<u8>,
    chunks: Seq<Seq<u8>>,
    trailers: Seq<Field>,
    rest: Seq<u8>,
) -> bool {
    ChunkedView(Some(ChunkStreamView::InChunk(reader))).holds(cx, coming, chunks, trailers, rest)
}

/// The rest of a chunk, of which the first of `chunks` is left, and of the body
/// behind it.
pub open spec fn chunk_rest(chunks: Seq<Seq<u8>>, end: Seq<u8>) -> Seq<u8> {
    chunks[0] + crlf() + (encode_chunks(chunks.skip(1)) + end)
}

/// What a step of the forwarder comes to: the step of the machine, with a
/// measure that tells that steps come to an end; and of a body, however it comes
/// in, the next bytes are forwarded.
spec fn is_step<R, W>(s: C2CView<R, W>, cx: Cx, r: Step<C2CState<R, W>>, cx2: Cx) -> bool {
    &&& step_view(r, cx2) == s.step(cx)
    &&& cx2.read == cx.read || cx2.read is None
    &&& r matches Step::Stop(parked, Poll::Ready(Ok(()))) ==> parked is Some
        && parked->Some_0@ is Done
    &&& r matches Step::Next(next) ==> {
        &&& cx2.events() <= cx.events()
        &&& cx2.events() == cx.events() && !s.has_written_header() ==> next@.rank() < s.rank()
        &&& !next@.has_written_header()
    }
    &&& forall|coming: Seq<u8>, chunks: Seq<Seq<u8>>, trailers: Seq<Field>, rest: Seq<u8>|
        #[trigger] s.carries(cx, coming, chunks, trailers, rest) ==> {
            let before = cx.wire + s.to_write(chunks, trailers);
            match r {
                Step::Next(next) => next@.goes_on(cx2, before, coming, trailers, rest),
                Step::Stop(Some(next), _) => next@.goes_on(cx2, before, coming, trailers, rest),
                Step::Stop(None, p) => p matches Poll::Ready(Err(e)) && (
                e is BodyWriteError || coming.len() > 0 && read_failed(cx)),
            }
        }
}

/// What the read of a chunk header between the chunks of a body comes to.
spec fn head_of<R>(
    t: ChunkHeadView<R>,
    cx2: Cx,
    p: Poll<BodyResult<()>>,
    cx: Cx,
    coming: Seq<u8>,
    chunks: Seq<Seq<u8>>,
    trailers: Seq<Field>,
    rest: Seq<u8>,
) -> bool {
    match p {
        Poll::Ready(Ok(())) => if chunks.len() == 0 {
            t.finish() matches NextChunkView::Final(last) && last.trailers == trailers && unread(
                last.reader,
                cx2,
            ) + coming == rest
        } else {
            &&& 0 < chunks[0].len() <= u64::MAX
            &&& t.finish() matches NextChunkView::Data(d) && d.size == chunks[0].len()
                && in_a_chunk(d, cx2, coming, chunks, trailers, rest)
        },
        Poll::Pending => between_chunks(t, cx2, coming, chunks, trailers, rest),
        Poll::Ready(Err(_)) => coming.len() > 0 && read_failed(cx),
    }
}

fn read_chunk<R, W>(mut reader: ChunkHeadReader<R>, writer: Ready<W>, cx: &mut Context) -> (r: Step<
    C2CState<R, W>,
>)
    ensures
        is_step(
            C2CView::ReadChunk { reader: reader@, writer: writer.io() },
            old(cx)@,
            r,
            final(cx)@,
        ),
{
    let ghost s = C2CView::ReadChunk { reader: reader@, writer: writer.io() };
    let ghost head = reader@;
    let ghost cx0 = cx@;
    proof {
        header_read_takes_reads(head, cx0);
    }
    let p = reader.poll_read_chunk(cx);
    proof {
        assert forall|
            coming: Seq<u8>,
            chunks: Seq<Seq<u8>>,
            trailers: Seq<Field>,
            rest: Seq<u8>,
        | #[trigger]
            s.carries(cx0, coming, chunks, trailers, rest) implies head_of(
            reader@,
            cx@,
            p,
            cx0,
            coming,
            chunks,
            trailers,
            rest,
        ) by {
            lemma_between(head, cx0, coming, chunks, trailers, rest);
        }
    }
    match p {
        Poll::Ready(Err(e)) => Step::Stop(None, Poll::Ready(Err(e))),
        Poll::Pending => {
            let next = C2CState::ReadChunk { reader, writer };
            assert(forall|
                coming: Seq<u8>,
                chunks: Seq<Seq<u8>>,
                trailers: Seq<Field>,
                rest: Seq<u8>,
            | #[trigger]
                s.carries(cx0, coming, chunks, trailers, rest) ==> next@.carries(
                    cx@,
                    coming,
                    chunks,
                    trailers,
                    rest,
                ));
            Step::Stop(Some(next), Poll::Pending)
        },
        Poll::Ready(Ok(())) => match reader.finish() {
            NextChunk::Data(reader) => {
                let writer = writer.open(reader.size());
                let next = C2CState::WriteChunk { reader, writer };
                proof {
                    assert forall|
                        coming: Seq<u8>,
                        chunks: Seq<Seq<u8>>,
                        trailers: Seq<Field>,
                        rest: Seq<u8>,
                    | #[trigger]
                        s.carries(old(cx)@, coming, chunks, trailers, rest) implies next@.goes_on(
                        cx@,
                        cx@.wire + s.to_write(chunks, trailers),
                        coming,
                        trailers,
                        rest,
                    ) by {
                        assert(next@.carries(cx@, coming, chunks, trailers, rest));
                        let header = open_bytes(chunks[0].len() as u64);
                        assert(header.skip(0) =~= header);
                        assert(next@.to_write(chunks, trailers) =~= s.to_write(chunks, trailers));
                    }
                }
                Step::Next(next)
            },
            NextChunk::Final(reader) => {
                let writer = writer.finish_with_trailers(reader.trailers());
                let next = C2CState::WriteFinal { reader, writer };
                proof {
                    assert forall|
                        coming: Seq<u8>,
                        chunks: Seq<Seq<u8>>,
                        trailers: Seq<Field>,
                        rest: Seq<u8>,
                    | #[trigger]
                        s.carries(old(cx)@, coming, chunks, trailers, rest) implies next@.goes_on(
                        cx@,
                        cx@.wire + s.to_write(chunks, trailers),
                        coming,
                        trailers,
                        rest,
                    ) by {
                        assert(next@.carries(cx@, coming, chunks, trailers, rest));
                        assert(encode_end(trailers).skip(0) =~= encode_end(trailers));
                        assert(next@.to_write(chunks, trailers) =~= s.to_write(chunks, trailers));
                    }
                }
                Step::Next(next)
            },
        },
    }
}

fn write_chunk<R, W>(reader: ChunkDataReader<R>, mut writer: Open<W>, cx: &mut Context) -> (r: Step<
    C2CState<R, W>,
>)
    ensures
        is_step(
            C2CView::WriteChunk { reader: reader@, writer: writer@ },
            old(cx)@,
            r,
            final(cx)@,
        ),
{
    let ghost s: C2CView<R, W> = C2CView::WriteChunk { reader: reader@, writer: writer@ };
    let ghost before = writer@.pending();
    let p = writer.poll_open(cx);
    proof {
        lemma_holds_by_read(ChunkedView(Some(ChunkStreamView::InChunk(reader@))), old(cx)@, cx@);
        let after = writer@.pending();
        assert forall|coming: Seq<u8>, chunks: Seq<Seq<u8>>, trailers: Seq<Field>, rest: Seq<u8>|
            #[trigger] s.carries(old(cx)@, coming, chunks, trailers, rest) implies {
            let more = chunk_rest(chunks, encode_end(trailers));
            cx@.wire + (after + more) == old(cx)@.wire + (before + more) && writer@.written
                <= open_bytes(writer@.chunk_length).len()
        } by {
            put_keeps_bytes(old(cx)@, open_bytes(s->WriteChunk_writer.chunk_length), s->WriteChunk_writer.written);
            let more = chunk_rest(chunks, encode_end(trailers));
            assert(cx@.wire + (after + more) =~= (cx@.wire + after) + more);
            assert(old(cx)@.wire + (before + more) =~= (old(cx)@.wire + before) + more);
        }
    }
    match p {
        Poll::Ready(Err(e)) => Step::Stop(None, Poll::Ready(Err(e))),
        Poll::Pending => {
            let next = C2CState::WriteChunk { reader, writer };
            assert(forall|
                coming: Seq<u8>,
                chunks: Seq<Seq<u8>>,
                trailers: Seq<Field>,
                rest: Seq<u8>,
            | #[trigger]
                s.carries(old(cx)@, coming, chunks, trailers, rest) ==> next@.carries(
                    cx@,
                    coming,
                    chunks,
                    trailers,
                    rest,
                ));
            Step::Stop(Some(next), Poll::Pending)
        },
        Poll::Ready(Ok(())) => {
            let ghost after = writer@.pending();
            assert(after =~= Seq::empty());
            match writer.into_write() {
                Ok(writer) => {
                    let next = C2CState::ReadData { reader, writer };
                    proof {
                        assert forall|
                            coming: Seq<u8>,
                            chunks: Seq<Seq<u8>>,
                            trailers: Seq<Field>,
                            rest: Seq<u8>,
                        | #[trigger]
                            s.carries(old(cx)@, coming, chunks, trailers, rest) implies next@.goes_on(
                            cx@,
                            old(cx)@.wire + s.to_write(chunks, trailers),
                            coming,
                            trailers,
                            rest,
                        ) by {
                            assert(next@.carries(cx@, coming, chunks, trailers, rest));
                            let more = chunk_rest(chunks, encode_end(trailers));
                            assert(after + more =~= more);
                        }
                    }
                    Step::Next(next)
                },
                Err(e) => Step::Stop(None, Poll::Ready(Err(e))),
            }
        },
    }
}

fn write_final<R, W>(reader: FinalChunkReader<R>, mut writer: Finish<W>, cx: &mut Context) -> (r:
    Step<C2CState<R, W>>)
    ensures
        is_step(
            C2CView::WriteFinal { reader: reader@, writer: writer@ },
            old(cx)@,
            r,
            final(cx)@,
        ),
{
    let ghost s: C2CView<R, W> = C2CView::WriteFinal { reader: reader@, writer: writer@ };
    proof {
        if writer@.written <= writer@.data.len() {
            put_keeps_bytes(cx@, writer@.data, writer@.written);
        }
    }
    match writer.poll_finish(cx) {
        Poll::Ready(Err(e)) => Step::Stop(None, Poll::Ready(Err(e))),
        Poll::Pending => {
            let next = C2CState::WriteFinal { reader, writer };
            assert(forall|
                coming: Seq<u8>,
                chunks: Seq<Seq<u8>>,
                trailers: Seq<Field>,
                rest: Seq<u8>,
            | #[trigger]
                s.carries(old(cx)@, coming, chunks, trailers, rest) ==> next@.carries(
                    cx@,
                    coming,
                    chunks,
                    trailers,
                    rest,
                ));
            Step::Stop(Some(next), Poll::Pending)
        },
        Poll::Ready(Ok(())) => {
            assert(writer@.pending() =~= Seq::empty());
            match writer.into_writer() {
                Ok(writer) => {
                    let reader = reader.into_parts();
                    let next = C2CState::Done { reader, writer };
                    assert(forall|
                        coming: Seq<u8>,
                        chunks: Seq<Seq<u8>>,
                        trailers: Seq<Field>,
                        rest: Seq<u8>,
                    | #[trigger]
                        s.carries(old(cx)@, coming, chunks, trailers, rest) ==> next@.carries(
                            cx@,
                            coming,
                            chunks,
                            trailers,
                            rest,
                        ));
                    Step::Next(next)
                },
                Err(e) => Step::Stop(None, Poll::Ready(Err(e))),
            }
        },
    }
}

fn read_data<R, W>(mut reader: ChunkDataReader<R>, writer: Write<W>, cx: &mut Context) -> (r: Step<
    C2CState<R, W>,
>)
    ensures
        is_step(C2CView::ReadData { reader: reader@, writer: writer@ }, old(cx)@, r, final(cx)@),
{
    let ghost s: C2CView<R, W> = C2CView::ReadData { reader: reader@, writer: writer@ };
    proof {
        chunk_read_takes_reads(reader@, cx@, READ_SIZE as nat);
        let d = reader@;
        assert forall|coming: Seq<u8>, chunks: Seq<Seq<u8>>, trailers: Seq<Field>, rest: Seq<u8>|
            #[trigger] s.carries(old(cx)@, coming, chunks, trailers, rest) implies ({
            let (t, cx2, p) = d.poll_read(cx@, READ_SIZE as nat);
            match p {
                Poll::Ready(Ok(Some(data))) => data == chunks[0].take(data.len() as int)
                    && data.len() <= chunks[0].len() && in_a_chunk(
                    t,
                    cx2,
                    coming,
                    chunks_left(chunks, data.len() as int),
                    trailers,
                    rest,
                ),
                Poll::Ready(Ok(None)) => chunks[0].len() == 0 && between_chunks(
                    t.finish(),
                    cx2,
                    coming,
                    chunks.skip(1),
                    trailers,
                    rest,
                ),
                Poll::Pending => in_a_chunk(t, cx2, coming, chunks, trailers, rest),
                Poll::Ready(Err(_)) => coming.len() > 0 && read_failed(cx@),
            }
        }) by {
            lemma_in_chunk(d, cx@, READ_SIZE as nat, coming, chunks, trailers, rest);
        }
    }
    match reader.poll_read(cx, READ_SIZE) {
        Poll::Ready(Err(e)) => Step::Stop(None, Poll::Ready(Err(e))),
        Poll::Pending => {
            let next = C2CState::ReadData { reader, writer };
            assert(forall|
                coming: Seq<u8>,
                chunks: Seq<Seq<u8>>,
                trailers: Seq<Field>,
                rest: Seq<u8>,
            | #[trigger]
                s.carries(old(cx)@, coming, chunks, trailers, rest) ==> next@.carries(
                    cx@,
                    coming,
                    chunks,
                    trailers,
                    rest,
                ));
            Step::Stop(Some(next), Poll::Pending)
        },
        Poll::Ready(Ok(None)) => match writer.into_close() {
            Ok(writer) => {
                let reader = reader.finish();
                let next = C2CState::CloseChunk { reader, writer };
                proof {
                    assert forall|
                        coming: Seq<u8>,
                        chunks: Seq<Seq<u8>>,
                        trailers: Seq<Field>,
                        rest: Seq<u8>,
                    | #[trigger]
                        s.carries(old(cx)@, coming, chunks, trailers, rest) implies next@.goes_on(
                        cx@,
                        cx@.wire + s.to_write(chunks, trailers),
                        coming,
                        trailers,
                        rest,
                    ) by {
                        let left = chunks.skip(1);
                        assert(next@.carries(cx@, coming, left, trailers, rest));
                        assert(crlf().skip(0) =~= crlf());
                        assert(next@.to_write(left, trailers) =~= s.to_write(chunks, trailers));
                    }
                }
                Step::Next(next)
            },
            Err(e) => Step::Stop(None, Poll::Ready(Err(e))),
        },
        Poll::Ready(Ok(Some(data))) => {
            let next = C2CState::WriteData { reader, writer, data };
            proof {
                assert forall|
                    coming: Seq<u8>,
                    chunks: Seq<Seq<u8>>,
                    trailers: Seq<Field>,
                    rest: Seq<u8>,
                | #[trigger]
                    s.carries(old(cx)@, coming, chunks, trailers, rest) implies next@.goes_on(
                    cx@,
                    cx@.wire + s.to_write(chunks, trailers),
                    coming,
                    trailers,
                    rest,
                ) by {
                    let n = octets(data).len() as int;
                    let left = chunks_left(chunks, n);
                    assert(left[0] == chunks[0].skip(n));
                    assert(left.skip(1) =~= chunks.skip(1));
                    assert(next@.carries(cx@, coming, left, trailers, rest));
                    assert(next@.to_write(left, trailers) =~= s.to_write(chunks, trailers));
                }
            }
            Step::Next(next)
        },
    }
}

fn write_data<R, W>(
    reader: ChunkDataReader<R>,
    mut writer: Write<W>,
    mut data: Bytes,
    cx: &mut Context,
) -> (r: Step<C2CState<R, W>>)
    ensures
        is_step(
            C2CView::WriteData { reader: reader@, writer: writer@, data: octets(data) },
            old(cx)@,
            r,
            final(cx)@,
        ),
{
    let ghost all = octets(data);
    let ghost s: C2CView<R, W> = C2CView::WriteData {
        reader: reader@,
        writer: writer@,
        data: all,
    };
    assert(all.take(0) =~= Seq::empty());
    let p = writer.poll_write(cx, &data);
    proof {
        lemma_holds_by_read(ChunkedView(Some(ChunkStreamView::InChunk(reader@))), old(cx)@, cx@);
    }
    match p {
        Poll::Ready(Err(e)) => Step::Stop(None, Poll::Ready(Err(e))),
        Poll::Pending => {
            let next = C2CState::WriteData { reader, writer, data };
            assert(cx@.wire =~= old(cx)@.wire);
            assert(forall|
                coming: Seq<u8>,
                chunks: Seq<Seq<u8>>,
                trailers: Seq<Field>,
                rest: Seq<u8>,
            | #[trigger]
                s.carries(old(cx)@, coming, chunks, trailers, rest) ==> next@.carries(
                    cx@,
                    coming,
                    chunks,
                    trailers,
                    rest,
                ));
            Step::Stop(Some(next), Poll::Pending)
        },
        Poll::Ready(Ok(len)) => {
            let _written = data.split_to(len);
            let next = if data.len() > 0 {
                C2CState::WriteData { reader, writer, data }
            } else {
                C2CState::ReadData { reader, writer }
            };
            proof {
                assert forall|
                    coming: Seq<u8>,
                    chunks: Seq<Seq<u8>>,
                    trailers: Seq<Field>,
                    rest: Seq<u8>,
                | #[trigger]
                    s.carries(old(cx)@, coming, chunks, trailers, rest) implies next@.goes_on(
                    cx@,
                    old(cx)@.wire + s.to_write(chunks, trailers),
                    coming,
                    trailers,
                    rest,
                ) by {
                    assert(next@.carries(cx@, coming, chunks, trailers, rest));
                    assert(cx@.wire + next@.to_write(chunks, trailers) =~= old(cx)@.wire + (all
                        + chunk_rest(chunks, encode_end(trailers))));
                }
            }
            Step::Next(next)
        },
    }
}

fn close_chunk<R, W>(reader: ChunkHeadReader<R>, mut writer: Close<W>, cx: &mut Context) -> (r:
    Step<C2CState<R, W>>)
    ensures
        is_step(C2CView::CloseChunk { reader: reader@, writer: writer@ }, old(cx)@, r, final(cx)@),
{
    let ghost s: C2CView<R, W> = C2CView::CloseChunk { reader: reader@, writer: writer@ };
    let ghost before = writer@.pending();
    proof {
        if writer@.written <= writer@.footer.len() {
            put_keeps_bytes(cx@, writer@.footer, writer@.written);
        }
    }
    let p = writer.poll_close(cx);
    let ghost after = writer@.pending();
    proof {
        lemma_holds_by_read(ChunkedView(Some(ChunkStreamView::BetweenChunk(reader@))), old(cx)@, cx@);
        assert forall|more: Seq<u8>|
            cx@.wire + #[trigger] (after + more) == old(cx)@.wire + (before + more) by {
            assert(cx@.wire + (after + more) =~= (cx@.wire + after) + more);
            assert(old(cx)@.wire + (before + more) =~= (old(cx)@.wire + before) + more);
        }
    }
    match p {
        Poll::Ready(Err(e)) => Step::Stop(None, Poll::Ready(Err(e))),
        Poll::Pending => {
            let next = C2CState::CloseChunk { reader, writer };
            assert(forall|
                coming: Seq<u8>,
                chunks: Seq<Seq<u8>>,
                trailers: Seq<Field>,
                rest: Seq<u8>,
            | #[trigger]
                s.carries(old(cx)@, coming, chunks, trailers, rest) ==> next@.carries(
                    cx@,
                    coming,
                    chunks,
                    trailers,
                    rest,
                ));
            Step::Stop(Some(next), Poll::Pending)
        },
        Poll::Ready(Ok(())) => {
            assert(after =~= Seq::empty());
            match writer.into_ready() {
                Ok(writer) => {
                    let next = C2CState::ReadChunk { reader, writer };
                    proof {
                        assert forall|
                            coming: Seq<u8>,
                            chunks: Seq<Seq<u8>>,
                            trailers: Seq<Field>,
                            rest: Seq<u8>,
                        | #[trigger]
                            s.carries(old(cx)@, coming, chunks, trailers, rest) implies next@.goes_on(
                            cx@,
                            old(cx)@.wire + s.to_write(chunks, trailers),
                            coming,
                            trailers,
                            rest,
                        ) by {
                            assert(next@.carries(cx@, coming, chunks, trailers, rest));
                            let more = encode_chunks(chunks) + encode_end(trailers);
                            assert(after + more =~= more);
                        }
                    }
                    Step::Next(next)
                },
                Err(e) => Step::Stop(None, Poll::Ready(Err(e))),
            }
        },
    }
}

/// One step of the forwarder.
fn advance<R, W>(state: C2CState<R, W>, cx: &mut Context) -> (r: Step<C2CState<R, W>>)
    ensures
        is_step(state@, old(cx)@, r, final(cx)@),
{
    match state {
        C2CState::ReadChunk { reader, writer } => read_chunk(reader, writer, cx),
        C2CState::WriteChunk { reader, writer } => write_chunk(reader, writer, cx),
        C2CState::WriteFinal { reader, writer } => write_final(reader, writer, cx),
        C2CState::ReadData { reader, writer } => read_data(reader, writer, cx),
        C2CState::WriteData { reader, writer, data } => write_data(reader, writer, data, cx),
        C2CState::CloseChunk { reader, writer } => close_chunk(reader, writer, cx),
        C2CState::Done { reader, writer } => {
            let next = C2CState::Done { reader, writer };
            assert(forall|
                coming: Seq<u8>,
                chunks: Seq<Seq<u8>>,
                trailers: Seq<Field>,
                rest: Seq<u8>,
            | #[trigger]
                state@.carries(old(cx)@, coming, chunks, trailers, rest) ==> next@.carries(
                    cx@,
                    coming,
                    chunks,
                    trailers,
                    rest,
                ));
            Step::Stop(Some(next), Poll::Ready(Ok(())))
        },
    }
}

/// What a poll does to a body that comes in: what was to be put on the wire is
/// there once the poll succeeds, and until then what is there and what is still to
/// be put there make up the same bytes. A poll fails only where a write does, or a
/// read before the body has come.
pub open spec fn forwards<R, W>(
    s: Option<C2CView<R, W>>,
    cx: Cx,
    t: Option<C2CView<R, W>>,
    cx2: Cx,
    r: Poll<BodyResult<()>>,
) -> bool {
    forall|coming: Seq<u8>, chunks: Seq<Seq<u8>>, trailers: Seq<Field>, rest: Seq<u8>|
        s is Some && #[trigger] s->Some_0.carries(cx, coming, chunks, trailers, rest)
            ==> has_forwarded(
            t,
            cx2,
            r,
            cx,
            coming,
            cx.wire + s->Some_0.to_write(chunks, trailers),
            trailers,
            rest,
        )
}

/// What a poll has come to, where `all` is what is on the wire once the body has
/// been forwarded.
pub open spec fn has_forwarded<R, W>(
    t: Option<C2CView<R, W>>,
    cx2: Cx,
    r: Poll<BodyResult<()>>,
    cx: Cx,
    coming: Seq<u8>,
    all: Seq<u8>,
    trailers: Seq<Field>,
    rest: Seq<u8>,
) -> bool {
    match t {
        Some(t) => t.goes_on(cx2, all, coming, trailers, rest) && ((r matches Poll::Ready(Ok(())))
            ==> t.is_done(cx2, coming, trailers, rest) && cx2.wire == all),
        None => r matches Poll::Ready(Err(e)) && (e is BodyWriteError || coming.len() > 0
            && read_failed(cx)),
    }
}

impl<R, W> C2CView<R, W> {
    /// The bytes that have come and have not been consumed.
    pub open spec fn unread(self, cx: Cx) -> Seq<u8> {
        match self {
            C2CView::ReadChunk { reader, .. } => unread(reader.reader, cx),
            C2CView::WriteChunk { reader, .. } => unread(reader.reader, cx),
            C2CView::WriteFinal { reader, .. } => unread(reader.reader, cx),
            C2CView::ReadData { reader, .. } => unread(reader.reader, cx),
            C2CView::WriteData { reader, .. } => unread(reader.reader, cx),
            C2CView::CloseChunk { reader, .. } => unread(reader.reader, cx),
            C2CView::Done { reader, .. } => unread(reader, cx),
        }
    }
}

/// The polls follow each other: between two of them nothing is put on the wire, and
/// bytes only come in, in order, of those that were still to come.
pub open spec fn polls_follow<R, W>(
    s: C2CView<R, W>,
    polls: Seq<ForwardPoll<C2CView<R, W>>>,
) -> bool
    decreases polls.len(),
{
    polls.len() > 0 ==> {
        let before = polls.drop_last();
        let last = polls.last();
        if before.len() == 0 {
            forwards(Some(s), last.cx, last.parked, last.cx2, last.r)
        } else {
            let prior = before.last();
            &&& polls_follow(s, before)
            &&& prior.parked is Some
            &&& forwards(prior.parked, last.cx, last.parked, last.cx2, last.r)
            &&& last.cx.wire == prior.cx2.wire
            &&& prior.parked->Some_0.unread(last.cx) + last.coming
                == prior.parked->Some_0.unread(prior.cx2) + prior.coming
        }
    }
}

proof fn lemma_carries_by_unread<R, W>(
    s: C2CView<R, W>,
    cx: Cx,
    coming: Seq<u8>,
    cx2: Cx,
    coming2: Seq<u8>,
    chunks: Seq<Seq<u8>>,
    trailers: Seq<Field>,
    rest: Seq<u8>,
)
    requires
        s.carries(cx, coming, chunks, trailers, rest),
        s.unread(cx) + coming == s.unread(cx2) + coming2,
    ensures
        s.carries(cx2, coming2, chunks, trailers, rest),
{
    match s {
        C2CView::ReadChunk { reader, .. } => lemma_holds_by_unread(
            ChunkedView(Some(ChunkStreamView::BetweenChunk(reader))),
            cx,
            coming,
            cx2,
            coming2,
            chunks,
            trailers,
            rest,
        ),
        C2CView::CloseChunk { reader, .. } => lemma_holds_by_unread(
            ChunkedView(Some(ChunkStreamView::BetweenChunk(reader))),
            cx,
            coming,
            cx2,
            coming2,
            chunks,
            trailers,
            rest,
        ),
        C2CView::WriteChunk { reader, .. } => lemma_holds_by_unread(
            ChunkedView(Some(ChunkStreamView::InChunk(reader))),
            cx,
            coming,
            cx2,
            coming2,
            chunks,
            trailers,
            rest,
        ),
        C2CView::ReadData { reader, .. } => lemma_holds_by_unread(
            ChunkedView(Some(ChunkStreamView::InChunk(reader))),
            cx,
            coming,
            cx2,
            coming2,
            chunks,
            trailers,
            rest,
        ),
        C2CView::WriteData { reader, .. } => lemma_holds_by_unread(
            ChunkedView(Some(ChunkStreamView::InChunk(reader))),
            cx,
            coming,
            cx2,
            coming2,
            chunks,
            trailers,
            rest,
        ),
        _ => {},
    }
}

/// Over all polls, however the body comes in and however the writes come out: what
/// is on the wire and still to be put there make up what was there before and the
/// body; and once a poll succeeds, all of it is there, the trailer fields are those
/// of the body, and what follows is unread.
pub proof fn polls_forward_the_body<R, W>(
    s: C2CView<R, W>,
    polls: Seq<ForwardPoll<C2CView<R, W>>>,
    chunks: Seq<Seq<u8>>,
    trailers: Seq<Field>,
    rest: Seq<u8>,
)
    requires
        polls.len() > 0,
        polls_follow(s, polls),
        s.carries(polls[0].cx, polls[0].coming, chunks, trailers, rest),
    ensures
        has_forwarded(
            polls.last().parked,
            polls.last().cx2,
            polls.last().r,
            polls.last().cx,
            polls.last().coming,
            polls[0].cx.wire + s.to_write(chunks, trailers),
            trailers,
            rest,
        ),
    decreases polls.len(),
{
    let before = polls.drop_last();
    let last = polls.last();
    let all = polls[0].cx.wire + s.to_write(chunks, trailers);
    if before.len() > 0 {
        assert(before[0] == polls[0]);
        polls_forward_the_body(s, before, chunks, trailers, rest);
        let prior = before.last();
        let m = prior.parked->Some_0;
        assert(prior.parked == Some(m));
        assert(m.goes_on(prior.cx2, all, prior.coming, trailers, rest));
        let left = choose|left: Seq<Seq<u8>>|
            #[trigger] m.carries(prior.cx2, prior.coming, left, trailers, rest) && prior.cx2.wire
                + m.to_write(left, trailers) == all;
        lemma_carries_by_unread(
            m,
            prior.cx2,
            prior.coming,
            last.cx,
            last.coming,
            left,
            trailers,
            rest,
        );
    } else {
        assert(Some(s)->Some_0.carries(last.cx, last.coming, chunks, trailers, rest));
    }
}

proof fn lemma_done_has_written<R, W>(parked: Option<C2CView<R, W>>, cx: Cx)
    ensures
        forall|all: Seq<u8>, coming: Seq<u8>, trailers: Seq<Field>, rest: Seq<u8>|
            parked is Some && parked->Some_0 is Done && #[trigger] parked->Some_0.goes_on(
                cx,
                all,
                coming,
                trailers,
                rest,
            ) ==> parked->Some_0.is_done(cx, coming, trailers, rest) && cx.wire == all,
{
    assert forall|all: Seq<u8>, coming: Seq<u8>, trailers: Seq<Field>, rest: Seq<u8>|
        parked is Some && parked->Some_0 is Done && #[trigger] parked->Some_0.goes_on(
            cx,
            all,
            coming,
            trailers,
            rest,
        ) implies parked->Some_0.is_done(cx, coming, trailers, rest) && cx.wire == all by {
        let t = parked->Some_0;
        let left = choose|left: Seq<Seq<u8>>|
            #[trigger] t.carries(cx, coming, left, trailers, rest) && cx.wire + t.to_write(
                left,
                trailers,
            ) == all;
        assert(cx.wire + t.to_write(left, trailers) =~= cx.wire);
    }
}

/// Forwards a chunk-encoded body to another.
pub struct ChunkToChunkBodyForwarder<R, W> {
    state: Option<C2CState<R, W>>,
}

impl<R, W> View for ChunkToChunkBodyForwarder<R, W> {
    type V = Option<C2CView<R, W>>;

    closed spec fn view(&self) -> Option<C2CView<R, W>> {
        option_view(self.state)
    }
}

impl<R, W> ChunkToChunkBodyForwarder<R, W> {
    /// A forwarder at the start of a body.
    pub fn new(reader: ChunkHeadReader<R>, writer: Ready<W>) -> (r: Self)
        ensures
            r@ == Some(C2CView::ReadChunk { reader: reader@, writer: writer.io() }),
    {
        Self { state: Some(C2CState::ReadChunk { reader, writer }) }
    }

    /// Forward as much as can be forwarded. A body is forwarded chunk by chunk and
    /// with its trailer fields, however its headers are spelled, however it comes in
    /// and however the writes come out; extensions are dropped, and what stands
    /// behind the body stays unread. Forwarding fails only where a write or a read
    /// does.
    pub fn poll_forward(&mut self, cx: &mut Context) -> (r: Poll<BodyResult<()>>)
        ensures
            exists|n: nat| #[trigger]
                run(old(self)@, old(cx)@, n) == Some((final(self)@, final(cx)@, r)),
            forwards(old(self)@, old(cx)@, final(self)@, final(cx)@, r),
    {
        let ghost mut k: nat = 0;
        let mut state = match self.state.take() {
            None => {
                assert(run(old(self)@, cx@, 1) is Some);
                return Poll::Ready(Err(BodyError::ForwardAfterError));
            },
            Some(state) => state,
        };
        proof {
            assert forall|
                coming: Seq<u8>,
                chunks: Seq<Seq<u8>>,
                trailers: Seq<Field>,
                rest: Seq<u8>,
            | #[trigger]
                state@.carries(old(cx)@, coming, chunks, trailers, rest) implies state@.goes_on(
                cx@,
                old(cx)@.wire + old(self)@->Some_0.to_write(chunks, trailers),
                coming,
                trailers,
                rest,
            ) by {}
        }
        // Only a state from before this poll can have written its header.
        let ghost mut first: nat = 1;
        loop
            invariant
                forall|n: nat| #[trigger]
                    run(Some(state@), cx@, n) == run(old(self)@, old(cx)@, n + k),
                self.state is None,
                old(self)@ is Some,
                cx@.read == old(cx)@.read || cx@.read is None,
                forall|
                    coming: Seq<u8>,
                    chunks: Seq<Seq<u8>>,
                    trailers: Seq<Field>,
                    rest: Seq<u8>,
                | #[trigger]
                    old(self)@->Some_0.carries(old(cx)@, coming, chunks, trailers, rest) ==> state@.goes_on(
                        cx@,
                        old(cx)@.wire + old(self)@->Some_0.to_write(chunks, trailers),
                        coming,
                        trailers,
                        rest,
                    ),
                first == 0 ==> !state@.has_written_header(),
            decreases cx@.events(), first, state@.rank(),
        {
            let ghost before = state@;
            let ghost cx0 = cx@;
            proof {
                assert(run(Some(before), cx0, 1) == run(old(self)@, old(cx)@, 1 + k));
            }
            match advance(state, cx) {
                Step::Stop(parked, p) => {
                    self.state = parked;
                    proof {
                        lemma_done_has_written(self@, cx@);
                    }
                    return p;
                },
                Step::Next(next) => {
                    state = next;
                    proof {
                        assert forall|n: nat| #[trigger]
                            run(Some(state@), cx@, n) == run(
                            old(self)@,
                            old(cx)@,
                            n + (k + 1),
                        ) by {
                            assert(run(Some(before), cx0, n + 1) == run(
                                old(self)@,
                                old(cx)@,
                                n + 1 + k,
                            ));
                        }
                        k = k + 1;
                        if before.has_written_header() {
                            first = 0;
                        }
                    }
                },
            }
        }
    }
}

/// A step fails exactly where the read, the write or the flush that it makes does, and with
/// that error; or where a chunk is over before as much of it has been written as its header
/// says.
pub proof fn steps_fail_where_their_part_does<R, W>(s: C2CView<R, W>, cx: Cx)
    ensures
        ({
            let part = match s {
                C2CView::ReadChunk { reader, .. } => failure(reader.poll_read_chunk(cx).2),
                C2CView::WriteChunk { writer, .. } => failure(writer.poll_open(cx).2),
                C2CView::WriteFinal { writer, .. } => failure(writer.poll_finish(cx).2),
                C2CView::ReadData { reader, writer } => {
                    let p = reader.poll_read(cx, READ_SIZE as nat).2;
                    if (p matches Poll::Ready(Ok(None))) && writer.chunk_offset
                        < writer.chunk_length {
                        Some(
                            BodyError::IncompleteBody {
                                expected: writer.chunk_length,
                                actual: writer.chunk_offset,
                            },
                        )
                    } else {
                        failure(p)
                    }
                },
                C2CView::WriteData { writer, data, .. } => failure(writer.poll_write(cx, data).2),
                C2CView::CloseChunk { writer, .. } => failure(writer.poll_close(cx).2),
                C2CView::Done { .. } => None,
            };
            match s.step(cx) {
                StepView::Stop(None, _, p) => part is Some && p == Poll::Ready(
                    Err::<(), _>(part->Some_0),
                ),
                _ => part is None,
            }
        }),
{
}

impl<R, W> C2CView<R, W> {
    /// The connections, and the slots of the one that is read from.
    pub open spec fn ends(self) -> (R, nat, W) {
        match self {
            C2CView::ReadChunk { reader, writer } => (reader.reader.io, reader.slots, writer),
            C2CView::WriteChunk { reader, writer } => (
                reader.reader.io,
                reader.slots,
                writer.writer,
            ),
            C2CView::WriteFinal { reader, writer } => (
                reader.reader.io,
                reader.slots,
                writer.writer,
            ),
            C2CView::ReadData { reader, writer } => (
                reader.reader.io,
                reader.slots,
                writer.writer,
            ),
            C2CView::WriteData { reader, writer, .. } => (
                reader.reader.io,
                reader.slots,
                writer.writer,
            ),
            C2CView::CloseChunk { reader, writer } => (
                reader.reader.io,
                reader.slots,
                writer.writer,
            ),
            C2CView::Done { reader, slots, writer, .. } => (reader.io, slots, writer),
        }
    }
}

/// Forwarding keeps both connections: those that are given back at its end are those that it
/// was started with.
pub proof fn forwarding_keeps_the_connections<R, W>(
    s: C2CView<R, W>,
    cx: Cx,
    fuel: nat,
    t: C2CView<R, W>,
    cx2: Cx,
    p: Poll<BodyResult<()>>,
)
    requires
        (s matches C2CView::ReadChunk { reader, .. } ==> reader.is_valid()),
        (s matches C2CView::CloseChunk { reader, .. } ==> reader.is_valid()),
        run(Some(s), cx, fuel) == Some((Some(t), cx2, p)),
    ensures
        t.ends() == s.ends(),
    decreases fuel,
{
    match s {
        C2CView::ReadChunk { reader, .. } => {
            crate::body::reader::chunk_head::headers_keep_the_connection(reader, cx);
            crate::body::reader::chunk_head::header_read_keeps_valid(reader, cx);
        },
        C2CView::ReadData { reader, .. } => {
            crate::body::reader::chunk_data::chunks_keep_the_connection(
                reader,
                cx,
                READ_SIZE as nat,
            );
        },
        _ => {},
    }
    if let StepView::Next(next, cx1) = s.step(cx) {
        forwarding_keeps_the_connections(next, cx1, (fuel - 1) as nat, t, cx2, p);
    }
}

/// At its start, a forwarder has all of the body to put on the wire, chunk by chunk, and the
/// end of the body with its trailer fields behind them; at its end, nothing.
pub proof fn all_of_the_body_is_to_be_written<R, W>(
    reader: ChunkHeadView<R>,
    writer: W,
    chunks: Seq<Seq<u8>>,
    trailers: Seq<Field>,
    done: C2CView<R, W>,
)
    ensures
        (C2CView::ReadChunk { reader, writer }).to_write(chunks, trailers) == encode_chunks(chunks)
            + encode_end(trailers),
        done is Done ==> done.to_write(chunks, trailers).len() == 0,
{
}

/// A poll that completes the forwarding has flushed what was written: the outcome of a flush
/// was there, it was no failure, and it is taken. No other poll takes a flush for one that is
/// done.
pub proof fn forwarding_ends_with_a_flush<R, W>(
    s: C2CView<R, W>,
    cx: Cx,
    fuel: nat,
    t: C2CView<R, W>,
    cx2: Cx,
    p: Poll<BodyResult<()>>,
)
    requires
        run(Some(s), cx, fuel) == Some((Some(t), cx2, p)),
        !(s is Done),
        s matches C2CView::WriteFinal { writer, .. } ==> !writer.flushed,
    ensures
        t is Done ==> cx.flush is Some && cx.flush->Some_0 is Ok && cx2.flush is None,
        t is Done <==> p is Ready,
        t matches C2CView::WriteFinal { writer, .. } ==> !writer.flushed,
    decreases fuel,
{
    reveal_with_fuel(run, 2);
    match s {
        C2CView::ReadChunk { reader, .. } => {
            crate::body::reader::chunk_head::header_read_takes_reads(reader, cx);
        },
        C2CView::ReadData { reader, .. } => {
            crate::body::reader::chunk_data::chunk_read_takes_reads(
                reader,
                cx,
                READ_SIZE as nat,
            );
        },
        _ => {},
    }
    if let StepView::Next(next, cx1) = s.step(cx) {
        if !(next is Done) {
            forwarding_ends_with_a_flush(next, cx1, (fuel - 1) as nat, t, cx2, p);
        }
    }
}

} // verus!
