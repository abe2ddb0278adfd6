//! Forwarding from a chunk-encoded body to one that is not.
use bytes::Bytes;
use vstd::prelude::*;

use crate::body::chunk_coding::chunk_head;
use crate::body::error::{BodyError, BodyResult};
use crate::body::forwarder::other::{other_write_keeps_bytes, OtherBodyWriter, OtherWriterView};
use crate::body::forwarder::{
    failure, is_write_error, option_view, poll_ends_soundly, run, step_view, success_is_final,
    ForwardPoll, Machine, Step, StepView, READ_SIZE,
};
use crate::body::reader::chunk_data::{
    chunk_read_takes_reads, ChunkBodyState, ChunkDataReader, ChunkDataView,
};
use crate::body::reader::chunk_head::{
    header_read_takes_reads, ChunkHeadReader, ChunkHeadView, FinalChunkReader, FinalChunkView,
    NextChunk, NextChunkView,
};
use crate::body::reader::chunked::{
    chunks_left, lemma_between, lemma_holds_by_read, lemma_holds_by_unread, lemma_in_chunk,
    payload, ChunkStreamView, ChunkedView,
};
use crate::body::reader::{read_failed, unread};
use crate::body::writer::flush_step;
use crate::http_message::header::{Field, Headers};
use crate::http_message::message::ParseSlots;
use crate::io_buffer::{Buffered, BytesReader};
use crate::octets::octets;
use crate::transport::{Context, Cx, Poll, WriteFailure};

verus! {

/// Where a [`ChunkToOtherBodyForwarder`] is.
pub enum C2OState<R, W> {
    /// Reading the next chunk header. On a data chunk, transitions to
    /// `ReadData`. On the final chunk, transitions to `FlushWriter`.
    ReadChunk { reader: ChunkHeadReader<R>, writer: OtherBodyWriter<W> },
    /// Reading chunk body bytes. On data, transitions to `WriteData`. When
    /// exhausted, transitions back to `ReadChunk`.
    ReadData { reader: ChunkDataReader<R>, writer: OtherBodyWriter<W> },
    /// Writing chunk body bytes to the output. When the buffer is empty,
    /// transitions back to `ReadData`.
    WriteData { reader: ChunkDataReader<R>, writer: OtherBodyWriter<W>, data: Bytes },
    /// All chunk data has been forwarded. Flush the writer, then validate
    /// completeness (relevant for content-length) and transition to `Done`.
    FlushWriter { reader: FinalChunkReader<R>, writer: OtherBodyWriter<W> },
    /// When we reach the terminal `Done` state, we no longer transition.
    Done { reader: (BytesReader<R>, ParseSlots, Headers), writer: Option<W> },
}

/// The model of a [`C2OState`].
pub enum C2OView<R, W> {
    ReadChunk { reader: ChunkHeadView<R>, writer: OtherWriterView<W> },
    ReadData { reader: ChunkDataView<R>, writer: OtherWriterView<W> },
    WriteData { reader: ChunkDataView<R>, writer: OtherWriterView<W>, data: Seq<u8> },
    FlushWriter { reader: FinalChunkView<R>, writer: OtherWriterView<W> },
    Done { reader: Buffered<R>, slots: nat, trailers: Seq<Field>, writer: Option<W> },
}

impl<R, W> View for C2OState<R, W> {
    type V = C2OView<R, W>;

    open spec fn view(&self) -> C2OView<R, W> {
        match *self {
            C2OState::ReadChunk { reader, writer } => C2OView::ReadChunk {
                reader: reader@,
                writer: writer@,
            },
            C2OState::ReadData { reader, writer } => C2OView::ReadData {
                reader: reader@,
                writer: writer@,
            },
            C2OState::WriteData { reader, writer, data } => C2OView::WriteData {
                reader: reader@,
                writer: writer@,
                data: octets(data),
            },
            C2OState::FlushWriter { reader, writer } => C2OView::FlushWriter {
                reader: reader@,
                writer: writer@,
            },
            C2OState::Done { reader, writer } => C2OView::Done {
                reader: reader.0@,
                slots: reader.1@,
                trailers: reader.2@,
                writer,
            },
        }
    }
}

impl<R, W> Machine for C2OView<R, W> {
    open spec fn step(self, cx: Cx) -> StepView<Self> {
        match self {
            C2OView::ReadChunk { reader, writer } => {
                let (reader, cx, p) = reader.poll_read_chunk(cx);
                match p {
                    Poll::Ready(Err(e)) => StepView::Stop(None, cx, Poll::Ready(Err(e))),
                    Poll::Pending => StepView::Stop(
                        Some(C2OView::ReadChunk { reader, writer }),
                        cx,
                        Poll::Pending,
                    ),
                    Poll::Ready(Ok(())) => StepView::Next(
                        match reader.finish() {
                            NextChunkView::Data(reader) => C2OView::ReadData { reader, writer },
                            NextChunkView::Final(reader) => C2OView::FlushWriter { reader, writer },
                        },
                        cx,
                    ),
                }
            },
            C2OView::ReadData { reader, writer } => {
                let (reader, cx, p) = reader.poll_read(cx, READ_SIZE as nat);
                match p {
                    Poll::Ready(Err(e)) => StepView::Stop(None, cx, Poll::Ready(Err(e))),
                    Poll::Pending => StepView::Stop(
                        Some(C2OView::ReadData { reader, writer }),
                        cx,
                        Poll::Pending,
                    ),
                    Poll::Ready(Ok(None)) => StepView::Next(
                        C2OView::ReadChunk { reader: reader.finish(), writer },
                        cx,
                    ),
                    Poll::Ready(Ok(Some(data))) => StepView::Next(
                        C2OView::WriteData { reader, writer, data },
                        cx,
                    ),
                }
            },
            C2OView::WriteData { reader, writer, data } => {
                let (writer, cx, p) = writer.poll_write(cx, data);
                match p {
                    Poll::Ready(Err(e)) => StepView::Stop(None, cx, Poll::Ready(Err(e))),
                    Poll::Pending => StepView::Stop(
                        Some(C2OView::WriteData { reader, writer, data }),
                        cx,
                        Poll::Pending,
                    ),
                    Poll::Ready(Ok(n)) => {
                        let data = data.skip(n as int);
                        StepView::Next(
                            if data.len() > 0 {
                                C2OView::WriteData { reader, writer, data }
                            } else {
                                C2OView::ReadData { reader, writer }
                            },
                            cx,
                        )
                    },
                }
            },
            C2OView::FlushWriter { reader, writer } => {
                let (cx, _, p) = flush_step(cx, false);
                match p {
                    Poll::Ready(Err(e)) => StepView::Stop(None, cx, Poll::Ready(Err(e))),
                    Poll::Pending => StepView::Stop(
                        Some(C2OView::FlushWriter { reader, writer }),
                        cx,
                        Poll::Pending,
                    ),
                    Poll::Ready(Ok(())) => match writer.into_writer() {
                        Err(e) => StepView::Stop(None, cx, Poll::Ready(Err(e))),
                        Ok(writer) => StepView::Next(
                            C2OView::Done {
                                reader: reader.reader,
                                slots: reader.slots,
                                trailers: reader.trailers,
                                writer,
                            },
                            cx,
                        ),
                    },
                }
            },
            C2OView::Done { .. } => StepView::Stop(Some(self), cx, Poll::Ready(Ok(()))),
        }
    }

    open spec fn is_done(self) -> bool {
        self is Done
    }

    proof fn step_is_sound(self, cx: Cx) {
        match self {
            C2OView::ReadChunk { reader, .. } => header_read_takes_reads(reader, cx),
            C2OView::ReadData { reader, .. } => chunk_read_takes_reads(
                reader,
                cx,
                READ_SIZE as nat,
            ),
            _ => {},
        }
    }
}

impl<R, W> C2OView<R, W> {
    /// How many steps there are at most before an outcome has to be taken.
    pub open spec fn rank(self) -> nat {
        match self {
            C2OView::ReadData { reader, .. } => if reader.state == ChunkBodyState::InBody
                && reader.remaining > 0 {
                2
            } else {
                4
            },
            C2OView::ReadChunk { .. } => 3,
            C2OView::WriteData { .. } => 1,
            C2OView::FlushWriter { .. } => 1,
            C2OView::Done { .. } => 0,
        }
    }
}

impl<R, W> C2OView<R, W> {
    /// The rest of the body is unread, or still to come, however it is spelled: the
    /// data of `chunks`, the trailer fields, and `rest` behind them.
    pub open spec fn carries(
        self,
        cx: Cx,
        coming: Seq<u8>,
        chunks: Seq<Seq<u8>>,
        trailers: Seq<Field>,
        rest: Seq<u8>,
    ) -> bool {
        match self {
            C2OView::ReadChunk { reader, .. } => ChunkedView(
                Some(ChunkStreamView::BetweenChunk(reader)),
            ).holds(cx, coming, chunks, trailers, rest),
            C2OView::ReadData { reader, .. } => ChunkedView(
                Some(ChunkStreamView::InChunk(reader)),
            ).holds(cx, coming, chunks, trailers, rest),
            C2OView::WriteData { reader, .. } => ChunkedView(
                Some(ChunkStreamView::InChunk(reader)),
            ).holds(cx, coming, chunks, trailers, rest),
            C2OView::FlushWriter { reader, .. } => chunks.len() == 0 && reader.trailers == trailers
                && unread(reader.reader, cx) + coming == rest,
            C2OView::Done { reader, trailers: fields, .. } => chunks.len() == 0 && fields
                == trailers && unread(reader, cx) + coming == rest,
        }
    }

    /// What is still to be put on the wire of a body whose rest is the data of
    /// `chunks`.
    pub open spec fn to_write(self, chunks: Seq<Seq<u8>>) -> Seq<u8> {
        match self {
            C2OView::WriteData { data, .. } => data + payload(chunks),
            _ => payload(chunks),
        }
    }

    /// The body has been forwarded, and `rest` is unread behind it.
    pub open spec fn is_done(
        self,
        cx: Cx,
        coming: Seq<u8>,
        trailers: Seq<Field>,
        rest: Seq<u8>,
    ) -> bool {
        self matches C2OView::Done { reader, trailers: fields, .. } && fields == trailers
            && unread(reader, cx) + coming == rest
    }

    /// The forwarder carries the rest of a body with these trailer fields; and
    /// what is on the wire and still to be put there makes up `before`.
    pub open spec fn goes_on(
        self,
        cx: Cx,
        before: Seq<u8>,
        coming: Seq<u8>,
        trailers: Seq<Field>,
        rest: Seq<u8>,
    ) -> bool {
        exists|left: Seq<Seq<u8>>|
            #[trigger] self.carries(cx, coming, left, trailers, rest) && cx.wire + self.to_write(left) == before
    }
}

/// What a step of the forwarder comes to: the step of the machine, with a
/// measure that tells that steps come to an end; and of a body, however it comes
/// in, the next bytes are forwarded.
spec fn is_step<R, W>(s: C2OView<R, W>, cx: Cx, r: Step<C2OState<R, W>>, cx2: Cx) -> bool {
    &&& step_view(r, cx2) == s.step(cx)
    &&& cx2.read == cx.read || cx2.read is None
    &&& r matches Step::Stop(parked, Poll::Ready(Ok(()))) ==> parked is Some
        && parked->Some_0@ is Done
    &&& r matches Step::Next(next) ==> cx2.events() < cx.events() || (cx2.events() == cx.events()
        && next@.rank() < s.rank())
    &&& forall|coming: Seq<u8>, chunks: Seq<Seq<u8>>, trailers: Seq<Field>, rest: Seq<u8>|
        #[trigger] s.carries(cx, coming, chunks, trailers, rest) ==> {
            let before = cx.wire + s.to_write(chunks);
            match r {
                Step::Next(next) => next@.goes_on(cx2, before, coming, trailers, rest),
                Step::Stop(Some(next), _) => next@.goes_on(cx2, before, coming, trailers, rest),
                Step::Stop(None, p) => p matches Poll::Ready(Err(e)) && (is_write_error(e)
                    || coming.len() > 0 && read_failed(cx)),
            }
        }
}

fn read_chunk<R, W>(
    mut reader: ChunkHeadReader<R>,
    writer: OtherBodyWriter<W>,
    cx: &mut Context,
) -> (r: Step<C2OState<R, W>>)
    ensures
        is_step(
            C2OView::ReadChunk { reader: reader@, writer: writer@ },
            old(cx)@,
            r,
            final(cx)@,
        ),
{
    let ghost s: C2OView<R, W> = C2OView::ReadChunk { reader: reader@, writer: writer@ };
    let ghost head = reader@;
    let ghost cx0 = cx@;
    proof {
        header_read_takes_reads(head, cx0);
    }
    let p = reader.poll_read_chunk(cx);
    proof {
        let t = reader@;
        assert forall|
            coming: Seq<u8>,
            chunks: Seq<Seq<u8>>,
            trailers: Seq<Field>,
            rest: Seq<u8>,
        | #[trigger]
            s.carries(cx0, coming, chunks, trailers, rest) implies match p {
            Poll::Ready(Ok(())) => if chunks.len() == 0 {
                t.finish() matches NextChunkView::Final(last) && last.trailers == trailers && unread(
                    last.reader,
                    cx@,
                ) + coming == rest
            } else {
                t.finish() matches NextChunkView::Data(d) && ChunkedView(
                    Some(ChunkStreamView::InChunk(d)),
                ).holds(cx@, coming, chunks, trailers, rest)
            },
            Poll::Pending => ChunkedView(Some(ChunkStreamView::BetweenChunk(t))).holds(
                cx@,
                coming,
                chunks,
                trailers,
                rest,
            ),
            Poll::Ready(Err(_)) => coming.len() > 0 && read_failed(cx0),
        } by {
            lemma_between(head, cx0, coming, chunks, trailers, rest);
        }
    }
    match p {
        Poll::Ready(Err(e)) => Step::Stop(None, Poll::Ready(Err(e))),
        Poll::Pending => {
            let next = C2OState::ReadChunk { reader, writer };
            assert(forall|
                coming: Seq<u8>,
                chunks: Seq<Seq<u8>>,
                trailers: Seq<Field>,
                rest: Seq<u8>,
            | #[trigger]
                s.carries(cx0, coming, chunks, trailers, rest) ==> next@.carries(
                    cx@,
                    coming,
                    chunks,
                    trailers,
                    rest,
                ));
            Step::Stop(Some(next), Poll::Pending)
        },
        Poll::Ready(Ok(())) => match reader.finish() {
            NextChunk::Data(reader) => {
                let next = C2OState::ReadData { reader, writer };
                assert(forall|
                    coming: Seq<u8>,
                    chunks: Seq<Seq<u8>>,
                    trailers: Seq<Field>,
                    rest: Seq<u8>,
                | #[trigger]
                    s.carries(cx0, coming, chunks, trailers, rest) ==> next@.carries(
                        cx@,
                        coming,
                        chunks,
                        trailers,
                        rest,
                    ));
                Step::Next(next)
            },
            NextChunk::Final(reader) => {
                let next = C2OState::FlushWriter { reader, writer };
                assert(forall|
                    coming: Seq<u8>,
                    chunks: Seq<Seq<u8>>,
                    trailers: Seq<Field>,
                    rest: Seq<u8>,
                | #[trigger]
                    s.carries(cx0, coming, chunks, trailers, rest) ==> next@.carries(
                        cx@,
                        coming,
                        chunks,
                        trailers,
                        rest,
                    ));
                Step::Next(next)
            },
        },
    }
}

fn read_data<R, W>(
    mut reader: ChunkDataReader<R>,
    writer: OtherBodyWriter<W>,
    cx: &mut Context,
) -> (r: Step<C2OState<R, W>>)
    ensures
        is_step(
            C2OView::ReadData { reader: reader@, writer: writer@ },
            old(cx)@,
            r,
            final(cx)@,
        ),
{
    let ghost s: C2OView<R, W> = C2OView::ReadData { reader: reader@, writer: writer@ };
    let ghost cx0 = cx@;
    proof {
        chunk_read_takes_reads(reader@, cx@, READ_SIZE as nat);
        let d = reader@;
        assert forall|
            coming: Seq<u8>,
            chunks: Seq<Seq<u8>>,
            trailers: Seq<Field>,
            rest: Seq<u8>,
        | #[trigger]
            s.carries(cx0, coming, chunks, trailers, rest) implies ({
            let (t, cx2, p) = d.poll_read(cx0, READ_SIZE as nat);
            match p {
                Poll::Ready(Ok(Some(data))) => {
                    let left = chunks_left(chunks, data.len() as int);
                    &&& ChunkedView(Some(ChunkStreamView::InChunk(t))).holds(
                        cx2,
                        coming,
                        left,
                        trailers,
                        rest,
                    )
                    &&& payload(chunks) == data + payload(left)
                },
                Poll::Ready(Ok(None)) => ChunkedView(
                    Some(ChunkStreamView::BetweenChunk(t.finish())),
                ).holds(cx2, coming, chunks.skip(1), trailers, rest) && payload(chunks) == payload(
                    chunks.skip(1),
                ),
                Poll::Pending => ChunkedView(Some(ChunkStreamView::InChunk(t))).holds(
                    cx2,
                    coming,
                    chunks,
                    trailers,
                    rest,
                ),
                Poll::Ready(Err(_)) => coming.len() > 0 && read_failed(cx0),
            }
        }) by {
            lemma_in_chunk(d, cx0, READ_SIZE as nat, coming, chunks, trailers, rest);
        }
    }
    match reader.poll_read(cx, READ_SIZE) {
        Poll::Ready(Err(e)) => Step::Stop(None, Poll::Ready(Err(e))),
        Poll::Pending => {
            let next = C2OState::ReadData { reader, writer };
            assert(forall|
                coming: Seq<u8>,
                chunks: Seq<Seq<u8>>,
                trailers: Seq<Field>,
                rest: Seq<u8>,
            | #[trigger]
                s.carries(cx0, coming, chunks, trailers, rest) ==> next@.carries(
                    cx@,
                    coming,
                    chunks,
                    trailers,
                    rest,
                ));
            Step::Stop(Some(next), Poll::Pending)
        },
        Poll::Ready(Ok(None)) => {
            let reader = reader.finish();
            let next = C2OState::ReadChunk { reader, writer };
            assert(forall|
                coming: Seq<u8>,
                chunks: Seq<Seq<u8>>,
                trailers: Seq<Field>,
                rest: Seq<u8>,
            | #[trigger]
                s.carries(cx0, coming, chunks, trailers, rest) ==> next@.carries(
                    cx@,
                    coming,
                    chunks.skip(1),
                    trailers,
                    rest,
                ));
            Step::Next(next)
        },
        Poll::Ready(Ok(Some(data))) => {
            let next = C2OState::WriteData { reader, writer, data };
            proof {
                assert forall|
                    coming: Seq<u8>,
                    chunks: Seq<Seq<u8>>,
                    trailers: Seq<Field>,
                    rest: Seq<u8>,
                | #[trigger]
                    s.carries(cx0, coming, chunks, trailers, rest) implies next@.goes_on(
                    cx@,
                    cx@.wire + s.to_write(chunks),
                    coming,
                    trailers,
                    rest,
                ) by {
                    let left = chunks_left(chunks, octets(data).len() as int);
                    assert(next@.carries(cx@, coming, left, trailers, rest));
                }
            }
            Step::Next(next)
        },
    }
}

fn write_data<R, W>(
    reader: ChunkDataReader<R>,
    mut writer: OtherBodyWriter<W>,
    mut data: Bytes,
    cx: &mut Context,
) -> (r: Step<C2OState<R, W>>)
    ensures
        is_step(
            C2OView::WriteData { reader: reader@, writer: writer@, data: octets(data) },
            old(cx)@,
            r,
            final(cx)@,
        ),
{
    let ghost all = octets(data);
    let ghost s: C2OView<R, W> = C2OView::WriteData {
        reader: reader@,
        writer: writer@,
        data: all,
    };
    proof {
        other_write_keeps_bytes(writer@, cx@, all);
    }
    let p = writer.poll_write(cx, &data);
    proof {
        lemma_holds_by_read(ChunkedView(Some(ChunkStreamView::InChunk(reader@))), old(cx)@, cx@);
    }
    match p {
        Poll::Ready(Err(e)) => Step::Stop(None, Poll::Ready(Err(e))),
        Poll::Pending => {
            let next = C2OState::WriteData { reader, writer, data };
            assert(forall|
                coming: Seq<u8>,
                chunks: Seq<Seq<u8>>,
                trailers: Seq<Field>,
                rest: Seq<u8>,
            | #[trigger]
                s.carries(old(cx)@, coming, chunks, trailers, rest) ==> next@.carries(
                    cx@,
                    coming,
                    chunks,
                    trailers,
                    rest,
                ));
            Step::Stop(Some(next), Poll::Pending)
        },
        Poll::Ready(Ok(len)) => {
            let _written = data.split_to(len);
            let next = if data.len() > 0 {
                C2OState::WriteData { reader, writer, data }
            } else {
                C2OState::ReadData { reader, writer }
            };
            proof {
                assert forall|
                    coming: Seq<u8>,
                    chunks: Seq<Seq<u8>>,
                    trailers: Seq<Field>,
                    rest: Seq<u8>,
                | #[trigger]
                    s.carries(old(cx)@, coming, chunks, trailers, rest) implies next@.goes_on(
                    cx@,
                    old(cx)@.wire + s.to_write(chunks),
                    coming,
                    trailers,
                    rest,
                ) by {
                    assert(next@.carries(cx@, coming, chunks, trailers, rest));
                    assert(cx@.wire + next@.to_write(chunks) =~= old(cx)@.wire + (all + payload(
                        chunks,
                    )));
                }
            }
            Step::Next(next)
        },
    }
}

fn flush_writer<R, W>(
    reader: FinalChunkReader<R>,
    mut writer: OtherBodyWriter<W>,
    cx: &mut Context,
) -> (r: Step<C2OState<R, W>>)
    ensures
        is_step(
            C2OView::FlushWriter { reader: reader@, writer: writer@ },
            old(cx)@,
            r,
            final(cx)@,
        ),
{
    let ghost s: C2OView<R, W> = C2OView::FlushWriter { reader: reader@, writer: writer@ };
    match writer.poll_flush(cx) {
        Poll::Ready(Err(e)) => Step::Stop(None, Poll::Ready(Err(e))),
        Poll::Pending => {
            let next = C2OState::FlushWriter { reader, writer };
            assert(forall|
                coming: Seq<u8>,
                chunks: Seq<Seq<u8>>,
                trailers: Seq<Field>,
                rest: Seq<u8>,
            | #[trigger]
                s.carries(old(cx)@, coming, chunks, trailers, rest) ==> next@.carries(
                    cx@,
                    coming,
                    chunks,
                    trailers,
                    rest,
                ));
            Step::Stop(Some(next), Poll::Pending)
        },
        Poll::Ready(Ok(())) => match writer.into_writer() {
            Ok(writer) => {
                let reader = reader.into_parts();
                let next = C2OState::Done { reader, writer };
                assert(forall|
                    coming: Seq<u8>,
                    chunks: Seq<Seq<u8>>,
                    trailers: Seq<Field>,
                    rest: Seq<u8>,
                | #[trigger]
                    s.carries(old(cx)@, coming, chunks, trailers, rest) ==> next@.carries(
                        cx@,
                        coming,
                        chunks,
                        trailers,
                        rest,
                    ));
                Step::Next(next)
            },
            Err(e) => Step::Stop(None, Poll::Ready(Err(e))),
        },
    }
}

/// One step of the forwarder.
fn advance<R, W>(state: C2OState<R, W>, cx: &mut Context) -> (r: Step<C2OState<R, W>>)
    ensures
        is_step(state@, old(cx)@, r, final(cx)@),
{
    match state {
        C2OState::ReadChunk { reader, writer } => read_chunk(reader, writer, cx),
        C2OState::ReadData { reader, writer } => read_data(reader, writer, cx),
        C2OState::WriteData { reader, writer, data } => write_data(reader, writer, data, cx),
        C2OState::FlushWriter { reader, writer } => flush_writer(reader, writer, cx),
        C2OState::Done { reader, writer } => {
            let next = C2OState::Done { reader, writer };
            assert(forall|
                coming: Seq<u8>,
                chunks: Seq<Seq<u8>>,
                trailers: Seq<Field>,
                rest: Seq<u8>,
            | #[trigger]
                state@.carries(old(cx)@, coming, chunks, trailers, rest) ==> next@.carries(
                    cx@,
                    coming,
                    chunks,
                    trailers,
                    rest,
                ));
            Step::Stop(Some(next), Poll::Ready(Ok(())))
        },
    }
}

/// What a poll does to a body that comes in: what was to be put on the wire is
/// there once the poll succeeds, and until then what is there and what is still to
/// be put there make up the same bytes. A poll fails only where a write does, or a
/// read before the body has come.
pub open spec fn forwards<R, W>(
    s: Option<C2OView<R, W>>,
    cx: Cx,
    t: Option<C2OView<R, W>>,
    cx2: Cx,
    r: Poll<BodyResult<()>>,
) -> bool {
    forall|coming: Seq<u8>, chunks: Seq<Seq<u8>>, trailers: Seq<Field>, rest: Seq<u8>|
        s is Some && #[trigger] s->Some_0.carries(cx, coming, chunks, trailers, rest)
            ==> has_forwarded(
            t,
            cx2,
            r,
            cx,
            coming,
            cx.wire + s->Some_0.to_write(chunks),
            trailers,
            rest,
        )
}

/// What a poll has come to, where `all` is what is on the wire once the body has
/// been forwarded.
pub open spec fn has_forwarded<R, W>(
    t: Option<C2OView<R, W>>,
    cx2: Cx,
    r: Poll<BodyResult<()>>,
    cx: Cx,
    coming: Seq<u8>,
    all: Seq<u8>,
    trailers: Seq<Field>,
    rest: Seq<u8>,
) -> bool {
    match t {
        Some(t) => t.goes_on(cx2, all, coming, trailers, rest) && ((r matches Poll::Ready(Ok(())))
            ==> t.is_done(cx2, coming, trailers, rest) && cx2.wire == all),
        None => r matches Poll::Ready(Err(e)) && (is_write_error(e) || coming.len() > 0
            && read_failed(cx)),
    }
}

impl<R, W> C2OView<R, W> {
    /// The bytes that have come and have not been consumed.
    pub open spec fn unread(self, cx: Cx) -> Seq<u8> {
        match self {
            C2OView::ReadChunk { reader, .. } => unread(reader.reader, cx),
            C2OView::ReadData { reader, .. } => unread(reader.reader, cx),
            C2OView::WriteData { reader, .. } => unread(reader.reader, cx),
            C2OView::FlushWriter { reader, .. } => unread(reader.reader, cx),
            C2OView::Done { reader, .. } => unread(reader, cx),
        }
    }
}

/// The polls follow each other: between two of them nothing is put on the wire, and
/// bytes only come in, in order, of those that were still to come.
pub open spec fn polls_follow<R, W>(
    s: C2OView<R, W>,
    polls: Seq<ForwardPoll<C2OView<R, W>>>,
) -> bool
    decreases polls.len(),
{
    polls.len() > 0 ==> {
        let before = polls.drop_last();
        let last = polls.last();
        if before.len() == 0 {
            forwards(Some(s), last.cx, last.parked, last.cx2, last.r)
        } else {
            let prior = before.last();
            &&& polls_follow(s, before)
            &&& prior.parked is Some
            &&& forwards(prior.parked, last.cx, last.parked, last.cx2, last.r)
            &&& last.cx.wire == prior.cx2.wire
            &&& prior.parked->Some_0.unread(last.cx) + last.coming
                == prior.parked->Some_0.unread(prior.cx2) + prior.coming
        }
    }
}

proof fn lemma_carries_by_unread<R, W>(
    s: C2OView<R, W>,
    cx: Cx,
    coming: Seq<u8>,
    cx2: Cx,
    coming2: Seq<u8>,
    chunks: Seq<Seq<u8>>,
    trailers: Seq<Field>,
    rest: Seq<u8>,
)
    requires
        s.carries(cx, coming, chunks, trailers, rest),
        s.unread(cx) + coming == s.unread(cx2) + coming2,
    ensures
        s.carries(cx2, coming2, chunks, trailers, rest),
{
    match s {
        C2OView::ReadChunk { reader, .. } => lemma_holds_by_unread(
            ChunkedView(Some(ChunkStreamView::BetweenChunk(reader))),
            cx,
            coming,
            cx2,
            coming2,
            chunks,
            trailers,
            rest,
        ),
        C2OView::ReadData { reader, .. } => lemma_holds_by_unread(
            ChunkedView(Some(ChunkStreamView::InChunk(reader))),
            cx,
            coming,
            cx2,
            coming2,
            chunks,
            trailers,
            rest,
        ),
        C2OView::WriteData { reader, .. } => lemma_holds_by_unread(
            ChunkedView(Some(ChunkStreamView::InChunk(reader))),
            cx,
            coming,
            cx2,
            coming2,
            chunks,
            trailers,
            rest,
        ),
        _ => {},
    }
}

/// Over all polls, however the body comes in and however the writes come out: what
/// is on the wire and still to be put there make up what was there before and the
/// body; and once a poll succeeds, all of it is there, the trailer fields are those
/// of the body, and what follows is unread.
pub proof fn polls_forward_the_body<R, W>(
    s: C2OView<R, W>,
    polls: Seq<ForwardPoll<C2OView<R, W>>>,
    chunks: Seq<Seq<u8>>,
    trailers: Seq<Field>,
    rest: Seq<u8>,
)
    requires
        polls.len() > 0,
        polls_follow(s, polls),
        s.carries(polls[0].cx, polls[0].coming, chunks, trailers, rest),
    ensures
        has_forwarded(
            polls.last().parked,
            polls.last().cx2,
            polls.last().r,
            polls.last().cx,
            polls.last().coming,
            polls[0].cx.wire + s.to_write(chunks),
            trailers,
            rest,
        ),
    decreases polls.len(),
{
    let before = polls.drop_last();
    let last = polls.last();
    let all = polls[0].cx.wire + s.to_write(chunks);
    if before.len() > 0 {
        assert(before[0] == polls[0]);
        polls_forward_the_body(s, before, chunks, trailers, rest);
        let prior = before.last();
        let m = prior.parked->Some_0;
        assert(prior.parked == Some(m));
        assert(m.goes_on(prior.cx2, all, prior.coming, trailers, rest));
        let left = choose|left: Seq<Seq<u8>>|
            #[trigger] m.carries(prior.cx2, prior.coming, left, trailers, rest) && prior.cx2.wire
                + m.to_write(left) == all;
        lemma_carries_by_unread(
            m,
            prior.cx2,
            prior.coming,
            last.cx,
            last.coming,
            left,
            trailers,
            rest,
        );
    } else {
        assert(Some(s)->Some_0.carries(last.cx, last.coming, chunks, trailers, rest));
    }
}

proof fn lemma_done_has_written<R, W>(parked: Option<C2OView<R, W>>, cx: Cx)
    ensures
        forall|all: Seq<u8>, coming: Seq<u8>, trailers: Seq<Field>, rest: Seq<u8>|
            parked is Some && parked->Some_0 is Done && #[trigger] parked->Some_0.goes_on(
                cx,
                all,
                coming,
                trailers,
                rest,
            ) ==> parked->Some_0.is_done(cx, coming, trailers, rest) && cx.wire == all,
{
    assert forall|all: Seq<u8>, coming: Seq<u8>, trailers: Seq<Field>, rest: Seq<u8>|
        parked is Some && parked->Some_0 is Done && #[trigger] parked->Some_0.goes_on(
            cx,
            all,
            coming,
            trailers,
            rest,
        ) implies parked->Some_0.is_done(cx, coming, trailers, rest) && cx.wire == all by {
        let t = parked->Some_0;
        let left = choose|left: Seq<Seq<u8>>|
            #[trigger] t.carries(cx, coming, left, trailers, rest) && cx.wire + t.to_write(left) == all;
        assert(payload(left) =~= Seq::empty());
        assert(cx.wire + payload(left) =~= cx.wire);
    }
}

/// Forwards a chunk-encoded body to one that is not.
pub struct ChunkToOtherBodyForwarder<R, W> {
    state: Option<C2OState<R, W>>,
}

impl<R, W> View for ChunkToOtherBodyForwarder<R, W> {
    type V = Option<C2OView<R, W>>;

    closed spec fn view(&self) -> Option<C2OView<R, W>> {
        option_view(self.state)
    }
}

impl<R, W> ChunkToOtherBodyForwarder<R, W> {
    /// A forwarder at the start of a body.
    pub fn new(reader: ChunkHeadReader<R>, writer: OtherBodyWriter<W>) -> (r: Self)
        ensures
            r@ == Some(C2OView::ReadChunk { reader: reader@, writer: writer@ }),
    {
        Self { state: Some(C2OState::ReadChunk { reader, writer }) }
    }

    /// Forward as much as can be forwarded. Of a body, exactly the data is
    /// forwarded, in order, however its headers are spelled, however it comes in and
    /// however the writes come out; and what stands behind the body stays unread.
    pub fn poll_forward(&mut self, cx: &mut Context) -> (r: Poll<BodyResult<()>>)
        ensures
            exists|n: nat| #[trigger]
                run(old(self)@, old(cx)@, n) == Some((final(self)@, final(cx)@, r)),
            forwards(old(self)@, old(cx)@, final(self)@, final(cx)@, r),
    {
        let ghost mut k: nat = 0;
        let mut state = match self.state.take() {
            None => {
                assert(run(old(self)@, cx@, 1) is Some);
                return Poll::Ready(Err(BodyError::ForwardAfterError));
            },
            Some(state) => state,
        };
        proof {
            assert forall|
                coming: Seq<u8>,
                chunks: Seq<Seq<u8>>,
                trailers: Seq<Field>,
                rest: Seq<u8>,
            | #[trigger]
                state@.carries(old(cx)@, coming, chunks, trailers, rest) implies state@.goes_on(
                cx@,
                old(cx)@.wire + old(self)@->Some_0.to_write(chunks),
                coming,
                trailers,
                rest,
            ) by {}
        }
        loop
            invariant
                forall|n: nat| #[trigger]
                    run(Some(state@), cx@, n) == run(old(self)@, old(cx)@, n + k),
                self.state is None,
                old(self)@ is Some,
                cx@.read == old(cx)@.read || cx@.read is None,
                forall|
                    coming: Seq<u8>,
                    chunks: Seq<Seq<u8>>,
                    trailers: Seq<Field>,
                    rest: Seq<u8>,
                | #[trigger]
                    old(self)@->Some_0.carries(old(cx)@, coming, chunks, trailers, rest) ==> state@.goes_on(
                        cx@,
                        old(cx)@.wire + old(self)@->Some_0.to_write(chunks),
                        coming,
                        trailers,
                        rest,
                    ),
            decreases cx@.events(), state@.rank(),
        {
            let ghost before = state@;
            let ghost cx0 = cx@;
            proof {
                assert(run(Some(before), cx0, 1) == run(old(self)@, old(cx)@, 1 + k));
            }
            match advance(state, cx) {
                Step::Stop(parked, p) => {
                    self.state = parked;
                    proof {
                        lemma_done_has_written(self@, cx@);
                    }
                    return p;
                },
                Step::Next(next) => {
                    state = next;
                    proof {
                        assert forall|n: nat| #[trigger]
                            run(Some(state@), cx@, n) == run(
                            old(self)@,
                            old(cx)@,
                            n + (k + 1),
                        ) by {
                            assert(run(Some(before), cx0, n + 1) == run(
                                old(self)@,
                                old(cx)@,
                                n + 1 + k,
                            ));
                        }
                        k = k + 1;
                    }
                },
            }
        }
    }
}

impl<R, W> C2OView<R, W> {
    /// The writer, until the body has been written.
    pub open spec fn writer(self) -> Option<OtherWriterView<W>> {
        match self {
            C2OView::ReadChunk { writer, .. } => Some(writer),
            C2OView::ReadData { writer, .. } => Some(writer),
            C2OView::WriteData { writer, .. } => Some(writer),
            C2OView::FlushWriter { writer, .. } => Some(writer),
            C2OView::Done { .. } => None,
        }
    }
}

/// Where forwarding succeeds, what was written has been flushed, and a body of
/// stated length has exactly that length.
pub proof fn success_means_complete<R, W>(
    s: C2OView<R, W>,
    cx: Cx,
    fuel: nat,
    parked: Option<C2OView<R, W>>,
    cx2: Cx,
)
    requires
        !(s is Done),
        s.writer() matches Some(OtherWriterView::ContentLength(w)) ==> w.offset <= w.length,
        run(Some(s), cx, fuel) == Some((parked, cx2, Poll::Ready(Ok::<(), BodyError>(())))),
    ensures
        parked matches Some(t) && t is Done,
        cx.flush matches Some(Ok(_)),
        cx2.flush is None,
        cx.wire.len() <= cx2.wire.len(),
        s.writer() matches Some(OtherWriterView::ContentLength(w)) ==> w.offset + (cx2.wire.len()
            - cx.wire.len()) == w.length,
    decreases fuel,
{
    match s {
        C2OView::ReadChunk { reader, .. } => {
            header_read_takes_reads(reader, cx);
        },
        C2OView::ReadData { reader, .. } => {
            chunk_read_takes_reads(reader, cx, READ_SIZE as nat);
        },
        C2OView::WriteData { writer, data, .. } => {
            other_write_keeps_bytes(writer, cx, data);
        },
        _ => {},
    }
    poll_ends_soundly(Some(s), cx, fuel, parked, cx2, Poll::Ready(Ok(())));
    if let StepView::Next(next, cx1) = s.step(cx) {
        if !(next is Done) {
            success_means_complete(next, cx1, (fuel - 1) as nat, parked, cx2);
        } else {
            assert(run(Some(next), cx1, (fuel - 1) as nat) is Some);
            success_is_final(next, cx1, (fuel - 1) as nat);
        }
    }
}

/// A step fails exactly where the read, the write or the flush that it makes does, and with
/// that error; or where a body of stated length is over before all of it has been written.
pub proof fn steps_fail_where_their_part_does<R, W>(s: C2OView<R, W>, cx: Cx)
    ensures
        ({
            let part = match s {
                C2OView::ReadChunk { reader, .. } => failure(reader.poll_read_chunk(cx).2),
                C2OView::ReadData { reader, .. } => failure(
                    reader.poll_read(cx, READ_SIZE as nat).2,
                ),
                C2OView::WriteData { writer, data, .. } => failure(writer.poll_write(cx, data).2),
                C2OView::FlushWriter { writer, .. } => match (cx.flush, writer) {
                    (Some(Err(e)), _) => Some(BodyError::BodyWriteError(WriteFailure::Io(e))),
                    (Some(Ok(())), OtherWriterView::ContentLength(w)) => if w.offset < w.length {
                        Some(BodyError::IncompleteBody { expected: w.length, actual: w.offset })
                    } else {
                        None
                    },
                    _ => None,
                },
                C2OView::Done { .. } => None,
            };
            match s.step(cx) {
                StepView::Stop(None, _, p) => part is Some && p == Poll::Ready(
                    Err::<(), _>(part->Some_0),
                ),
                _ => part is None,
            }
        }),
{
}

/// Forwarding keeps the connections: that which is read from comes back at its end as it was
/// started with, and so does that which is written to, unless the body ends with it.
pub proof fn forwarding_keeps_the_connections<R, W>(
    s: C2OView<R, W>,
    cx: Cx,
    fuel: nat,
    t: C2OView<R, W>,
    cx2: Cx,
    p: Poll<BodyResult<()>>,
)
    requires
        (s matches C2OView::ReadChunk { reader, .. } ==> reader.is_valid()),
        run(Some(s), cx, fuel) == Some((Some(t), cx2, p)),
    ensures
        t.source() == s.source(),
        t.sink() == s.sink(),
    decreases fuel,
{
    match s {
        C2OView::ReadChunk { reader, .. } => {
            crate::body::reader::chunk_head::headers_keep_the_connection(reader, cx);
            crate::body::reader::chunk_head::header_read_keeps_valid(reader, cx);
        },
        C2OView::ReadData { reader, .. } => {
            crate::body::reader::chunk_data::chunks_keep_the_connection(
                reader,
                cx,
                READ_SIZE as nat,
            );
        },
        _ => {},
    }
    if let StepView::Next(next, cx1) = s.step(cx) {
        forwarding_keeps_the_connections(next, cx1, (fuel - 1) as nat, t, cx2, p);
    }
}

impl<R, W> C2OView<R, W> {
    /// The connection that is read from, and its slots.
    pub open spec fn source(self) -> (R, nat) {
        match self {
            C2OView::ReadChunk { reader, .. } => (reader.reader.io, reader.slots),
            C2OView::ReadData { reader, .. } => (reader.reader.io, reader.slots),
            C2OView::WriteData { reader, .. } => (reader.reader.io, reader.slots),
            C2OView::FlushWriter { reader, .. } => (reader.reader.io, reader.slots),
            C2OView::Done { reader, slots, .. } => (reader.io, slots),
        }
    }

    /// The connection that comes back of those that are written to: none after a body that
    /// ends with it.
    pub open spec fn sink(self) -> Option<W> {
        match self {
            C2OView::Done { writer, .. } => writer,
            _ => match self.writer()->Some_0 {
                OtherWriterView::ContentLength(w) => Some(w.writer),
                OtherWriterView::Eof(_) => None,
            },
        }
    }
}

/// At its start, a forwarder has the data of all chunks to put on the wire, one after the
/// other, and nothing else.
pub proof fn all_of_the_body_is_to_be_written<R, W>(
    reader: ChunkHeadView<R>,
    writer: OtherWriterView<W>,
    chunks: Seq<Seq<u8>>,
)
    ensures
        (C2OView::ReadChunk { reader, writer }).to_write(chunks) == payload(chunks),
        (C2OView::ReadChunk { reader, writer }).to_write(Seq::empty()).len() == 0,
{
}

/// A poll that completes the forwarding has flushed what was written: the outcome of a flush
/// was there, it was no failure, and it is taken. No other poll takes a flush for one that is
/// done.
pub proof fn forwarding_ends_with_a_flush<R, W>(
    s: C2OView<R, W>,
    cx: Cx,
    fuel: nat,
    t: C2OView<R, W>,
    cx2: Cx,
    p: Poll<BodyResult<()>>,
)
    requires
        run(Some(s), cx, fuel) == Some((Some(t), cx2, p)),
        !(s is Done),
    ensures
        t is Done ==> cx.flush is Some && cx.flush->Some_0 is Ok && cx2.flush is None,
        t is Done <==> p is Ready,
    decreases fuel,
{
    reveal_with_fuel(run, 2);
    match s {
        C2OView::ReadChunk { reader, .. } => {
            crate::body::reader::chunk_head::header_read_takes_reads(reader, cx);
        },
        C2OView::ReadData { reader, .. } => {
            crate::body::reader::chunk_data::chunk_read_takes_reads(
                reader,
                cx,
                READ_SIZE as nat,
            );
        },
        _ => {},
    }
    if let StepView::Next(next, cx1) = s.step(cx) {
        if !(next is Done) {
            forwarding_ends_with_a_flush(next, cx1, (fuel - 1) as nat, t, cx2, p);
        }
    }
}

} // verus!
