//! Bodies that are not chunk-encoded: those of a stated length, and those
//! that end with the connection.
use bytes::Bytes;
use vstd::prelude::*;

use crate::body::error::{BodyError, BodyResult};
use crate::body::reader::content_length::{
    content_length_read_gives_the_body, ContentLengthBodyReader, ContentLengthView,
};
use crate::body::reader::eof::{eof_read_gives_the_body, stream_ended, EofBodyReader, EofView};
use crate::body::reader::{data_view, read_failed, unread};
use crate::body::writer::content_length::{ContentLengthBodyWriter, ContentLengthWriterView};
use crate::body::writer::{flush_step, poll_flush};
use crate::http_message::message::ParseSlots;
use crate::io_buffer::{Buffered, BytesReader};
use crate::transport::{Context, Cx, Poll, WriteFailure};

verus! {

/// A writer for a body that is not chunk-encoded: either content-length
/// framed, or EOF-framed (a raw `W`).
pub enum OtherBodyWriter<W> {
    ContentLength(ContentLengthBodyWriter<W>),
    /// The inner writer is the body stream; callers signal end-of-body by
    /// finishing the forwarder rather than by writing any framing byte.
    Eof(W),
}

/// The model of an [`OtherBodyWriter`].
pub enum OtherWriterView<W> {
    ContentLength(ContentLengthWriterView<W>),
    Eof(W),
}

impl<W> OtherWriterView<W> {
    /// Some prefix of `buf` is written.
    pub open spec fn poll_write(self, cx: Cx, buf: Seq<u8>) -> (Self, Cx, Poll<BodyResult<usize>>) {
        match self {
            OtherWriterView::ContentLength(w) => {
                let (w, cx, p) = w.poll_write(cx, buf);
                (OtherWriterView::ContentLength(w), cx, p)
            },
            OtherWriterView::Eof(w) => {
                let (cx, p) = cx.poll_write(buf);
                (
                    self,
                    cx,
                    match p {
                        Poll::Pending => Poll::Pending,
                        Poll::Ready(Ok(n)) => Poll::Ready(Ok(n)),
                        Poll::Ready(Err(e)) => Poll::Ready(
                            Err(BodyError::BodyWriteError(WriteFailure::Io(e))),
                        ),
                    },
                )
            },
        }
    }

    /// The connection, once the body has been written. One that has to be
    /// closed to end the body is not given back.
    pub open spec fn into_writer(self) -> BodyResult<Option<W>> {
        match self {
            OtherWriterView::ContentLength(w) => if w.offset < w.length {
                Err(w.incomplete())
            } else {
                Ok(Some(w.writer))
            },
            OtherWriterView::Eof(_) => Ok(None),
        }
    }
}

impl<W> View for OtherBodyWriter<W> {
    type V = OtherWriterView<W>;

    open spec fn view(&self) -> OtherWriterView<W> {
        match *self {
            OtherBodyWriter::ContentLength(w) => OtherWriterView::ContentLength(w@),
            OtherBodyWriter::Eof(w) => OtherWriterView::Eof(w),
        }
    }
}

impl<W> OtherBodyWriter<W> {
    /// Write some prefix of `buf`.
    pub fn poll_write(&mut self, cx: &mut Context, buf: &[u8]) -> (r: Poll<BodyResult<usize>>)
        ensures
            (final(self)@, final(cx)@, r) == old(self)@.poll_write(old(cx)@, buf@),
    {
        match self {
            OtherBodyWriter::ContentLength(w) => w.poll_write(cx, buf),
            OtherBodyWriter::Eof(_) => match cx.poll_write(buf) {
                Poll::Pending => Poll::Pending,
                Poll::Ready(Ok(n)) => Poll::Ready(Ok(n)),
                Poll::Ready(Err(e)) => Poll::Ready(
                    Err(BodyError::BodyWriteError(WriteFailure::Io(e))),
                ),
            },
        }
    }

    /// Flush what was written.
    pub fn poll_flush(&mut self, cx: &mut Context) -> (r: Poll<BodyResult<()>>)
        ensures
            final(self)@ == old(self)@,
            final(cx)@ == flush_step(old(cx)@, false).0,
            r == flush_step(old(cx)@, false).2,
    {
        match self {
            OtherBodyWriter::ContentLength(w) => w.poll_flush(cx),
            OtherBodyWriter::Eof(_) => {
                let (_flushed, p) = poll_flush(cx, false);
                p
            },
        }
    }

    /// Give back the connection, where it can be used again.
    pub fn into_writer(self) -> (r: BodyResult<Option<W>>)
        ensures
            r == self@.into_writer(),
    {
        match self {
            OtherBodyWriter::ContentLength(w) => match w.into_writer() {
                Ok(w) => Ok(Some(w)),
                Err(e) => Err(e),
            },
            // Do not allow extracting out the EOF writer. We drop it to
            // indicate that things are finished. There's no way to indicate
            // that something has gone wrong. Use non-EOF writers and readers if
            // you want to avoid this ambiguous error condition.
            OtherBodyWriter::Eof(_w) => Ok(None),
        }
    }
}

/// A reader for a body that is not chunk-encoded: either content-length
/// framed, or EOF-framed.
pub enum OtherBodyReader<R> {
    ContentLength(ContentLengthBodyReader<R>),
    /// The body ends when the underlying connection is closed.
    Eof(EofBodyReader<R>),
}

/// The model of an [`OtherBodyReader`].
pub enum OtherReaderView<R> {
    ContentLength(ContentLengthView<R>),
    Eof(EofView<R>),
}

/// The model of a connection after a body: what is left of it, if it can be
/// used again.
pub struct DoneView<R> {
    pub slots: nat,
    pub reader: Option<Buffered<R>>,
}

/// The view of a connection after a body.
pub open spec fn done_view<R>(done: (ParseSlots, Option<BytesReader<R>>)) -> DoneView<R> {
    DoneView {
        slots: done.0@,
        reader: match done.1 {
            None => None,
            Some(reader) => Some(reader@),
        },
    }
}

impl<R> OtherReaderView<R> {
    /// A read of at most `max_len` bytes of the body; `None` at its end.
    pub open spec fn poll_read(self, cx: Cx, max_len: nat) -> (
        Self,
        Cx,
        Poll<BodyResult<Option<Seq<u8>>>>,
    ) {
        match self {
            OtherReaderView::ContentLength(r) => {
                let (r, cx, p) = r.poll_read(cx, max_len);
                (OtherReaderView::ContentLength(r), cx, p)
            },
            OtherReaderView::Eof(r) => {
                let (r, cx, p) = r.poll_read(cx, max_len);
                (OtherReaderView::Eof(r), cx, p)
            },
        }
    }

    /// The connection after the body.
    pub open spec fn into_done(self) -> DoneView<R> {
        match self {
            OtherReaderView::ContentLength(r) => DoneView {
                slots: r.slots,
                reader: Some(r.reader),
            },
            OtherReaderView::Eof(r) => DoneView { slots: r.slots, reader: None },
        }
    }

    /// Whether the end of the body has been seen.
    pub open spec fn is_done(self) -> bool {
        match self {
            OtherReaderView::ContentLength(r) => r.remaining() == 0,
            OtherReaderView::Eof(r) => r.eof,
        }
    }

    /// The bytes that have come and have not been consumed.
    pub open spec fn unread(self, cx: Cx) -> Seq<u8> {
        match self {
            OtherReaderView::ContentLength(r) => unread(r.reader, cx),
            OtherReaderView::Eof(r) => unread(r.reader, cx),
        }
    }
}

impl<R> View for OtherBodyReader<R> {
    type V = OtherReaderView<R>;

    open spec fn view(&self) -> OtherReaderView<R> {
        match *self {
            OtherBodyReader::ContentLength(r) => OtherReaderView::ContentLength(r@),
            OtherBodyReader::Eof(r) => OtherReaderView::Eof(r@),
        }
    }
}

impl<R> OtherBodyReader<R> {
    /// Read at most `max_len` bytes of the body; `None` at its end.
    pub fn poll_read(&mut self, cx: &mut Context, max_len: usize) -> (r: Poll<
        BodyResult<Option<Bytes>>,
    >)
        ensures
            (final(self)@, final(cx)@, data_view(r)) == old(self)@.poll_read(
                old(cx)@,
                max_len as nat,
            ),
    {
        match self {
            OtherBodyReader::ContentLength(r) => r.poll_read(cx, max_len),
            OtherBodyReader::Eof(r) => r.poll_read(cx, max_len),
        }
    }

    /// Consume the reader after `poll_read` has returned `Ok(None)`.
    /// Returns `(parse_slots, Some(reader))` for content-length (IO is still
    /// viable for pipelining) and `(parse_slots, None)` for EOF (connection
    /// is consumed).
    pub fn into_done(self) -> (r: (ParseSlots, Option<BytesReader<R>>))
        requires
            self@.is_done(),
        ensures
            done_view(r) == self@.into_done(),
    {
        match self {
            OtherBodyReader::ContentLength(r) => {
                let (reader, parse_slots) = r.finish();
                (parse_slots, Some(reader))
            },
            OtherBodyReader::Eof(r) => (r.drain(), None),
        }
    }
}

/// A read hands out the next bytes of what has come, and at least one where
/// any are asked for.
pub proof fn other_read_is_exact<R>(s: OtherReaderView<R>, cx: Cx, max_len: nat)
    ensures
        ({
            let (t, cx2, p) = s.poll_read(cx, max_len);
            &&& p matches Poll::Ready(Ok(Some(data))) ==> {
                &&& data.len() <= max_len
                &&& s.unread(cx) == data + t.unread(cx2)
                &&& max_len > 0 ==> data.len() > 0
            }
            &&& !(p matches Poll::Ready(Ok(Some(_)))) ==> s.unread(cx) == t.unread(cx2)
            &&& (p matches Poll::Ready(Ok(None))) ==> t.is_done()
            &&& cx2.write == cx.write
            &&& cx2.flush == cx.flush
            &&& cx2.wire == cx.wire
            &&& cx2.events() <= cx.events()
        }),
{
    let (t, cx2, p) = s.poll_read(cx, max_len);
    if let Poll::Ready(Ok(Some(data))) = p {
        assert(s.unread(cx) =~= data + t.unread(cx2));
    } else {
        assert(s.unread(cx) =~= t.unread(cx2));
    }
}

impl<R> OtherReaderView<R> {
    /// What holds of a reader from its creation on: it is not behind the end
    /// of its body, and where it has seen the end of the stream it holds
    /// nothing more.
    pub open spec fn is_valid(self) -> bool {
        match self {
            OtherReaderView::ContentLength(r) => r.offset <= r.length,
            OtherReaderView::Eof(r) => r.eof ==> r.reader.buf.len() == 0,
        }
    }
}

/// The bytes of a read whose outcome waits to be taken.
pub open spec fn arrived(cx: Cx) -> Seq<u8> {
    match cx.read {
        Some(Ok(data)) => data,
        _ => Seq::empty(),
    }
}

impl<R> DoneView<R> {
    /// The bytes that have come and have not been consumed.
    pub open spec fn unread(self, cx: Cx) -> Seq<u8> {
        match self.reader {
            Some(reader) => unread(reader, cx),
            None => arrived(cx),
        }
    }
}

/// A read keeps a reader valid; and after the end of the body, what has come
/// and has not been consumed is still there.
pub proof fn other_read_keeps_valid<R>(s: OtherReaderView<R>, cx: Cx, max_len: nat)
    requires
        s.is_valid(),
    ensures
        ({
            let (t, cx2, p) = s.poll_read(cx, max_len);
            &&& t.is_valid()
            &&& (p matches Poll::Ready(Ok(None))) ==> t.into_done().unread(cx2) == t.unread(cx2)
        }),
{
    let (t, cx2, p) = s.poll_read(cx, max_len);
    if p matches Poll::Ready(Ok(None)) {
        assert(t.into_done().unread(cx2) =~= t.unread(cx2));
    }
}

impl<R> OtherReaderView<R> {
    /// What is unread, and what is still to come behind it, is the rest `body` of a
    /// body, and `rest` behind it. Nothing comes behind a body that ends with the
    /// connection, and the stream ends only once all of it has come.
    pub open spec fn holds(self, cx: Cx, coming: Seq<u8>, body: Seq<u8>, rest: Seq<u8>) -> bool {
        match self {
            OtherReaderView::ContentLength(r) => r.holds(cx, coming, body, rest),
            OtherReaderView::Eof(r) => rest.len() == 0 && r.holds(cx, coming, body),
        }
    }

    /// The stream of a body that ends with the connection does not end while bytes of
    /// it are still to come.
    pub open spec fn comes_whole(self, cx: Cx, coming: Seq<u8>) -> bool {
        self is Eof && stream_ended(cx) ==> coming.len() == 0
    }

    /// A read can fail: the transport has failed; or the stream has ended before a
    /// body of stated length has come.
    pub open spec fn can_fail(self, cx: Cx, coming: Seq<u8>) -> bool {
        match self {
            OtherReaderView::ContentLength(_) => coming.len() > 0 && read_failed(cx),
            OtherReaderView::Eof(_) => cx.read matches Some(Err(_)),
        }
    }
}

/// A read gives the next bytes of a body, however it comes in; or, where there are
/// none, the end of the body. It is pending only while the end of the body has not
/// come.
pub proof fn other_read_gives_the_body<R>(
    s: OtherReaderView<R>,
    cx: Cx,
    max_len: nat,
    coming: Seq<u8>,
    body: Seq<u8>,
    rest: Seq<u8>,
)
    requires
        max_len > 0,
        s.holds(cx, coming, body, rest),
    ensures
        ({
            let (t, cx2, p) = s.poll_read(cx, max_len);
            &&& cx2.read == cx.read || cx2.read is None
            &&& (t is Eof) == (s is Eof)
            &&& match p {
                Poll::Ready(Ok(Some(data))) => {
                    &&& 0 < data.len() <= max_len
                    &&& data.len() <= body.len()
                    &&& data == body.take(data.len() as int)
                    &&& t.holds(cx2, coming, body.skip(data.len() as int), rest)
                },
                Poll::Ready(Ok(None)) => {
                    &&& body.len() == 0
                    &&& t.into_done().unread(cx2) + coming == rest
                },
                Poll::Pending => {
                    &&& cx2.read is None
                    &&& s is ContentLength ==> coming.len() > 0
                    &&& t.holds(cx2, coming, body, rest)
                },
                Poll::Ready(Err(_)) => s.can_fail(cx, coming),
            }
        }),
{
    let (t, cx2, p) = s.poll_read(cx, max_len);
    match s {
        OtherReaderView::ContentLength(r) => content_length_read_gives_the_body(
            r,
            cx,
            max_len,
            coming,
            body,
            rest,
        ),
        OtherReaderView::Eof(r) => eof_read_gives_the_body(r, cx, max_len, coming, body),
    }
    if p matches Poll::Ready(Ok(None)) {
        assert(t.into_done().unread(cx2) + coming =~= rest);
    }
}

/// A write puts exactly the accepted bytes on the wire, and none where it does
/// not succeed.
pub proof fn other_write_keeps_bytes<W>(s: OtherWriterView<W>, cx: Cx, buf: Seq<u8>)
    ensures
        ({
            let (t, cx2, p) = s.poll_write(cx, buf);
            &&& cx2.read == cx.read
            &&& match p {
                Poll::Ready(Ok(n)) => n <= buf.len() && cx2.wire == cx.wire + buf.take(n as int),
                _ => cx2.wire == cx.wire,
            }
        }),
{
}

/// A write comes to what the transport makes of it, and fails with its failure; only a body of
/// stated length refuses what does not fit into it. The connection comes back exactly where
/// such a body has been written to its end; otherwise it is told how much of it has. One that
/// a body ends with never comes back.
pub proof fn others_are_written_by_kind<W>(s: OtherWriterView<W>, cx: Cx, buf: Seq<u8>)
    requires
        buf.len() <= usize::MAX,
        s matches OtherWriterView::ContentLength(w) ==> w.offset <= w.length,
    ensures
        ({
            let (t, cx2, p) = s.poll_write(cx, buf);
            let fits = s matches OtherWriterView::ContentLength(w) ==> w.offset + buf.len()
                <= w.length;
            &&& !fits ==> t == s && cx2 == cx && (p matches Poll::Ready(
                Err(BodyError::BodyOverflow(n)),
            ) && n == s->ContentLength_0.length)
            &&& fits ==> (match cx.write {
                None => p is Pending && t == s,
                Some(Err(e)) => t == s && (p matches Poll::Ready(Err(BodyError::BodyWriteError(f)))
                    && f == WriteFailure::Io(e)),
                Some(Ok(n)) => p matches Poll::Ready(Ok(k)) && k == (if n <= buf.len() {
                    n as int
                } else {
                    buf.len() as int
                }) && match (s, t) {
                    (
                        OtherWriterView::ContentLength(a),
                        OtherWriterView::ContentLength(b),
                    ) => b.length == a.length && b.writer == a.writer && b.offset == a.offset + k,
                    (OtherWriterView::Eof(a), OtherWriterView::Eof(b)) => a == b,
                    _ => false,
                },
            })
        }),
        match (s, s.into_writer()) {
            (OtherWriterView::ContentLength(w), Ok(Some(io))) => w.offset == w.length && io
                == w.writer,
            (
                OtherWriterView::ContentLength(w),
                Err(BodyError::IncompleteBody { expected, actual }),
            ) => w.offset < w.length && expected == w.length && actual == w.offset,
            (OtherWriterView::Eof(_), Ok(None)) => true,
            _ => false,
        },
{
}

/// A body is read by its own kind, and stays of that kind. After it, the connection and what
/// is unread of it come back, unless the body ended with it.
pub proof fn others_are_read_by_kind<R>(s: OtherReaderView<R>, cx: Cx, max_len: nat)
    ensures
        ({
            let (t, cx2, p) = s.poll_read(cx, max_len);
            match (s, t) {
                (OtherReaderView::ContentLength(a), OtherReaderView::ContentLength(b)) => (b, cx2, p)
                    == a.poll_read(cx, max_len),
                (OtherReaderView::Eof(a), OtherReaderView::Eof(b)) => (b, cx2, p) == a.poll_read(
                    cx,
                    max_len,
                ),
                _ => false,
            }
        }),
        s matches OtherReaderView::ContentLength(r) ==> s.into_done().reader == Some(r.reader)
            && s.into_done().slots == r.slots && (s.is_done() <==> r.offset >= r.length),
        s matches OtherReaderView::Eof(r) ==> s.into_done().reader is None && s.into_done().slots
            == r.slots && s.is_done() == r.eof,
{
}

} // verus!
