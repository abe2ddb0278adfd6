//! Encoding-generic body-writer states. Each variant wraps the
//! corresponding per-encoding state in [`bodyless`], [`content_length`],
//! [`chunked`], or [`eof`]. The unifier exposes only the surface common
//! to all four encodings; chunked-only operations such as trailer
//! support remain on [`chunked::Ready`].
//!
//! [`Finish::into_writer`] returns `Option<FrontendWriter<I>>` because
//! the EOF encoding cannot be recycled - the connection must be closed
//! once the body is sent. The other encodings always yield `Some`.
use vstd::prelude::*;

use crate::body::chunk_coding::encode_end;
use crate::body::error::{BodyError, BodyResult};
use crate::body::writer::bodyless as plain_bodyless;
use crate::body::writer::chunked as plain_chunked;
use crate::body::writer::chunked::{close_bytes, open_bytes};
use crate::body::writer::content_length as plain_length;
use crate::body::writer::eof as plain_eof;
use crate::body::writer::{bounded_put, bounded_write};
use crate::frontend::error::{map_write, write_result, FrontendError, FrontendResult};
use crate::frontend::writer::FrontendWriter;
use crate::frontend::writer::{bodyless, chunked, content_length, eof};
use crate::transport::{Context, Cx, Poll};

verus! {

/// Idle state.
#[derive(Debug)]
pub enum Ready<I> {
    Bodyless(bodyless::Ready<I>),
    CL(content_length::Ready<I>),
    Chunked(chunked::Ready<I>),
    Eof(eof::Ready<I>),
}

/// The model of a [`Ready`].
pub enum ReadyView<I> {
    Bodyless(I),
    CL(plain_length::ReadyView<I>),
    Chunked(I),
    Eof(I),
}

impl<I> View for Ready<I> {
    type V = ReadyView<I>;

    open spec fn view(&self) -> ReadyView<I> {
        match *self {
            Ready::Bodyless(s) => ReadyView::Bodyless(s.io()),
            Ready::CL(s) => ReadyView::CL(s@),
            Ready::Chunked(s) => ReadyView::Chunked(s.io()),
            Ready::Eof(s) => ReadyView::Eof(s.io()),
        }
    }
}

impl<I> ReadyView<I> {
    /// A chunk of `length` bytes is begun, where the encoding has room for it.
    pub open spec fn open(self, length: u64) -> BodyResult<OpenView<I>> {
        match self {
            ReadyView::Bodyless(writer) => if length > 0 {
                Err(BodyError::BodyOverflow(length))
            } else {
                Ok(OpenView::Bodyless(writer))
            },
            ReadyView::CL(r) => if r.offset + length > r.length {
                Err(BodyError::BodyOverflow(r.length))
            } else {
                Ok(
                    OpenView::CL(
                        plain_length::OpenView {
                            writer: r.writer,
                            length: r.length,
                            offset: r.offset,
                            chunk_length: length,
                        },
                    ),
                )
            },
            ReadyView::Chunked(writer) => Ok(
                OpenView::Chunked(
                    plain_chunked::OpenView { writer, chunk_length: length, written: 0 },
                ),
            ),
            ReadyView::Eof(writer) => Ok(
                OpenView::Eof(plain_eof::OpenView { writer, chunk_length: length }),
            ),
        }
    }

    /// The body is ended cleanly, where it has been written to its end.
    pub open spec fn finish(self) -> BodyResult<FinishView<I>> {
        match self {
            ReadyView::Bodyless(writer) => Ok(
                FinishView::Bodyless(plain_bodyless::FinishView { writer, flushed: false }),
            ),
            ReadyView::CL(r) => if r.offset < r.length {
                Err(BodyError::IncompleteBody { expected: r.length, actual: r.offset })
            } else {
                Ok(
                    FinishView::CL(
                        plain_length::FinishView { writer: r.writer, flushed: false },
                    ),
                )
            },
            ReadyView::Chunked(writer) => Ok(
                FinishView::Chunked(
                    plain_chunked::FinishView {
                        writer,
                        data: encode_end(Seq::empty()),
                        written: 0,
                        flushed: false,
                    },
                ),
            ),
            ReadyView::Eof(writer) => Ok(
                FinishView::Eof(plain_eof::FinishView { writer, flushed: false }),
            ),
        }
    }

    /// The body is ended abnormally.
    pub open spec fn abort(self) -> AbortView<I> {
        match self {
            ReadyView::Bodyless(writer) => AbortView::Bodyless(
                plain_bodyless::AbortView { writer, flushed: false },
            ),
            ReadyView::CL(r) => AbortView::CL(
                plain_length::AbortView { writer: r.writer, flushed: false },
            ),
            ReadyView::Chunked(writer) => AbortView::Chunked(
                plain_chunked::AbortView { writer, written: false, flushed: false },
            ),
            ReadyView::Eof(writer) => AbortView::Eof(
                plain_eof::AbortView { writer, flushed: false },
            ),
        }
    }
}

/// A transition comes to what its model says, with errors as errors of the frontend.
pub open spec fn moved<T: View>(r: FrontendResult<T>, model: BodyResult<T::V>) -> bool {
    match (r, model) {
        (Ok(t), Ok(v)) => t@ == v,
        (Err(e), Err(f)) => e == FrontendError::BodyWriteError(f),
        _ => false,
    }
}

impl<I> Ready<I> {
    /// Begin a new chunk of `length` bytes. Errors when the underlying
    /// encoding rejects the requested length.
    pub fn open(self, length: u64) -> (r: FrontendResult<Open<I>>)
        ensures
            moved(r, self@.open(length)),
    {
        match self {
            Ready::Bodyless(r) => match r.open(length) {
                Ok(o) => Ok(Open::Bodyless(o)),
                Err(e) => Err(FrontendError::from(e)),
            },
            Ready::CL(r) => match r.open(length) {
                Ok(o) => Ok(Open::CL(o)),
                Err(e) => Err(FrontendError::from(e)),
            },
            Ready::Chunked(r) => Ok(Open::Chunked(r.open(length))),
            Ready::Eof(r) => Ok(Open::Eof(r.open(length))),
        }
    }

    /// Terminate the body cleanly. Errors when the underlying encoding
    /// rejects the transition (e.g. content-length with bytes still
    /// owed).
    pub fn finish(self) -> (r: FrontendResult<Finish<I>>)
        ensures
            moved(r, self@.finish()),
    {
        match self {
            Ready::Bodyless(r) => Ok(Finish::Bodyless(r.finish())),
            Ready::CL(r) => match r.finish() {
                Ok(f) => Ok(Finish::CL(f)),
                Err(e) => Err(FrontendError::from(e)),
            },
            Ready::Chunked(r) => Ok(Finish::Chunked(r.finish())),
            Ready::Eof(r) => Ok(Finish::Eof(r.finish())),
        }
    }

    /// Terminate the body abnormally.
    pub fn abort(self) -> (r: Abort<I>)
        ensures
            r@ == self@.abort(),
    {
        match self {
            Ready::Bodyless(r) => Abort::Bodyless(r.abort()),
            Ready::CL(r) => Abort::CL(r.abort()),
            Ready::Chunked(r) => Abort::Chunked(r.abort()),
            Ready::Eof(r) => Abort::Eof(r.abort()),
        }
    }
}

impl<I> From<bodyless::Ready<I>> for Ready<I> {
    fn from(r: bodyless::Ready<I>) -> (ready: Self) {
        Ready::Bodyless(r)
    }
}

impl<I> vstd::std_specs::convert::FromSpecImpl<bodyless::Ready<I>> for Ready<I> {
    open spec fn obeys_from_spec() -> bool {
        true
    }

    open spec fn from_spec(r: bodyless::Ready<I>) -> Self {
        Ready::Bodyless(r)
    }
}

impl<I> From<content_length::Ready<I>> for Ready<I> {
    fn from(r: content_length::Ready<I>) -> (ready: Self) {
        Ready::CL(r)
    }
}

impl<I> vstd::std_specs::convert::FromSpecImpl<content_length::Ready<I>> for Ready<I> {
    open spec fn obeys_from_spec() -> bool {
        true
    }

    open spec fn from_spec(r: content_length::Ready<I>) -> Self {
        Ready::CL(r)
    }
}

impl<I> From<chunked::Ready<I>> for Ready<I> {
    fn from(r: chunked::Ready<I>) -> (ready: Self) {
        Ready::Chunked(r)
    }
}

impl<I> vstd::std_specs::convert::FromSpecImpl<chunked::Ready<I>> for Ready<I> {
    open spec fn obeys_from_spec() -> bool {
        true
    }

    open spec fn from_spec(r: chunked::Ready<I>) -> Self {
        Ready::Chunked(r)
    }
}

impl<I> From<eof::Ready<I>> for Ready<I> {
    fn from(r: eof::Ready<I>) -> (ready: Self) {
        Ready::Eof(r)
    }
}

impl<I> vstd::std_specs::convert::FromSpecImpl<eof::Ready<I>> for Ready<I> {
    open spec fn obeys_from_spec() -> bool {
        true
    }

    open spec fn from_spec(r: eof::Ready<I>) -> Self {
        Ready::Eof(r)
    }
}

/// Open state.
#[derive(Debug)]
pub enum Open<I> {
    Bodyless(bodyless::Open<I>),
    CL(content_length::Open<I>),
    Chunked(chunked::Open<I>),
    Eof(eof::Open<I>),
}

/// The model of a [`Open`].
pub enum OpenView<I> {
    Bodyless(I),
    CL(plain_length::OpenView<I>),
    Chunked(plain_chunked::OpenView<I>),
    Eof(plain_eof::OpenView<I>),
}

impl<I> View for Open<I> {
    type V = OpenView<I>;

    open spec fn view(&self) -> OpenView<I> {
        match *self {
            Open::Bodyless(s) => OpenView::Bodyless(s.io()),
            Open::CL(s) => OpenView::CL(s@),
            Open::Chunked(s) => OpenView::Chunked(s@),
            Open::Eof(s) => OpenView::Eof(s@),
        }
    }
}

impl<I> OpenView<I> {
    /// The preamble of the chunk is written.
    pub open spec fn poll_open(self, cx: Cx) -> (Self, Cx, Poll<BodyResult<()>>) {
        match self {
            OpenView::Chunked(o) => {
                let (o, cx, p) = o.poll_open(cx);
                (OpenView::Chunked(o), cx, p)
            },
            _ => (self, cx, Poll::Ready(Ok(()))),
        }
    }

    /// The data of the chunk can be written, once its preamble has been.
    pub open spec fn into_write(self) -> BodyResult<WriteView<I>> {
        match self {
            OpenView::Bodyless(writer) => Ok(WriteView::Bodyless(writer)),
            OpenView::CL(o) => Ok(
                WriteView::CL(
                    plain_length::WriteView {
                        writer: o.writer,
                        length: o.length,
                        offset: o.offset,
                        chunk_length: o.chunk_length,
                        chunk_offset: 0,
                    },
                ),
            ),
            OpenView::Chunked(o) => if o.written < open_bytes(o.chunk_length).len() {
                Err(
                    BodyError::IncompleteChunkHeader {
                        expected: open_bytes(o.chunk_length).len() as u64,
                        actual: o.written as u64,
                    },
                )
            } else {
                Ok(
                    WriteView::Chunked(
                        plain_chunked::WriteView {
                            writer: o.writer,
                            chunk_length: o.chunk_length,
                            chunk_offset: 0,
                        },
                    ),
                )
            },
            OpenView::Eof(o) => Ok(
                WriteView::Eof(
                    plain_eof::WriteView {
                        writer: o.writer,
                        chunk_length: o.chunk_length,
                        chunk_offset: 0,
                    },
                ),
            ),
        }
    }
}

impl<I> Open<I> {
    /// Move to the [`Write`] state. Will return an error if not polled to
    /// completion.
    pub fn into_write(self) -> (r: FrontendResult<Write<I>>)
        ensures
            moved(r, self@.into_write()),
    {
        match self {
            Open::Bodyless(o) => match o.into_write() {
                Ok(w) => Ok(Write::Bodyless(w)),
                Err(e) => Err(FrontendError::from(e)),
            },
            Open::CL(o) => match o.into_write() {
                Ok(w) => Ok(Write::CL(w)),
                Err(e) => Err(FrontendError::from(e)),
            },
            Open::Chunked(o) => match o.into_write() {
                Ok(w) => Ok(Write::Chunked(w)),
                Err(e) => Err(FrontendError::from(e)),
            },
            Open::Eof(o) => match o.into_write() {
                Ok(w) => Ok(Write::Eof(w)),
                Err(e) => Err(FrontendError::from(e)),
            },
        }
    }

    /// Poll for completion.
    pub fn poll_open(&mut self, cx: &mut Context) -> (r: Poll<FrontendResult<()>>)
        ensures
            ({
                let (t, cx2, p) = old(self)@.poll_open(old(cx)@);
                final(self)@ == t && final(cx)@ == cx2 && r == write_result(p)
            }),
    {
        match self {
            Open::Bodyless(o) => map_write(o.poll_open(cx)),
            Open::CL(o) => map_write(o.poll_open(cx)),
            Open::Chunked(o) => map_write(o.poll_open(cx)),
            Open::Eof(o) => map_write(o.poll_open(cx)),
        }
    }
}

/// Write state.
#[derive(Debug)]
pub enum Write<I> {
    Bodyless(bodyless::Write<I>),
    CL(content_length::Write<I>),
    Chunked(chunked::Write<I>),
    Eof(eof::Write<I>),
}

/// The model of a [`Write`].
pub enum WriteView<I> {
    Bodyless(I),
    CL(plain_length::WriteView<I>),
    Chunked(plain_chunked::WriteView<I>),
    Eof(plain_eof::WriteView<I>),
}

impl<I> View for Write<I> {
    type V = WriteView<I>;

    open spec fn view(&self) -> WriteView<I> {
        match *self {
            Write::Bodyless(s) => WriteView::Bodyless(s.io()),
            Write::CL(s) => WriteView::CL(s@),
            Write::Chunked(s) => WriteView::Chunked(s@),
            Write::Eof(s) => WriteView::Eof(s@),
        }
    }
}

impl<I> WriteView<I> {
    /// Some prefix of `buffer` is written.
    pub open spec fn poll_write(self, cx: Cx, buffer: Seq<u8>) -> (
        Self,
        Cx,
        Poll<BodyResult<usize>>,
    ) {
        match self {
            WriteView::Bodyless(_) => {
                let (cx, _, p) = bounded_write(cx, 0, 0, buffer);
                (self, cx, p)
            },
            WriteView::CL(w) => {
                let (w, cx, p) = w.poll_write(cx, buffer);
                (WriteView::CL(w), cx, p)
            },
            WriteView::Chunked(w) => {
                let (w, cx, p) = w.poll_write(cx, buffer);
                (WriteView::Chunked(w), cx, p)
            },
            WriteView::Eof(w) => {
                let (w, cx, p) = w.poll_write(cx, buffer);
                (WriteView::Eof(w), cx, p)
            },
        }
    }

    /// All of `buffer` but its first `written` bytes is written.
    pub open spec fn poll_write_all(self, cx: Cx, buffer: Seq<u8>, written: nat) -> (
        Self,
        Cx,
        nat,
        Poll<BodyResult<()>>,
    ) {
        match self {
            WriteView::Bodyless(_) => {
                let (cx, _, now, p) = bounded_put(cx, 0, 0, buffer, written);
                (self, cx, now, p)
            },
            WriteView::CL(w) => {
                let (w, cx, now, p) = w.poll_write_all(cx, buffer, written);
                (WriteView::CL(w), cx, now, p)
            },
            WriteView::Chunked(w) => {
                let (w, cx, now, p) = w.poll_write_all(cx, buffer, written);
                (WriteView::Chunked(w), cx, now, p)
            },
            WriteView::Eof(w) => {
                let (w, cx, now, p) = w.poll_write_all(cx, buffer, written);
                (WriteView::Eof(w), cx, now, p)
            },
        }
    }

    /// The chunk can be closed, once its data has been written.
    pub open spec fn into_close(self) -> BodyResult<CloseView<I>> {
        match self {
            WriteView::Bodyless(writer) => Ok(CloseView::Bodyless(writer)),
            WriteView::CL(w) => if w.chunk_offset < w.chunk_length {
                Err(
                    BodyError::IncompleteBody { expected: w.chunk_length, actual: w.chunk_offset },
                )
            } else {
                Ok(
                    CloseView::CL(
                        plain_length::ReadyView {
                            writer: w.writer,
                            length: w.length,
                            offset: (w.offset + w.chunk_length) as u64,
                        },
                    ),
                )
            },
            WriteView::Chunked(w) => if w.chunk_offset < w.chunk_length {
                Err(
                    BodyError::IncompleteBody { expected: w.chunk_length, actual: w.chunk_offset },
                )
            } else {
                Ok(
                    CloseView::Chunked(
                        plain_chunked::CloseView {
                            writer: w.writer,
                            footer: close_bytes(w.chunk_length),
                            written: 0,
                        },
                    ),
                )
            },
            WriteView::Eof(w) => if w.chunk_offset < w.chunk_length {
                Err(
                    BodyError::IncompleteBody { expected: w.chunk_length, actual: w.chunk_offset },
                )
            } else {
                Ok(CloseView::Eof(w.writer))
            },
        }
    }
}

impl<I> Write<I> {
    /// Move to the state needed to close out the written bytes. Returns an
    /// error if the right conditions have not been met for closing.
    pub fn into_close(self) -> (r: FrontendResult<Close<I>>)
        ensures
            moved(r, self@.into_close()),
    {
        match self {
            Write::Bodyless(w) => match w.into_close() {
                Ok(c) => Ok(Close::Bodyless(c)),
                Err(e) => Err(FrontendError::from(e)),
            },
            Write::CL(w) => match w.into_close() {
                Ok(c) => Ok(Close::CL(c)),
                Err(e) => Err(FrontendError::from(e)),
            },
            Write::Chunked(w) => match w.into_close() {
                Ok(c) => Ok(Close::Chunked(c)),
                Err(e) => Err(FrontendError::from(e)),
            },
            Write::Eof(w) => match w.into_close() {
                Ok(c) => Ok(Close::Eof(c)),
                Err(e) => Err(FrontendError::from(e)),
            },
        }
    }

    /// Write `buffer`. Returns the number of bytes successfully written.
    pub fn poll_write(&mut self, cx: &mut Context, buffer: &[u8]) -> (r: Poll<FrontendResult<usize>>)
        ensures
            ({
                let (t, cx2, p) = old(self)@.poll_write(old(cx)@, buffer@);
                final(self)@ == t && final(cx)@ == cx2 && r == write_result(p)
            }),
    {
        match self {
            Write::Bodyless(w) => map_write(w.poll_write(cx, buffer)),
            Write::CL(w) => map_write(w.poll_write(cx, buffer)),
            Write::Chunked(w) => map_write(w.poll_write(cx, buffer)),
            Write::Eof(w) => map_write(w.poll_write(cx, buffer)),
        }
    }

    /// Write all of `buffer` but its first `written` bytes.
    pub fn poll_write_all(&mut self, cx: &mut Context, buffer: &[u8], written: &mut usize) -> (r:
        Poll<FrontendResult<()>>)
        ensures
            ({
                let (t, cx2, now, p) = old(self)@.poll_write_all(
                    old(cx)@,
                    buffer@,
                    *old(written) as nat,
                );
                final(self)@ == t && final(cx)@ == cx2 && *final(written) == now && r
                    == write_result(p)
            }),
    {
        match self {
            Write::Bodyless(w) => map_write(w.poll_write_all(cx, buffer, written)),
            Write::CL(w) => map_write(w.poll_write_all(cx, buffer, written)),
            Write::Chunked(w) => map_write(w.poll_write_all(cx, buffer, written)),
            Write::Eof(w) => map_write(w.poll_write_all(cx, buffer, written)),
        }
    }
}

/// Close state.
#[derive(Debug)]
pub enum Close<I> {
    Bodyless(bodyless::Close<I>),
    CL(content_length::Close<I>),
    Chunked(chunked::Close<I>),
    Eof(eof::Close<I>),
}

/// The model of a [`Close`].
pub enum CloseView<I> {
    Bodyless(I),
    CL(plain_length::ReadyView<I>),
    Chunked(plain_chunked::CloseView<I>),
    Eof(I),
}

impl<I> View for Close<I> {
    type V = CloseView<I>;

    open spec fn view(&self) -> CloseView<I> {
        match *self {
            Close::Bodyless(s) => CloseView::Bodyless(s.io()),
            Close::CL(s) => CloseView::CL(s@),
            Close::Chunked(s) => CloseView::Chunked(s@),
            Close::Eof(s) => CloseView::Eof(s.io()),
        }
    }
}

impl<I> CloseView<I> {
    /// What ends the chunk is written.
    pub open spec fn poll_close(self, cx: Cx) -> (Self, Cx, Poll<BodyResult<()>>) {
        match self {
            CloseView::Chunked(c) => {
                let (c, cx, p) = c.poll_close(cx);
                (CloseView::Chunked(c), cx, p)
            },
            _ => (self, cx, Poll::Ready(Ok(()))),
        }
    }

    /// The next chunk can be begun, once what ends this one has been written.
    pub open spec fn into_ready(self) -> BodyResult<ReadyView<I>> {
        match self {
            CloseView::Bodyless(writer) => Ok(ReadyView::Bodyless(writer)),
            CloseView::CL(c) => Ok(ReadyView::CL(c)),
            CloseView::Chunked(c) => if c.written < c.footer.len() {
                Err(
                    BodyError::IncompleteChunkFooter {
                        expected: c.footer.len() as u64,
                        actual: c.written as u64,
                    },
                )
            } else {
                Ok(ReadyView::Chunked(c.writer))
            },
            CloseView::Eof(writer) => Ok(ReadyView::Eof(writer)),
        }
    }
}

impl<I> Close<I> {
    /// Move back to the [`Ready`] state. Returns an error if not polled to
    /// completion.
    pub fn into_ready(self) -> (r: FrontendResult<Ready<I>>)
        ensures
            moved(r, self@.into_ready()),
    {
        match self {
            Close::Bodyless(c) => match c.into_ready() {
                Ok(r) => Ok(Ready::Bodyless(r)),
                Err(e) => Err(FrontendError::from(e)),
            },
            Close::CL(c) => match c.into_ready() {
                Ok(r) => Ok(Ready::CL(r)),
                Err(e) => Err(FrontendError::from(e)),
            },
            Close::Chunked(c) => match c.into_ready() {
                Ok(r) => Ok(Ready::Chunked(r)),
                Err(e) => Err(FrontendError::from(e)),
            },
            Close::Eof(c) => match c.into_ready() {
                Ok(r) => Ok(Ready::Eof(r)),
                Err(e) => Err(FrontendError::from(e)),
            },
        }
    }

    /// Poll for completion.
    pub fn poll_close(&mut self, cx: &mut Context) -> (r: Poll<FrontendResult<()>>)
        ensures
            ({
                let (t, cx2, p) = old(self)@.poll_close(old(cx)@);
                final(self)@ == t && final(cx)@ == cx2 && r == write_result(p)
            }),
    {
        match self {
            Close::Bodyless(c) => map_write(c.poll_close(cx)),
            Close::CL(c) => map_write(c.poll_close(cx)),
            Close::Chunked(c) => map_write(c.poll_close(cx)),
            Close::Eof(c) => map_write(c.poll_close(cx)),
        }
    }
}

/// Finish (terminal) state. Yields `Some(FrontendWriter)` for encodings
/// that can be recycled, and `None` for the EOF encoding (where the
/// connection must be closed after the body is sent).
#[derive(Debug)]
pub enum Finish<I> {
    Bodyless(bodyless::Finish<I>),
    CL(content_length::Finish<I>),
    Chunked(chunked::Finish<I>),
    Eof(eof::Finish<I>),
}

/// The model of a [`Finish`].
pub enum FinishView<I> {
    Bodyless(plain_bodyless::FinishView<I>),
    CL(plain_length::FinishView<I>),
    Chunked(plain_chunked::FinishView<I>),
    Eof(plain_eof::FinishView<I>),
}

impl<I> View for Finish<I> {
    type V = FinishView<I>;

    open spec fn view(&self) -> FinishView<I> {
        match *self {
            Finish::Bodyless(s) => FinishView::Bodyless(s@),
            Finish::CL(s) => FinishView::CL(s@),
            Finish::Chunked(s) => FinishView::Chunked(s@),
            Finish::Eof(s) => FinishView::Eof(s@),
        }
    }
}

impl<I> FinishView<I> {
    /// The end of the body is written and flushed.
    pub open spec fn poll_finish(self, cx: Cx) -> (Self, Cx, Poll<BodyResult<()>>) {
        match self {
            FinishView::Bodyless(f) => {
                let (f, cx, p) = f.poll_finish(cx);
                (FinishView::Bodyless(f), cx, p)
            },
            FinishView::CL(f) => {
                let (f, cx, p) = f.poll_finish(cx);
                (FinishView::CL(f), cx, p)
            },
            FinishView::Chunked(f) => {
                let (f, cx, p) = f.poll_finish(cx);
                (FinishView::Chunked(f), cx, p)
            },
            FinishView::Eof(f) => {
                let (f, cx, p) = f.poll_finish(cx);
                (FinishView::Eof(f), cx, p)
            },
        }
    }

    /// The connection, once the end of the body has been written and flushed,
    /// where it can be used again.
    pub open spec fn into_writer(self) -> BodyResult<Option<I>> {
        match self {
            FinishView::Bodyless(f) => if f.flushed {
                Ok(Some(f.writer))
            } else {
                Err(BodyError::UnflushedFinish)
            },
            FinishView::CL(f) => if f.flushed {
                Ok(Some(f.writer))
            } else {
                Err(BodyError::UnflushedFinish)
            },
            FinishView::Chunked(f) => if f.written < f.data.len() {
                Err(
                    BodyError::IncompleteFinish {
                        expected: f.data.len() as u64,
                        actual: f.written as u64,
                    },
                )
            } else if !f.flushed {
                Err(BodyError::UnflushedFinish)
            } else {
                Ok(Some(f.writer))
            },
            FinishView::Eof(f) => if f.flushed {
                Ok(None)
            } else {
                Err(BodyError::UnflushedFinish)
            },
        }
    }
}

impl<I> Finish<I> {
    /// Consume the [`Finish`] state and, if possible, give back the
    /// [`FrontendWriter`].
    pub fn into_writer(self) -> (r: FrontendResult<Option<FrontendWriter<I>>>)
        ensures
            match (r, self@.into_writer()) {
                (Ok(None), Ok(None)) => true,
                (Ok(Some(w)), Ok(Some(io))) => w.io() == io,
                (Err(e), Err(f)) => e == FrontendError::BodyWriteError(f),
                _ => false,
            },
    {
        match self {
            Finish::Bodyless(f) => match f.into_writer() {
                Ok(w) => Ok(Some(w)),
                Err(e) => Err(FrontendError::from(e)),
            },
            Finish::CL(f) => match f.into_writer() {
                Ok(w) => Ok(Some(w)),
                Err(e) => Err(FrontendError::from(e)),
            },
            Finish::Chunked(f) => match f.into_writer() {
                Ok(w) => Ok(Some(w)),
                Err(e) => Err(FrontendError::from(e)),
            },
            Finish::Eof(f) => match f.discard() {
                Ok(()) => Ok(None),
                Err(e) => Err(FrontendError::from(e)),
            },
        }
    }

    /// Poll for completion.
    pub fn poll_finish(&mut self, cx: &mut Context) -> (r: Poll<FrontendResult<()>>)
        ensures
            ({
                let (t, cx2, p) = old(self)@.poll_finish(old(cx)@);
                final(self)@ == t && final(cx)@ == cx2 && r == write_result(p)
            }),
    {
        match self {
            Finish::Bodyless(f) => map_write(f.poll_finish(cx)),
            Finish::CL(f) => map_write(f.poll_finish(cx)),
            Finish::Chunked(f) => map_write(f.poll_finish(cx)),
            Finish::Eof(f) => map_write(f.poll_finish(cx)),
        }
    }
}

/// Abort (terminal) state.
#[derive(Debug)]
pub enum Abort<I> {
    Bodyless(bodyless::Abort<I>),
    CL(content_length::Abort<I>),
    Chunked(chunked::Abort<I>),
    Eof(eof::Abort<I>),
}

/// The model of a [`Abort`].
pub enum AbortView<I> {
    Bodyless(plain_bodyless::AbortView<I>),
    CL(plain_length::AbortView<I>),
    Chunked(plain_chunked::AbortView<I>),
    Eof(plain_eof::AbortView<I>),
}

impl<I> View for Abort<I> {
    type V = AbortView<I>;

    open spec fn view(&self) -> AbortView<I> {
        match *self {
            Abort::Bodyless(s) => AbortView::Bodyless(s@),
            Abort::CL(s) => AbortView::CL(s@),
            Abort::Chunked(s) => AbortView::Chunked(s@),
            Abort::Eof(s) => AbortView::Eof(s@),
        }
    }
}

impl<I> AbortView<I> {
    /// What ends the body abnormally is written and flushed.
    pub open spec fn poll_abort(self, cx: Cx) -> (Self, Cx, Poll<BodyResult<()>>) {
        match self {
            AbortView::Bodyless(a) => {
                let (a, cx, p) = a.poll_abort(cx);
                (AbortView::Bodyless(a), cx, p)
            },
            AbortView::CL(a) => {
                let (a, cx, p) = a.poll_abort(cx);
                (AbortView::CL(a), cx, p)
            },
            AbortView::Chunked(a) => {
                let (a, cx, p) = a.poll_abort(cx);
                (AbortView::Chunked(a), cx, p)
            },
            AbortView::Eof(a) => {
                let (a, cx, p) = a.poll_abort(cx);
                (AbortView::Eof(a), cx, p)
            },
        }
    }

    /// Whether that has been flushed.
    pub open spec fn is_flushed(self) -> bool {
        match self {
            AbortView::Bodyless(a) => a.flushed,
            AbortView::CL(a) => a.flushed,
            AbortView::Chunked(a) => a.flushed,
            AbortView::Eof(a) => a.flushed,
        }
    }
}

impl<I> Abort<I> {
    /// Discard the [`Abort`]. An error is returned if not already polled to
    /// completion.
    pub fn discard(self) -> (r: FrontendResult<()>)
        ensures
            match r {
                Ok(()) => self@.is_flushed(),
                Err(e) => !self@.is_flushed() && e == FrontendError::BodyWriteError(BodyError::UnflushedAbort),
            },
    {
        let r = match self {
            Abort::Bodyless(a) => a.discard(),
            Abort::CL(a) => a.discard(),
            Abort::Chunked(a) => a.discard(),
            Abort::Eof(a) => a.discard(),
        };
        match r {
            Ok(()) => Ok(()),
            Err(e) => Err(FrontendError::from(e)),
        }
    }

    /// Poll for completion.
    pub fn poll_abort(&mut self, cx: &mut Context) -> (r: Poll<FrontendResult<()>>)
        ensures
            ({
                let (t, cx2, p) = old(self)@.poll_abort(old(cx)@);
                final(self)@ == t && final(cx)@ == cx2 && r == write_result(p)
            }),
    {
        match self {
            Abort::Bodyless(a) => map_write(a.poll_abort(cx)),
            Abort::CL(a) => map_write(a.poll_abort(cx)),
            Abort::Chunked(a) => map_write(a.poll_abort(cx)),
            Abort::Eof(a) => map_write(a.poll_abort(cx)),
        }
    }
}

/// A chunk can be begun exactly where there is room for it: none with data where there is no
/// body, and no more than is left of a body of stated length. It is then as long as was asked
/// for, nothing of it has been written, and the connection is the same.
pub proof fn chunks_are_begun_where_they_fit<I>(s: ReadyView<I>, length: u64)
    ensures
        match (s, s.open(length)) {
            (ReadyView::Bodyless(io), Ok(OpenView::Bodyless(to))) => length == 0 && to == io,
            (ReadyView::Bodyless(_), Err(BodyError::BodyOverflow(n))) => length > 0 && n == length,
            (ReadyView::CL(r), Ok(OpenView::CL(o))) => {
                &&& r.offset + length <= r.length
                &&& o.writer == r.writer && o.length == r.length && o.offset == r.offset
                &&& o.chunk_length == length
            },
            (ReadyView::CL(r), Err(BodyError::BodyOverflow(n))) => r.offset + length > r.length && n
                == r.length,
            (ReadyView::Chunked(io), Ok(OpenView::Chunked(o))) => o.writer == io && o.chunk_length
                == length && o.written == 0,
            (ReadyView::Eof(io), Ok(OpenView::Eof(o))) => o.writer == io && o.chunk_length
                == length,
            _ => false,
        },
{
}

/// A body is ended cleanly exactly where it is complete: one of stated length only where all
/// of it has been written, and any other at once. What has to be written for that is the last
/// chunk, for a body of chunks, and nothing for any other.
pub proof fn bodies_are_ended_where_they_are_complete<I>(s: ReadyView<I>)
    ensures
        match (s, s.finish()) {
            (ReadyView::Bodyless(io), Ok(FinishView::Bodyless(f))) => f.writer == io && !f.flushed,
            (ReadyView::CL(r), Ok(FinishView::CL(f))) => r.offset >= r.length && f.writer
                == r.writer && !f.flushed,
            (ReadyView::CL(r), Err(BodyError::IncompleteBody { expected, actual })) => {
                r.offset < r.length && expected == r.length && actual == r.offset
            },
            (ReadyView::Chunked(io), Ok(FinishView::Chunked(f))) => {
                &&& f.writer == io && f.written == 0 && !f.flushed
                &&& f.data == seq!['0' as u8, 13u8, 10u8, 13u8, 10u8]
            },
            (ReadyView::Eof(io), Ok(FinishView::Eof(f))) => f.writer == io && !f.flushed,
            _ => false,
        },
        match (s, s.abort()) {
            (ReadyView::Bodyless(io), AbortView::Bodyless(a)) => a.writer == io && !a.flushed,
            (ReadyView::CL(r), AbortView::CL(a)) => a.writer == r.writer && !a.flushed,
            (ReadyView::Chunked(io), AbortView::Chunked(a)) => a.writer == io && !a.written
                && !a.flushed,
            (ReadyView::Eof(io), AbortView::Eof(a)) => a.writer == io && !a.flushed,
            _ => false,
        },
{
    crate::body::chunk_coding::chunks_are_written_with_their_length(
        Seq::empty(),
        Seq::empty(),
        Seq::empty(),
    );
    assert(crate::http_message::raw::field_lines(Seq::empty()) =~= Seq::empty());
    assert(encode_end(Seq::empty()) =~= seq!['0' as u8, 13u8, 10u8, 13u8, 10u8]);
}

/// Only a chunk of a body of chunks has a header to be written, and a footer; the others go on
/// at once. The data of a chunk can be written exactly where its header is there, the chunk
/// closed exactly where its data is, and the next begun exactly where its footer is; otherwise
/// it is told how much is there.
pub proof fn chunks_go_through_their_states<I>(
    o: OpenView<I>,
    w: WriteView<I>,
    c: CloseView<I>,
    cx: Cx,
)
    requires
        w matches WriteView::CL(a) ==> a.offset + a.chunk_length <= a.length,
    ensures
        match (o, o.poll_open(cx)) {
            (OpenView::Chunked(a), (OpenView::Chunked(b), cx2, p)) => (b, cx2, p) == a.poll_open(
                cx,
            ),
            (OpenView::Chunked(_), _) => false,
            (_, (t, cx2, p)) => t == o && cx2 == cx && (p matches Poll::Ready(Ok(()))),
        },
        match (o, o.into_write()) {
            (OpenView::Bodyless(io), Ok(WriteView::Bodyless(to))) => to == io,
            (OpenView::CL(a), Ok(WriteView::CL(b))) => {
                &&& b.writer == a.writer && b.length == a.length && b.offset == a.offset
                &&& b.chunk_length == a.chunk_length && b.chunk_offset == 0
            },
            (OpenView::Chunked(a), Ok(WriteView::Chunked(b))) => {
                &&& a.written >= open_bytes(a.chunk_length).len()
                &&& b.writer == a.writer && b.chunk_length == a.chunk_length && b.chunk_offset == 0
            },
            (
                OpenView::Chunked(a),
                Err(BodyError::IncompleteChunkHeader { expected, actual }),
            ) => {
                &&& a.written < open_bytes(a.chunk_length).len()
                &&& expected == open_bytes(a.chunk_length).len() as u64
                &&& actual == a.written as u64
            },
            (OpenView::Eof(a), Ok(WriteView::Eof(b))) => b.writer == a.writer && b.chunk_length
                == a.chunk_length && b.chunk_offset == 0,
            _ => false,
        },
        match (w, w.into_close()) {
            (WriteView::Bodyless(io), Ok(CloseView::Bodyless(to))) => to == io,
            (WriteView::CL(a), Ok(CloseView::CL(b))) => {
                &&& a.chunk_offset >= a.chunk_length
                &&& b.writer == a.writer && b.length == a.length
                &&& b.offset == a.offset + a.chunk_length
            },
            (WriteView::Chunked(a), Ok(CloseView::Chunked(b))) => {
                &&& a.chunk_offset >= a.chunk_length
                &&& b.writer == a.writer && b.written == 0
                &&& b.footer == close_bytes(a.chunk_length)
            },
            (WriteView::Eof(a), Ok(CloseView::Eof(to))) => a.chunk_offset >= a.chunk_length && to
                == a.writer,
            (WriteView::CL(a), Err(BodyError::IncompleteBody { expected, actual })) => {
                a.chunk_offset < a.chunk_length && expected == a.chunk_length && actual
                    == a.chunk_offset
            },
            (WriteView::Chunked(a), Err(BodyError::IncompleteBody { expected, actual })) => {
                a.chunk_offset < a.chunk_length && expected == a.chunk_length && actual
                    == a.chunk_offset
            },
            (WriteView::Eof(a), Err(BodyError::IncompleteBody { expected, actual })) => {
                a.chunk_offset < a.chunk_length && expected == a.chunk_length && actual
                    == a.chunk_offset
            },
            _ => false,
        },
        match (c, c.poll_close(cx)) {
            (CloseView::Chunked(a), (CloseView::Chunked(b), cx2, p)) => (b, cx2, p) == a.poll_close(
                cx,
            ),
            (CloseView::Chunked(_), _) => false,
            (_, (t, cx2, p)) => t == c && cx2 == cx && (p matches Poll::Ready(Ok(()))),
        },
        match (c, c.into_ready()) {
            (CloseView::Bodyless(io), Ok(ReadyView::Bodyless(to))) => to == io,
            (CloseView::CL(a), Ok(ReadyView::CL(b))) => b == a,
            (CloseView::Chunked(a), Ok(ReadyView::Chunked(to))) => a.written >= a.footer.len() && to
                == a.writer,
            (
                CloseView::Chunked(a),
                Err(BodyError::IncompleteChunkFooter { expected, actual }),
            ) => {
                a.written < a.footer.len() && expected == a.footer.len() as u64 && actual
                    == a.written as u64
            },
            (CloseView::Eof(io), Ok(ReadyView::Eof(to))) => to == io,
            _ => false,
        },
{
}

/// A write of a buffer into a chunk puts on the wire just what is left of it, in order and
/// once, and says so in `written`; it is done exactly where nothing is left. It is refused
/// exactly where that does not fit into the chunk, and then puts nothing on the wire; the
/// chunk counts what it took.
pub proof fn writes_put_the_buffer_on_the_wire<I>(
    w: &mut Write<I>,
    cx: &mut Context,
    buffer: &[u8],
    written: &mut usize,
    r: Poll<FrontendResult<()>>,
)
    requires
        call_ensures(Write::<I>::poll_write_all, (w, cx, buffer, written), r),
        *old(written) <= buffer@.len(),
        old(w)@ matches WriteView::CL(a) ==> a.chunk_offset <= a.chunk_length,
        old(w)@ matches WriteView::Chunked(a) ==> a.chunk_offset <= a.chunk_length,
        old(w)@ matches WriteView::Eof(a) ==> a.chunk_offset <= a.chunk_length,
    ensures
        ({
            let before = *old(written);
            let now = *final(written);
            let room: int = match old(w)@ {
                WriteView::Bodyless(_) => 0,
                WriteView::CL(a) => a.chunk_length - a.chunk_offset,
                WriteView::Chunked(a) => a.chunk_length - a.chunk_offset,
                WriteView::Eof(a) => a.chunk_length - a.chunk_offset,
            };
            &&& before <= now <= buffer@.len()
            &&& final(cx)@.wire + buffer@.skip(now as int) == old(cx)@.wire + buffer@.skip(
                before as int,
            )
            &&& (r is Ready && r->Ready_0 is Ok) == (now == buffer@.len())
            &&& buffer@.len() - before > room ==> final(cx)@ == old(cx)@ && (r matches Poll::Ready(
                Err(FrontendError::BodyWriteError(BodyError::BodyOverflow(_))),
            ))
            &&& buffer@.len() - before <= room && before < buffer@.len() ==> (match old(
                cx,
            )@.write {
                None => r is Pending && now == before,
                Some(Err(e)) => now == before && (r matches Poll::Ready(
                    Err(FrontendError::BodyWriteError(BodyError::BodyWriteError(f))),
                ) && f == crate::transport::WriteFailure::Io(e)),
                Some(Ok(0)) => now == before && (r matches Poll::Ready(
                    Err(FrontendError::BodyWriteError(BodyError::BodyWriteError(f))),
                ) && f == crate::transport::WriteFailure::WriteZero),
                Some(Ok(n)) => now == (if before + n <= buffer@.len() {
                    before + n
                } else {
                    buffer@.len() as int
                }),
            })
            &&& match (old(w)@, final(w)@) {
                (WriteView::Bodyless(io), WriteView::Bodyless(to)) => to == io,
                (WriteView::CL(a), WriteView::CL(b)) => {
                    &&& b.writer == a.writer && b.length == a.length && b.offset == a.offset
                    &&& b.chunk_length == a.chunk_length
                    &&& b.chunk_offset - a.chunk_offset == now - before
                },
                (WriteView::Chunked(a), WriteView::Chunked(b)) => {
                    &&& b.writer == a.writer && b.chunk_length == a.chunk_length
                    &&& b.chunk_offset - a.chunk_offset == now - before
                },
                (WriteView::Eof(a), WriteView::Eof(b)) => {
                    &&& b.writer == a.writer && b.chunk_length == a.chunk_length
                    &&& b.chunk_offset - a.chunk_offset == now - before
                },
                _ => false,
            }
        }),
{
    let before = *old(written) as nat;
    assert(buffer.len() == buffer@.len());
    let (length, offset): (u64, u64) = match old(w)@ {
        WriteView::Bodyless(_) => (0, 0),
        WriteView::CL(a) => (a.chunk_length, a.chunk_offset),
        WriteView::Chunked(a) => (a.chunk_length, a.chunk_offset),
        WriteView::Eof(a) => (a.chunk_length, a.chunk_offset),
    };
    crate::body::writer::bounded_put_keeps_bytes(old(cx)@, length, offset, buffer@, before);
    crate::body::writer::put_failures_are_those_of_the_wire(old(cx)@, buffer@, before);
}

/// A write of some of a buffer puts just the accepted bytes on the wire, from its front, and
/// says how many they are; a buffer that does not fit into the chunk is refused as a whole.
pub proof fn writes_put_a_front_on_the_wire<I>(
    w: &mut Write<I>,
    cx: &mut Context,
    buffer: &[u8],
    r: Poll<FrontendResult<usize>>,
)
    requires
        call_ensures(Write::<I>::poll_write, (w, cx, buffer), r),
        old(w)@ matches WriteView::CL(a) ==> a.chunk_offset <= a.chunk_length,
        old(w)@ matches WriteView::Chunked(a) ==> a.chunk_offset <= a.chunk_length,
        old(w)@ matches WriteView::Eof(a) ==> a.chunk_offset <= a.chunk_length,
    ensures
        ({
            let room: int = match old(w)@ {
                WriteView::Bodyless(_) => 0,
                WriteView::CL(a) => a.chunk_length - a.chunk_offset,
                WriteView::Chunked(a) => a.chunk_length - a.chunk_offset,
                WriteView::Eof(a) => a.chunk_length - a.chunk_offset,
            };
            let n: int = match r {
                Poll::Ready(Ok(n)) => n as int,
                _ => 0,
            };
            &&& n <= buffer@.len()
            &&& final(cx)@.wire == old(cx)@.wire + buffer@.take(n)
            &&& buffer@.len() > room ==> final(cx)@ == old(cx)@ && (r matches Poll::Ready(
                Err(FrontendError::BodyWriteError(BodyError::BodyOverflow(_))),
            ))
            &&& buffer@.len() <= room ==> (match old(cx)@.write {
                None => r is Pending,
                Some(Err(e)) => r matches Poll::Ready(
                    Err(FrontendError::BodyWriteError(BodyError::BodyWriteError(f))),
                ) && f == crate::transport::WriteFailure::Io(e),
                Some(Ok(k)) => r is Ready && r->Ready_0 is Ok && n == (if k <= buffer@.len() {
                    k as int
                } else {
                    buffer@.len() as int
                }),
            })
            &&& match (old(w)@, final(w)@) {
                (WriteView::Bodyless(io), WriteView::Bodyless(to)) => to == io,
                (WriteView::CL(a), WriteView::CL(b)) => {
                    &&& b.writer == a.writer && b.length == a.length && b.offset == a.offset
                    &&& b.chunk_length == a.chunk_length
                    &&& b.chunk_offset == a.chunk_offset + n
                },
                (WriteView::Chunked(a), WriteView::Chunked(b)) => {
                    &&& b.writer == a.writer && b.chunk_length == a.chunk_length
                    &&& b.chunk_offset == a.chunk_offset + n
                },
                (WriteView::Eof(a), WriteView::Eof(b)) => {
                    &&& b.writer == a.writer && b.chunk_length == a.chunk_length
                    &&& b.chunk_offset == a.chunk_offset + n
                },
                _ => false,
            }
        }),
{
    assert(buffer.len() == buffer@.len());
    let (length, offset): (u64, u64) = match old(w)@ {
        WriteView::Bodyless(_) => (0, 0),
        WriteView::CL(a) => (a.chunk_length, a.chunk_offset),
        WriteView::Chunked(a) => (a.chunk_length, a.chunk_offset),
        WriteView::Eof(a) => (a.chunk_length, a.chunk_offset),
    };
    crate::body::writer::bounded_write_keeps_bytes(old(cx)@, length, offset, buffer@);
    crate::body::writer::writes_that_fit_are_those_of_the_wire(
        old(cx)@,
        length,
        offset,
        buffer@,
    );
}

/// The end of a body is written and flushed as its kind is; the connection comes back exactly
/// where that is done, and never after a body that ends with it. What was not written, or not
/// flushed, is told. An abort is over exactly where it has been flushed.
pub proof fn ends_are_written_by_kind<I>(f: FinishView<I>, a: AbortView<I>, cx: Cx)
    ensures
        match (f, f.poll_finish(cx)) {
            (FinishView::Bodyless(b), (FinishView::Bodyless(c), cx2, p)) => (c, cx2, p)
                == b.poll_finish(cx),
            (FinishView::CL(b), (FinishView::CL(c), cx2, p)) => (c, cx2, p) == b.poll_finish(cx),
            (FinishView::Chunked(b), (FinishView::Chunked(c), cx2, p)) => (c, cx2, p)
                == b.poll_finish(cx),
            (FinishView::Eof(b), (FinishView::Eof(c), cx2, p)) => (c, cx2, p) == b.poll_finish(cx),
            _ => false,
        },
        match (f, f.into_writer()) {
            (FinishView::Bodyless(b), Ok(Some(io))) => b.flushed && io == b.writer,
            (FinishView::CL(b), Ok(Some(io))) => b.flushed && io == b.writer,
            (FinishView::Chunked(b), Ok(Some(io))) => b.written >= b.data.len() && b.flushed && io
                == b.writer,
            (FinishView::Eof(b), Ok(None)) => b.flushed,
            (FinishView::Chunked(b), Err(BodyError::IncompleteFinish { expected, actual })) => {
                b.written < b.data.len() && expected == b.data.len() as u64 && actual
                    == b.written as u64
            },
            (FinishView::Chunked(b), Err(BodyError::UnflushedFinish)) => b.written >= b.data.len()
                && !b.flushed,
            (FinishView::Bodyless(b), Err(BodyError::UnflushedFinish)) => !b.flushed,
            (FinishView::CL(b), Err(BodyError::UnflushedFinish)) => !b.flushed,
            (FinishView::Eof(b), Err(BodyError::UnflushedFinish)) => !b.flushed,
            _ => false,
        },
        match (a, a.poll_abort(cx)) {
            (AbortView::Bodyless(b), (AbortView::Bodyless(c), cx2, p)) => (c, cx2, p)
                == b.poll_abort(cx) && a.is_flushed() == b.flushed,
            (AbortView::CL(b), (AbortView::CL(c), cx2, p)) => (c, cx2, p) == b.poll_abort(cx)
                && a.is_flushed() == b.flushed,
            (AbortView::Chunked(b), (AbortView::Chunked(c), cx2, p)) => (c, cx2, p)
                == b.poll_abort(cx) && a.is_flushed() == b.flushed,
            (AbortView::Eof(b), (AbortView::Eof(c), cx2, p)) => (c, cx2, p) == b.poll_abort(cx)
                && a.is_flushed() == b.flushed,
            _ => false,
        },
{
}

} // verus!
