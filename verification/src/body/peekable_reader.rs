//! A reader that can look ahead into a body.
use bytes::{Bytes, BytesMut};
use vstd::prelude::*;
use vstd::slice::slice_subrange;

use crate::body::body_reader::{BodyReadMode, BodyReaderKind, KindView};
use crate::body::error::{BodyError, BodyResult};
use crate::body::reader::bodyless::BodylessBodyReader;
use crate::body::reader::chunked::{
    chunked_end_is_final, chunked_read_is_bounded, chunked_read_keeps_valid, payload,
    reads_any_body_back, refuses_any_aborted_body, ChunkedBodyReader, ChunkedView,
};
use crate::body::reader::content_length::ContentLengthBodyReader;
use crate::body::reader::eof::{EofBodyReader, EofView};
use crate::body::reader::{data_view, read_failed, smaller};
use crate::http_message::header::Field;
use crate::http_message::message::ParseSlots;
use crate::io_buffer::BytesReader;
use crate::octets::{octets, octets_mut};
use crate::transport::{Context, Cx, Poll};

verus! {

enum PeekableInner<I> {
    Framed(BodyReaderKind<I>),
    Eof(EofBodyReader<I>),
}

/// The model of the reader that a [`PeekableBodyReader`] reads from.
pub enum SourceView<I> {
    /// A body that says where it ends.
    Framed(KindView<I>),
    /// A body that ends with the connection.
    Eof(EofView<I>),
}

impl<I> SourceView<I> {
    /// A read of at most `max_len` bytes of the body; `None` at its end.
    pub open spec fn poll_read(self, cx: Cx, max_len: nat) -> (
        Self,
        Cx,
        Poll<BodyResult<Option<Seq<u8>>>>,
    ) {
        match self {
            SourceView::Framed(r) => {
                let (r, cx, p) = r.poll_read(cx, max_len);
                (SourceView::Framed(r), cx, p)
            },
            SourceView::Eof(r) => {
                let (r, cx, p) = r.poll_read(cx, max_len);
                (SourceView::Eof(r), cx, p)
            },
        }
    }

    /// Whether there is nothing more to read.
    pub open spec fn is_drained(self) -> bool {
        match self {
            SourceView::Framed(r) => r.is_drained(),
            SourceView::Eof(r) => r.eof,
        }
    }

    /// A read of at most `max_len` bytes reads back any chunked body that can come
    /// to the reader, and refuses one that was aborted.
    pub open spec fn reads_any_back(self, cx: Cx, max_len: nat) -> bool {
        self matches SourceView::Framed(KindView::TE(c)) ==> reads_any_body_back(c, cx, max_len)
            && refuses_any_aborted_body(c, cx, max_len)
    }

    /// A drain of any body that says where it ends, and can come to the reader, ends
    /// behind it.
    pub open spec fn drains_any<E>(self, cx: Cx, t: Self, cx2: Cx, r: Poll<Result<(), E>>) -> bool {
        self matches SourceView::Framed(k) ==> t matches SourceView::Framed(l) && k.drains_any(
            cx,
            l,
            cx2,
            r,
        )
    }

    /// How the end of the body is told.
    pub open spec fn mode(self) -> BodyReadMode {
        match self {
            SourceView::Framed(r) => r.mode(),
            SourceView::Eof(_) => BodyReadMode::Eof,
        }
    }
}

impl<I> View for PeekableInner<I> {
    type V = SourceView<I>;

    closed spec fn view(&self) -> SourceView<I> {
        match *self {
            PeekableInner::Framed(r) => SourceView::Framed(r@),
            PeekableInner::Eof(r) => SourceView::Eof(r@),
        }
    }
}

impl<I> PeekableInner<I> {
    fn poll_read(&mut self, cx: &mut Context, max_len: usize) -> (r: Poll<
        BodyResult<Option<Bytes>>,
    >)
        ensures
            (final(self)@, final(cx)@, data_view(r)) == old(self)@.poll_read(
                old(cx)@,
                max_len as nat,
            ),
            (r matches Poll::Ready(Ok(None))) ==> final(self)@.is_at_end(),
            old(self)@.reads_any_back(old(cx)@, max_len as nat),
            final(cx)@.read == old(cx)@.read || final(cx)@.read is None,
    {
        match self {
            PeekableInner::Framed(r) => r.poll_read(cx, max_len),
            PeekableInner::Eof(r) => r.poll_read(cx, max_len),
        }
    }

    fn drained(&self) -> (r: bool)
        ensures
            r == self@.is_drained(),
    {
        match self {
            PeekableInner::Framed(r) => r.drained(),
            PeekableInner::Eof(r) => r.drained(),
        }
    }
}

/// A reader that can look ahead into a body.
pub struct PeekableBodyReader<I> {
    /// a buffer in which we store data peeked off the socket, but not yet read
    peeked: BytesMut,
    inner: PeekableInner<I>,
}

/// The model of a [`PeekableBodyReader`].
pub struct PeekableView<I> {
    pub peeked: Seq<u8>,
    pub source: SourceView<I>,
}

/// The result of a look ahead: whether it reaches the end of the body, and the
/// bytes.
pub type Peek = (bool, Seq<u8>);

impl<I> PeekableView<I> {
    /// The bytes that a look ahead of `target_len` bytes gives, as far as they
    /// have been read.
    pub open spec fn ahead(self, target_len: nat) -> Seq<u8> {
        self.peeked.take(smaller(self.peeked.len(), target_len) as int)
    }

    /// How many bytes are missing from a look ahead of `target_len` bytes.
    pub open spec fn missing(self, target_len: nat) -> nat {
        if self.peeked.len() < target_len {
            (target_len - self.peeked.len()) as nat
        } else {
            0
        }
    }

    /// A look ahead of `target_len` bytes: reads, at most `fuel` of them, until
    /// there are as many, or the body is over: `None` where that takes more.
    /// Where no byte is missing, nothing is read.
    pub open spec fn poll_peek(self, cx: Cx, target_len: nat, fuel: nat) -> Option<
        (Self, Cx, Poll<BodyResult<Peek>>),
    >
        decreases fuel,
    {
        if self.missing(target_len) == 0 {
            Some((self, cx, Poll::Ready(Ok((self.source.is_drained(), self.ahead(target_len))))))
        } else if fuel == 0 {
            None
        } else {
            let (source, cx, p) = self.source.poll_read(cx, self.missing(target_len));
            let now = PeekableView { source, ..self };
            match p {
                Poll::Pending => Some((now, cx, Poll::Pending)),
                Poll::Ready(Err(e)) => Some((now, cx, Poll::Ready(Err(e)))),
                Poll::Ready(Ok(None)) => Some(
                    (now, cx, Poll::Ready(Ok((true, now.ahead(target_len))))),
                ),
                Poll::Ready(Ok(Some(data))) => {
                    let next = PeekableView { peeked: self.peeked + data, ..now };
                    if source.is_drained() {
                        Some((next, cx, Poll::Ready(Ok((true, next.ahead(target_len))))))
                    } else {
                        next.poll_peek(cx, target_len, (fuel - 1) as nat)
                    }
                },
            }
        }
    }

    /// A look ahead of `target_len` bytes gives `p` at once, whatever comes in
    /// until then, and changes nothing.
    pub open spec fn gives_again(self, target_len: nat, p: Poll<BodyResult<Peek>>) -> bool {
        forall|cx: Cx, fuel: nat|
            fuel > 0 || self.poll_peek(cx, target_len, fuel) is Some
                ==> #[trigger] self.poll_peek(cx, target_len, fuel) == Some((self, cx, p))
    }

    /// A read of at most `max_len` bytes: what was looked at comes first.
    pub open spec fn poll_read(self, cx: Cx, max_len: nat) -> (
        Self,
        Cx,
        Poll<BodyResult<Option<Seq<u8>>>>,
    ) {
        if self.peeked.len() > 0 {
            let at = smaller(self.peeked.len(), max_len) as int;
            (
                PeekableView { peeked: self.peeked.skip(at), ..self },
                cx,
                Poll::Ready(Ok(Some(self.peeked.take(at)))),
            )
        } else {
            let (source, cx, p) = self.source.poll_read(cx, max_len);
            (PeekableView { source, ..self }, cx, p)
        }
    }

    /// Reads, at most `fuel` of them, until one gives no data: `None` where
    /// that takes more. What was looked at is dropped; a body that ends with
    /// the connection is not read at all.
    pub open spec fn poll_drain(self, cx: Cx, fuel: nat) -> Option<
        (Self, Cx, Poll<BodyResult<()>>),
    > {
        match self.source {
            SourceView::Eof(_) => Some(
                (PeekableView { peeked: Seq::empty(), ..self }, cx, Poll::Ready(Ok(()))),
            ),
            SourceView::Framed(r) => match r.poll_drain(cx, fuel) {
                None => None,
                Some((r, cx, p)) => Some(
                    (
                        PeekableView { peeked: Seq::empty(), source: SourceView::Framed(r) },
                        cx,
                        p,
                    ),
                ),
            },
        }
    }

    /// What was looked at, what is unread, and what is still to come is the rest of
    /// a chunked body, with the data `body`, the trailer fields, and `rest` behind
    /// them.
    pub open spec fn holds(
        self,
        cx: Cx,
        coming: Seq<u8>,
        body: Seq<u8>,
        trailers: Seq<Field>,
        rest: Seq<u8>,
    ) -> bool {
        ||| self.is_whole(cx, coming, body, trailers, rest)
        ||| self.source matches SourceView::Framed(KindView::TE(c)) && exists|
            chunks: Seq<Seq<u8>>,
        |
            #[trigger] c.holds(cx, coming, chunks, trailers, rest) && body == self.peeked + payload(
                chunks,
            )
    }

    /// What was looked at, what is unread, and what is still to come is the rest of
    /// a chunked body that was aborted behind the data `body`.
    pub open spec fn holds_aborted(
        self,
        cx: Cx,
        coming: Seq<u8>,
        body: Seq<u8>,
        rest: Seq<u8>,
    ) -> bool {
        self.source matches SourceView::Framed(KindView::TE(c)) && exists|chunks: Seq<Seq<u8>>|
            #[trigger] c.holds_aborted(cx, coming, chunks, rest) && body == self.peeked + payload(
                chunks,
            )
    }

    /// All of a chunked body has been looked at: its data is `body`, and `rest` is
    /// unread behind it, or still to come.
    pub open spec fn is_whole(
        self,
        cx: Cx,
        coming: Seq<u8>,
        body: Seq<u8>,
        trailers: Seq<Field>,
        rest: Seq<u8>,
    ) -> bool {
        self.source matches SourceView::Framed(KindView::TE(c)) && c.is_done(
            cx,
            coming,
            trailers,
            rest,
        ) && body == self.peeked
    }

    /// Whether there is nothing more to read: neither from the connection nor of
    /// what was looked at.
    pub open spec fn is_drained(self) -> bool {
        self.source.is_drained() && self.peeked.len() == 0
    }

    /// Whether the connection can be given back.
    pub open spec fn is_finished(self) -> bool {
        self.source matches SourceView::Framed(r) ==> r.is_finished()
    }
}

/// What a look ahead of `target_len` bytes gives of any chunked body that can come
/// to the reader: as much of the front of its data as was asked for and as there
/// is, of which nothing is consumed; and that this is all of the data only where it
/// is. The look ahead is pending only while bytes are still to come, and it fails
/// only where the transport does before they have come. What is there of a body that
/// was aborted is never taken for all of it.
pub open spec fn peeks_any_body<I, E>(
    s: PeekableView<I>,
    cx: Cx,
    t: PeekableView<I>,
    cx2: Cx,
    r: Poll<Result<Peek, E>>,
    target_len: nat,
) -> bool {
    &&& forall|coming: Seq<u8>, body: Seq<u8>, trailers: Seq<Field>, rest: Seq<u8>|
        #[trigger] s.holds(cx, coming, body, trailers, rest) ==> match r {
            Poll::Ready(Ok((complete, ahead))) => {
                &&& ahead == body.take(smaller(body.len(), target_len) as int)
                &&& t.holds(cx2, coming, body, trailers, rest)
                &&& complete ==> t.is_whole(cx2, coming, body, trailers, rest)
            },
            Poll::Pending => coming.len() > 0 && t.holds(cx2, coming, body, trailers, rest),
            Poll::Ready(Err(_)) => coming.len() > 0 && read_failed(cx),
        }
    &&& forall|coming: Seq<u8>, body: Seq<u8>, rest: Seq<u8>|
        #[trigger] s.holds_aborted(cx, coming, body, rest) ==> match r {
            Poll::Ready(Ok((complete, ahead))) => {
                &&& !complete
                &&& target_len <= body.len()
                &&& ahead == body.take(target_len as int)
                &&& t.holds_aborted(cx2, coming, body, rest)
            },
            Poll::Pending => coming.len() > 0 && t.holds_aborted(cx2, coming, body, rest),
            Poll::Ready(Err(_)) => true,
        }
}

/// What a read of at most `max_len` bytes gives of any chunked body that can come to
/// the reader, some of which may have been looked at: the next data; or, where there
/// is none, the end of the body.
pub open spec fn peekable_reads_back<I, E>(
    s: PeekableView<I>,
    cx: Cx,
    t: PeekableView<I>,
    cx2: Cx,
    r: Poll<Result<Option<Seq<u8>>, E>>,
    max_len: nat,
) -> bool {
    forall|coming: Seq<u8>, body: Seq<u8>, trailers: Seq<Field>, rest: Seq<u8>|
        #[trigger] s.holds(cx, coming, body, trailers, rest) ==> match r {
            Poll::Ready(Ok(None)) => body.len() == 0 && t.is_whole(
                cx2,
                coming,
                body,
                trailers,
                rest,
            ),
            Poll::Ready(Ok(Some(data))) => {
                &&& data.len() <= max_len
                &&& data.len() <= body.len()
                &&& max_len > 0 ==> data.len() > 0
                &&& data == body.take(data.len() as int)
                &&& t.holds(cx2, coming, body.skip(data.len() as int), trailers, rest)
            },
            Poll::Pending => coming.len() > 0 && t.holds(cx2, coming, body, trailers, rest),
            Poll::Ready(Err(_)) => coming.len() > 0 && read_failed(cx),
        }
}

/// The view of the result of a look ahead.
pub open spec fn peek_view(r: Poll<BodyResult<(bool, &[u8])>>) -> Poll<BodyResult<Peek>> {
    match r {
        Poll::Pending => Poll::Pending,
        Poll::Ready(Err(e)) => Poll::Ready(Err(e)),
        Poll::Ready(Ok((complete, s))) => Poll::Ready(Ok((complete, s@))),
    }
}

impl<I> View for PeekableBodyReader<I> {
    type V = PeekableView<I>;

    closed spec fn view(&self) -> PeekableView<I> {
        PeekableView { peeked: octets_mut(self.peeked), source: self.inner@ }
    }
}

/// Every read that gives data gives some, where any is asked for, and no more
/// than asked for.
proof fn lemma_read_is_bounded<I>(s: SourceView<I>, cx: Cx, max_len: nat)
    ensures
        s.poll_read(cx, max_len).2 matches Poll::Ready(Ok(Some(data))) ==> data.len() <= max_len && (
        max_len > 0 ==> data.len() > 0),
{
    match s {
        SourceView::Framed(KindView::TE(r)) => {
            chunked_read_is_bounded(r, cx, max_len);
        },
        _ => {},
    }
}

proof fn lemma_end_is_told_again<I>(s: PeekableView<I>, target_len: nat)
    requires
        s.source.is_at_end(),
    ensures
        s.gives_again(target_len, Poll::Ready(Ok((true, s.ahead(target_len))))),
{
    assert forall|cx: Cx, fuel: nat|
        fuel > 0 || s.poll_peek(cx, target_len, fuel) is Some implies #[trigger] s.poll_peek(
        cx,
        target_len,
        fuel,
    ) == Some((s, cx, Poll::Ready(Ok::<Peek, BodyError>((true, s.ahead(target_len)))))) by {
        if let SourceView::Framed(KindView::TE(r)) = s.source {
            chunked_end_is_final(r, cx, s.missing(target_len));
        }
    }
}

proof fn lemma_reads_peeked<I>(s: PeekableView<I>, cx: Cx, max_len: nat)
    requires
        s.peeked.len() > 0,
    ensures
        ({
            let (t, cx2, p) = s.poll_read(cx, max_len);
            peekable_reads_back(s, cx, t, cx2, p, max_len)
        }),
{
    let (t, cx2, p) = s.poll_read(cx, max_len);
    let n = smaller(s.peeked.len(), max_len) as int;
    assert forall|coming: Seq<u8>, body: Seq<u8>, trailers: Seq<Field>, rest: Seq<u8>| #[trigger]
        s.holds(cx, coming, body, trailers, rest) implies {
        &&& n <= body.len()
        &&& s.peeked.take(n) == body.take(n)
        &&& t.holds(cx2, coming, body.skip(n), trailers, rest)
    } by {
        if let SourceView::Framed(KindView::TE(c)) = s.source {
            if !s.is_whole(cx, coming, body, trailers, rest) {
                let chunks = choose|chunks: Seq<Seq<u8>>|
                    #[trigger] c.holds(cx, coming, chunks, trailers, rest) && body == s.peeked
                        + payload(chunks);
                assert(s.peeked.take(n) =~= body.take(n));
                assert(body.skip(n) =~= t.peeked + payload(chunks));
            }
        }
    }
}

/// Where nothing was looked at, a read reads back what the source gives.
proof fn lemma_reads_on<I>(s: PeekableView<I>, cx: Cx, max_len: nat)
    requires
        s.peeked.len() == 0,
        s.source.reads_any_back(cx, max_len),
    ensures
        ({
            let (t, cx2, p) = s.poll_read(cx, max_len);
            peekable_reads_back(s, cx, t, cx2, p, max_len)
        }),
{
    let (t, cx2, p) = s.poll_read(cx, max_len);
    assert forall|coming: Seq<u8>, body: Seq<u8>, trailers: Seq<Field>, rest: Seq<u8>| #[trigger]
        s.holds(cx, coming, body, trailers, rest) implies match p {
        Poll::Ready(Ok(None)) => body.len() == 0 && t.is_whole(cx2, coming, body, trailers, rest),
        Poll::Ready(Ok(Some(data))) => {
            &&& data.len() <= max_len
            &&& data.len() <= body.len()
            &&& max_len > 0 ==> data.len() > 0
            &&& data == body.take(data.len() as int)
            &&& t.holds(cx2, coming, body.skip(data.len() as int), trailers, rest)
        },
        Poll::Pending => coming.len() > 0 && t.holds(cx2, coming, body, trailers, rest),
        Poll::Ready(Err(_)) => coming.len() > 0 && read_failed(cx),
    } by {
        if let SourceView::Framed(KindView::TE(c)) = s.source {
            if !s.is_whole(cx, coming, body, trailers, rest) {
                let chunks = choose|chunks: Seq<Seq<u8>>|
                    #[trigger] c.holds(cx, coming, chunks, trailers, rest) && body == s.peeked
                        + payload(chunks);
                assert(body =~= payload(chunks));
                let d = c.poll_read(cx, max_len).0;
                match p {
                    Poll::Ready(Ok(Some(data))) => {
                        let left = choose|left: Seq<Seq<u8>>|
                            #[trigger] d.holds(cx2, coming, left, trailers, rest) && payload(chunks)
                                == data + payload(left);
                        assert(data =~= body.take(data.len() as int));
                        assert(body.skip(data.len() as int) =~= t.peeked + payload(left));
                    },
                    Poll::Pending => {
                        let left = choose|left: Seq<Seq<u8>>|
                            #[trigger] d.holds(cx2, coming, left, trailers, rest) && payload(chunks)
                                == payload(left);
                        assert(body =~= t.peeked + payload(left));
                    },
                    Poll::Ready(Ok(None)) => {
                        assert(body =~= t.peeked);
                    },
                    _ => {},
                }
            }
        }
    }
}

/// A read of the source puts the next data behind what was looked at.
proof fn lemma_looks_on<I>(s: PeekableView<I>, cx: Cx, max_len: nat)
    requires
        s.source.reads_any_back(cx, max_len),
    ensures
        ({
            let (source, cx2, p) = s.source.poll_read(cx, max_len);
            let now = PeekableView { source, ..s };
            forall|coming: Seq<u8>, body: Seq<u8>, trailers: Seq<Field>, rest: Seq<u8>|
                #[trigger] s.holds(cx, coming, body, trailers, rest) ==> match p {
                    Poll::Ready(Ok(None)) => now.holds(cx2, coming, body, trailers, rest),
                    Poll::Ready(Ok(Some(data))) => PeekableView {
                        peeked: s.peeked + data,
                        ..now
                    }.holds(cx2, coming, body, trailers, rest),
                    Poll::Pending => coming.len() > 0 && now.holds(
                        cx2,
                        coming,
                        body,
                        trailers,
                        rest,
                    ),
                    Poll::Ready(Err(_)) => coming.len() > 0 && read_failed(cx),
                }
        }),
{
    let (source, cx2, p) = s.source.poll_read(cx, max_len);
    let now = PeekableView { source, ..s };
    assert forall|coming: Seq<u8>, body: Seq<u8>, trailers: Seq<Field>, rest: Seq<u8>| #[trigger]
        s.holds(cx, coming, body, trailers, rest) implies match p {
        Poll::Ready(Ok(None)) => now.holds(cx2, coming, body, trailers, rest),
        Poll::Ready(Ok(Some(data))) => PeekableView { peeked: s.peeked + data, ..now }.holds(
            cx2,
            coming,
            body,
            trailers,
            rest,
        ),
        Poll::Pending => coming.len() > 0 && now.holds(cx2, coming, body, trailers, rest),
        Poll::Ready(Err(_)) => coming.len() > 0 && read_failed(cx),
    } by {
        if let SourceView::Framed(KindView::TE(c)) = s.source {
            if !s.is_whole(cx, coming, body, trailers, rest) {
                let chunks = choose|chunks: Seq<Seq<u8>>|
                    #[trigger] c.holds(cx, coming, chunks, trailers, rest) && body == s.peeked
                        + payload(chunks);
                let d = c.poll_read(cx, max_len).0;
                match p {
                    Poll::Ready(Ok(Some(data))) => {
                        let left = choose|left: Seq<Seq<u8>>|
                            #[trigger] d.holds(cx2, coming, left, trailers, rest) && payload(chunks)
                                == data + payload(left);
                        assert(body =~= (s.peeked + data) + payload(left));
                    },
                    Poll::Pending => {
                        let left = choose|left: Seq<Seq<u8>>|
                            #[trigger] d.holds(cx2, coming, left, trailers, rest) && payload(chunks)
                                == payload(left);
                        assert(body =~= now.peeked + payload(left));
                    },
                    Poll::Ready(Ok(None)) => {
                        assert(body =~= now.peeked);
                        assert(now.is_whole(cx2, coming, body, trailers, rest));
                    },
                    _ => {},
                }
            }
        }
    }
}

proof fn lemma_looks_on_aborted<I>(s: PeekableView<I>, cx: Cx, max_len: nat)
    requires
        s.source.reads_any_back(cx, max_len),
    ensures
        ({
            let (source, cx2, p) = s.source.poll_read(cx, max_len);
            let now = PeekableView { source, ..s };
            forall|coming: Seq<u8>, body: Seq<u8>, rest: Seq<u8>|
                #[trigger] s.holds_aborted(cx, coming, body, rest) ==> match p {
                    Poll::Ready(Ok(None)) => false,
                    Poll::Ready(Ok(Some(data))) => PeekableView {
                        peeked: s.peeked + data,
                        ..now
                    }.holds_aborted(cx2, coming, body, rest),
                    Poll::Pending => coming.len() > 0 && now.holds_aborted(cx2, coming, body, rest),
                    Poll::Ready(Err(_)) => true,
                }
        }),
{
    let (source, cx2, p) = s.source.poll_read(cx, max_len);
    let now = PeekableView { source, ..s };
    assert forall|coming: Seq<u8>, body: Seq<u8>, rest: Seq<u8>| #[trigger]
        s.holds_aborted(cx, coming, body, rest) implies match p {
        Poll::Ready(Ok(None)) => false,
        Poll::Ready(Ok(Some(data))) => PeekableView {
            peeked: s.peeked + data,
            ..now
        }.holds_aborted(cx2, coming, body, rest),
        Poll::Pending => coming.len() > 0 && now.holds_aborted(cx2, coming, body, rest),
        Poll::Ready(Err(_)) => true,
    } by {
        if let SourceView::Framed(KindView::TE(c)) = s.source {
            let chunks = choose|chunks: Seq<Seq<u8>>|
                #[trigger] c.holds_aborted(cx, coming, chunks, rest) && body == s.peeked + payload(
                    chunks,
                );
            let d = c.poll_read(cx, max_len).0;
            match p {
                Poll::Ready(Ok(Some(data))) => {
                    let left = choose|left: Seq<Seq<u8>>|
                        #[trigger] d.holds_aborted(cx2, coming, left, rest) && payload(chunks)
                            == data + payload(left);
                    assert(body =~= (s.peeked + data) + payload(left));
                },
                Poll::Pending => {
                    let left = choose|left: Seq<Seq<u8>>|
                        #[trigger] d.holds_aborted(cx2, coming, left, rest) && payload(chunks)
                            == payload(left);
                    assert(body =~= now.peeked + payload(left));
                },
                _ => {},
            }
        }
    }
}

proof fn lemma_front_is_seen_aborted<I>(s: PeekableView<I>, cx: Cx, target_len: nat)
    requires
        s.missing(target_len) == 0 || s.source.is_drained(),
    ensures
        forall|coming: Seq<u8>, body: Seq<u8>, rest: Seq<u8>|
            #[trigger] s.holds_aborted(cx, coming, body, rest) ==> {
                &&& !s.source.is_drained()
                &&& target_len <= body.len()
                &&& s.ahead(target_len) == body.take(target_len as int)
            },
{
    assert forall|coming: Seq<u8>, body: Seq<u8>, rest: Seq<u8>| #[trigger]
        s.holds_aborted(cx, coming, body, rest) implies {
        &&& !s.source.is_drained()
        &&& target_len <= body.len()
        &&& s.ahead(target_len) == body.take(target_len as int)
    } by {
        assert(s.ahead(target_len) =~= body.take(target_len as int));
    }
}

/// Where enough was looked at, or all there is, it is the front of the body.
proof fn lemma_front_is_seen<I>(s: PeekableView<I>, cx: Cx, target_len: nat)
    requires
        s.missing(target_len) == 0 || s.source.is_drained(),
    ensures
        forall|coming: Seq<u8>, body: Seq<u8>, trailers: Seq<Field>, rest: Seq<u8>|
            #[trigger] s.holds(cx, coming, body, trailers, rest) ==> {
                &&& s.ahead(target_len) == body.take(smaller(body.len(), target_len) as int)
                &&& s.source.is_drained() ==> s.is_whole(cx, coming, body, trailers, rest)
            },
{
    assert forall|coming: Seq<u8>, body: Seq<u8>, trailers: Seq<Field>, rest: Seq<u8>| #[trigger]
        s.holds(cx, coming, body, trailers, rest) implies {
        &&& s.ahead(target_len) == body.take(smaller(body.len(), target_len) as int)
        &&& s.source.is_drained() ==> s.is_whole(cx, coming, body, trailers, rest)
    } by {
        assert(s.ahead(target_len) =~= body.take(smaller(body.len(), target_len) as int));
    }
}

impl<I> PeekableBodyReader<I> {
    /// A reader that looks ahead into a body that is not there.
    pub fn from_bodyless(r: BodylessBodyReader<I>) -> (p: Self)
        ensures
            p@ == (PeekableView {
                peeked: Seq::empty(),
                source: SourceView::Framed(KindView::Bodyless(r@)),
            }),
    {
        Self {
            peeked: BytesMut::with_capacity(0),
            inner: PeekableInner::Framed(BodyReaderKind::Bodyless(r)),
        }
    }

    /// A reader that looks ahead into a body of known length.
    pub fn from_content_length(r: ContentLengthBodyReader<I>) -> (p: Self)
        ensures
            p@ == (PeekableView {
                peeked: Seq::empty(),
                source: SourceView::Framed(KindView::CL(r@)),
            }),
    {
        Self {
            peeked: BytesMut::with_capacity(0),
            inner: PeekableInner::Framed(BodyReaderKind::CL(r)),
        }
    }

    /// A reader that looks ahead into a chunked body.
    pub fn from_chunked(r: ChunkedBodyReader<I>) -> (p: Self)
        ensures
            p@ == (PeekableView {
                peeked: Seq::empty(),
                source: SourceView::Framed(KindView::TE(r@)),
            }),
    {
        Self {
            peeked: BytesMut::with_capacity(0),
            inner: PeekableInner::Framed(BodyReaderKind::TE(r)),
        }
    }

    /// A reader that looks ahead into a body that ends with the connection.
    pub fn from_eof(r: EofBodyReader<I>) -> (p: Self)
        ensures
            p@ == (PeekableView { peeked: Seq::empty(), source: SourceView::Eof(r@) }),
    {
        Self { peeked: BytesMut::with_capacity(0), inner: PeekableInner::Eof(r) }
    }

    /// How the end of the body is told.
    pub fn mode(&self) -> (m: BodyReadMode)
        ensures
            m == self@.source.mode(),
    {
        match &self.inner {
            PeekableInner::Framed(r) => r.mode(),
            PeekableInner::Eof(_) => BodyReadMode::Eof,
        }
    }

    /// Peek data from the body, and allow it to be observed, but do not remove
    /// it from the read buffer. Always returns data starting from the first
    /// byte not yet read. That is, repeated calls to this method with the same
    /// length will always yield the same result unless read calls are
    /// interspersed with peek calls.
    pub fn poll_peek(&mut self, cx: &mut Context, target_len: usize) -> (r: Poll<
        BodyResult<(bool, &[u8])>,
    >)
        ensures
            exists|n: nat| #[trigger]
                old(self)@.poll_peek(old(cx)@, target_len as nat, n) == Some(
                    (final(self)@, final(cx)@, peek_view(r)),
                ),
            (r matches Poll::Ready(Ok(_))) ==> final(self)@.gives_again(
                target_len as nat,
                peek_view(r),
            ),
            peeks_any_body(
                old(self)@,
                old(cx)@,
                final(self)@,
                final(cx)@,
                peek_view(r),
                target_len as nat,
            ),
    {
        let ghost mut k: nat = 0;
        loop
            invariant
                cx@.read == old(cx)@.read || cx@.read is None,
                forall|coming: Seq<u8>, body: Seq<u8>, trailers: Seq<Field>, rest: Seq<u8>|
                    #[trigger] old(self)@.holds(old(cx)@, coming, body, trailers, rest)
                        ==> self@.holds(cx@, coming, body, trailers, rest),
                forall|coming: Seq<u8>, body: Seq<u8>, rest: Seq<u8>|
                    #[trigger] old(self)@.holds_aborted(old(cx)@, coming, body, rest)
                        ==> self@.holds_aborted(cx@, coming, body, rest),
                forall|n: nat| #[trigger]
                    self@.poll_peek(cx@, target_len as nat, n) == old(self)@.poll_peek(
                        old(cx)@,
                        target_len as nat,
                        n + k,
                    ),
            decreases self@.missing(target_len as nat),
        {
            let ghost before = self@;
            let ghost cx0 = cx@;
            let have: usize = self.peeked.len();
            proof {
                assert(before.poll_peek(cx0, target_len as nat, 0) == old(self)@.poll_peek(
                    old(cx)@,
                    target_len as nat,
                    0 + k,
                ));
                assert(before.poll_peek(cx0, target_len as nat, 1) == old(self)@.poll_peek(
                    old(cx)@,
                    target_len as nat,
                    1 + k,
                ));
                reveal_with_fuel(PeekableView::poll_peek, 2);
            }
            if have >= target_len {
                let complete = self.inner.drained();
                let s = slice_subrange(&*self.peeked, 0, target_len);
                assert(s@ =~= self@.ahead(target_len as nat));
                proof {
                    lemma_front_is_seen(self@, cx@, target_len as nat);
                    lemma_front_is_seen_aborted(self@, cx@, target_len as nat);
                }
                return Poll::Ready(Ok((complete, s)));
            }
            let missing: usize = target_len - have;
            proof {
                lemma_read_is_bounded(before.source, cx0, missing as nat);
            }
            let read = self.inner.poll_read(cx, missing);
            proof {
                lemma_looks_on(before, cx0, missing as nat);
                lemma_looks_on_aborted(before, cx0, missing as nat);
            }
            let complete = match read {
                Poll::Pending => return Poll::Pending,
                Poll::Ready(Err(e)) => return Poll::Ready(Err(e)),
                Poll::Ready(Ok(None)) => true,
                Poll::Ready(Ok(Some(bytes))) => {
                    self.peeked.extend_from_slice(&bytes);
                    self.inner.drained()
                },
            };
            if complete {
                let s = slice_subrange(&*self.peeked, 0, self.peeked.len());
                assert(s@ =~= self@.ahead(target_len as nat));
                proof {
                    lemma_end_is_told_again(self@, target_len as nat);
                    lemma_front_is_seen(self@, cx@, target_len as nat);
                    lemma_front_is_seen_aborted(self@, cx@, target_len as nat);
                }
                return Poll::Ready(Ok((true, s)));
            }
            proof {
                assert forall|n: nat| #[trigger]
                    self@.poll_peek(cx@, target_len as nat, n) == old(self)@.poll_peek(
                    old(cx)@,
                    target_len as nat,
                    n + (k + 1),
                ) by {
                    assert(before.poll_peek(cx0, target_len as nat, n + 1) == old(self)@.poll_peek(
                        old(cx)@,
                        target_len as nat,
                        n + 1 + k,
                    ));
                }
                k = k + 1;
            }
        }
    }

    /// Read at most `max_len` bytes of the body; `None` at its end.
    pub fn poll_read(&mut self, cx: &mut Context, max_len: usize) -> (r: Poll<
        BodyResult<Option<Bytes>>,
    >)
        ensures
            (final(self)@, final(cx)@, data_view(r)) == old(self)@.poll_read(
                old(cx)@,
                max_len as nat,
            ),
            peekable_reads_back(
                old(self)@,
                old(cx)@,
                final(self)@,
                final(cx)@,
                data_view(r),
                max_len as nat,
            ),
            old(self)@.peeked.len() == 0 ==> old(self)@.source.reads_any_back(
                old(cx)@,
                max_len as nat,
            ),
    {
        let len: usize = self.peeked.len();
        if len > 0 {
            // If there's already data in the peek buffer, return that first.
            let at: usize = if len <= max_len {
                len
            } else {
                max_len
            };
            let data = self.peeked.split_to(at).freeze();
            proof {
                lemma_reads_peeked(old(self)@, cx@, max_len as nat);
            }
            return Poll::Ready(Ok(Some(data)));
        }
        let r = self.inner.poll_read(cx, max_len);
        proof {
            lemma_reads_on(old(self)@, old(cx)@, max_len as nat);
        }
        r
    }

    /// Whether there is nothing more to read.
    pub fn drained(&self) -> (r: bool)
        ensures
            r == self@.is_drained(),
    {
        self.inner.drained() && self.peeked.len() == 0
    }

    /// Read the body to its end, and drop it. Peeked bytes have already been
    /// consumed from the underlying IO.
    pub fn poll_drain(&mut self, cx: &mut Context) -> (r: Poll<BodyResult<()>>)
        ensures
            exists|n: nat| #[trigger]
                old(self)@.poll_drain(old(cx)@, n) == Some((final(self)@, final(cx)@, r)),
            (r matches Poll::Ready(Ok(()))) ==> final(self)@.is_finished(),
            old(self)@.source.drains_any(old(cx)@, final(self)@.source, final(cx)@, r),
    {
        let _peeked = self.peeked.split();
        match &mut self.inner {
            PeekableInner::Eof(_) => {
                assert(old(self)@.poll_drain(old(cx)@, 0) is Some);
                Poll::Ready(Ok(()))
            },
            PeekableInner::Framed(r) => {
                let ghost before = r@;
                let p = r.poll_drain(cx);
                proof {
                    let n = choose|n: nat| #[trigger]
                        before.poll_drain(old(cx)@, n) == Some((r@, cx@, p));
                    assert(old(self)@.poll_drain(old(cx)@, n) is Some);
                }
                p
            },
        }
    }

    /// Give back the connection, where it can be used again, along with the
    /// [`ParseSlots`] so the caller can reuse the allocation.
    pub fn finish(self) -> (r: (Option<BytesReader<I>>, ParseSlots))
        requires
            self@.is_finished(),
        ensures
            match self@.source {
                SourceView::Framed(k) => r.0 is Some && r.0->Some_0@ == k.after() && r.1@
                    == k.slots_after(),
                SourceView::Eof(e) => r.0 is None && r.1@ == e.slots,
            },
    {
        let Self { peeked: _, inner } = self;
        match inner {
            PeekableInner::Framed(r) => {
                let (reader, parse_slots) = r.finish();
                (Some(reader), parse_slots)
            },
            PeekableInner::Eof(r) => (None, r.drain()),
        }
    }
}

impl<I> SourceView<I> {
    /// What holds of a reader from its creation on.
    pub open spec fn is_valid(self) -> bool {
        self matches SourceView::Framed(KindView::TE(r)) ==> r.is_valid()
    }

    /// The end of the body has been seen, without a failure.
    pub open spec fn is_at_end(self) -> bool {
        self.is_drained() && !(self matches SourceView::Framed(KindView::TE(ChunkedView(None))))
    }
}

proof fn lemma_source_read<I>(s: SourceView<I>, cx: Cx, max_len: nat)
    requires
        s.is_valid(),
    ensures
        ({
            let (t, cx2, p) = s.poll_read(cx, max_len);
            &&& t.is_valid()
            &&& (p matches Poll::Ready(Ok(None))) ==> t.is_at_end()
            &&& (p matches Poll::Ready(Ok(Some(_)))) && t.is_drained() ==> t.is_at_end()
            &&& s.is_at_end() ==> t == s && cx2 == cx && (p matches Poll::Ready(Ok(None)))
        }),
{
    if let SourceView::Framed(KindView::TE(r)) = s {
        chunked_read_keeps_valid(r, cx, max_len);
        chunked_end_is_final(r, cx, max_len);
    }
}

proof fn lemma_peek<I>(s: PeekableView<I>, cx: Cx, target_len: nat, fuel: nat)
    requires
        s.source.is_valid(),
        s.poll_peek(cx, target_len, fuel) is Some,
    ensures
        ({
            let (t, cx2, p) = s.poll_peek(cx, target_len, fuel)->Some_0;
            &&& t.source.is_valid()
            &&& s.peeked.len() <= t.peeked.len()
            &&& t.peeked.take(s.peeked.len() as int) == s.peeked
            &&& p matches Poll::Ready(Ok((complete, ahead))) ==> {
                &&& ahead == t.ahead(target_len)
                &&& complete == t.source.is_drained()
                &&& t.missing(target_len) == 0 || t.source.is_at_end()
            }
        }),
    decreases fuel,
{
    assert(s.peeked.take(s.peeked.len() as int) =~= s.peeked);
    if s.missing(target_len) > 0 {
        let (source, cx1, p) = s.source.poll_read(cx, s.missing(target_len));
        lemma_source_read(s.source, cx, s.missing(target_len));
        if let Poll::Ready(Ok(Some(data))) = p {
            let next = PeekableView { peeked: s.peeked + data, source };
            assert(next.peeked.take(s.peeked.len() as int) =~= s.peeked);
            if !source.is_drained() {
                lemma_peek(next, cx1, target_len, (fuel - 1) as nat);
                let t = next.poll_peek(cx1, target_len, (fuel - 1) as nat)->Some_0.0;
                assert(t.peeked.take(s.peeked.len() as int) =~= t.peeked.take(
                    next.peeked.len() as int,
                ).take(s.peeked.len() as int));
            }
        }
    }
}

/// A look ahead does not consume: it only ever puts more behind what was looked
/// at and has not been read, and it gives the front of that.
pub proof fn peek_consumes_nothing<I>(s: PeekableView<I>, cx: Cx, target_len: nat, fuel: nat)
    requires
        s.source.is_valid(),
        s.poll_peek(cx, target_len, fuel) is Some,
    ensures
        ({
            let (t, _, p) = s.poll_peek(cx, target_len, fuel)->Some_0;
            &&& t.peeked.len() >= s.peeked.len()
            &&& t.peeked.take(s.peeked.len() as int) == s.peeked
            &&& p matches Poll::Ready(Ok((_, ahead))) ==> ahead == t.ahead(target_len)
        }),
{
    lemma_peek(s, cx, target_len, fuel);
}

/// Looking again, as far ahead, gives the same result at once, whatever has come
/// in the meantime; and it changes nothing.
pub proof fn peek_again_gives_the_same<I>(s: PeekableView<I>, cx: Cx, target_len: nat, fuel: nat)
    requires
        s.source.is_valid(),
        s.poll_peek(cx, target_len, fuel) is Some,
        s.poll_peek(cx, target_len, fuel)->Some_0.2 matches Poll::Ready(Ok(_)),
    ensures
        ({
            let (t, _, first) = s.poll_peek(cx, target_len, fuel)->Some_0;
            t.gives_again(target_len, first)
        }),
{
    lemma_peek(s, cx, target_len, fuel);
    let (t, _, first) = s.poll_peek(cx, target_len, fuel)->Some_0;
    if t.missing(target_len) > 0 {
        lemma_end_is_told_again(t, target_len);
    }
}

/// What was looked at is what the next read gives.
pub proof fn peeked_bytes_are_read_first<I>(s: PeekableView<I>, cx: Cx, max_len: nat)
    requires
        s.peeked.len() > 0,
    ensures
        ({
            let (t, cx2, p) = s.poll_read(cx, max_len);
            &&& cx2 == cx
            &&& t.source == s.source
            &&& p matches Poll::Ready(Ok(Some(data))) && s.peeked == data + t.peeked
                && data.len() <= max_len
        }),
{
    let (t, cx2, p) = s.poll_read(cx, max_len);
    if let Poll::Ready(Ok(Some(data))) = p {
        assert(s.peeked =~= data + t.peeked);
    }
}

/// A look ahead gives the front of what was looked at: as much as was asked for, and less only
/// where the body has no more. It says that this is all exactly where nothing is left to be
/// read behind it.
pub proof fn looks_ahead_go_as_far_as_asked<I>(
    s: PeekableView<I>,
    cx: Cx,
    target_len: nat,
    fuel: nat,
)
    requires
        s.source.is_valid(),
        s.poll_peek(cx, target_len, fuel) is Some,
    ensures
        ({
            let (t, _, p) = s.poll_peek(cx, target_len, fuel)->Some_0;
            p matches Poll::Ready(Ok((complete, ahead))) ==> {
                &&& ahead.len() <= target_len
                &&& ahead.len() <= t.peeked.len()
                &&& ahead == t.peeked.take(ahead.len() as int)
                &&& ahead.len() < target_len ==> ahead == t.peeked && t.source.is_at_end()
                &&& complete == t.source.is_drained()
            }
        }),
{
    lemma_peek(s, cx, target_len, fuel);
    let (t, _, p) = s.poll_peek(cx, target_len, fuel)->Some_0;
    if let Poll::Ready(Ok((complete, ahead))) = p {
        assert(ahead =~= t.peeked.take(ahead.len() as int));
        if ahead.len() < target_len {
            assert(ahead =~= t.peeked);
        }
    }
}

/// A read of what was looked at gives as much of it as was asked for and as there is; where
/// nothing was looked at, it is a read of the body.
pub proof fn reads_give_what_was_looked_at<I>(s: PeekableView<I>, cx: Cx, max_len: nat)
    ensures
        ({
            let (t, cx2, p) = s.poll_read(cx, max_len);
            if s.peeked.len() > 0 {
                &&& cx2 == cx && t.source == s.source
                &&& p matches Poll::Ready(Ok(Some(data))) && data + t.peeked == s.peeked
                    && data.len() <= max_len && (data.len() == max_len || t.peeked.len() == 0)
            } else {
                &&& t.peeked.len() == 0
                &&& (t.source, cx2, p) == s.source.poll_read(cx, max_len)
            }
        }),
{
    let (t, cx2, p) = s.poll_read(cx, max_len);
    if let Poll::Ready(Ok(Some(data))) = p {
        if s.peeked.len() > 0 {
            assert(data + t.peeked =~= s.peeked);
        }
    }
}

/// The body is read by its own kind, and stays of that kind.
pub proof fn sources_keep_their_kind<I>(s: SourceView<I>, cx: Cx, max_len: nat)
    ensures
        ({
            let (t, cx2, p) = s.poll_read(cx, max_len);
            match (s, t) {
                (SourceView::Framed(a), SourceView::Framed(b)) => (b, cx2, p) == a.poll_read(
                    cx,
                    max_len,
                ),
                (SourceView::Eof(a), SourceView::Eof(b)) => (b, cx2, p) == a.poll_read(
                    cx,
                    max_len,
                ),
                _ => false,
            }
        }),
        s matches SourceView::Eof(_) ==> s.mode() == BodyReadMode::Eof,
        s matches SourceView::Framed(k) ==> s.mode() == k.mode() && s.mode() != BodyReadMode::Eof,
{
}

/// A drain drops what was looked at, whatever the body is; a body that ends with the connection
/// is not read any further, and any other is drained as it would be without the look ahead.
pub proof fn drains_drop_what_was_looked_at<I>(
    b: &mut PeekableBodyReader<I>,
    cx: &mut Context,
    r: Poll<BodyResult<()>>,
)
    requires
        call_ensures(PeekableBodyReader::<I>::poll_drain, (b, cx), r),
    ensures
        final(b)@.peeked.len() == 0,
        match (old(b)@.source, final(b)@.source) {
            (SourceView::Eof(s), SourceView::Eof(t)) => t == s && final(cx)@ == old(cx)@ && r
                == Poll::Ready(Ok::<(), crate::body::error::BodyError>(())),
            (SourceView::Framed(s), SourceView::Framed(t)) => exists|n: nat| #[trigger]
                s.poll_drain(old(cx)@, n) == Some((t, final(cx)@, r)),
            _ => false,
        },
{
    let n = choose|n: nat| #[trigger]
        old(b)@.poll_drain(old(cx)@, n) == Some((final(b)@, final(cx)@, r));
    if let SourceView::Framed(s) = old(b)@.source {
        assert(s.poll_drain(old(cx)@, n) is Some);
    }
}

/// A reader that looks ahead is drained exactly where its source is and nothing that was looked
/// at is still to be read; its mode is that of its source.
pub proof fn readers_tell_their_mode_and_their_end<I>(
    b: &PeekableBodyReader<I>,
    mode: BodyReadMode,
    drained: bool,
)
    requires
        call_ensures(PeekableBodyReader::<I>::mode, (b,), mode),
        call_ensures(PeekableBodyReader::<I>::drained, (b,), drained),
    ensures
        b@.peeked.len() > 0 ==> !drained,
        b@.peeked.len() == 0 ==> drained == (match b@.source {
            SourceView::Framed(KindView::Bodyless(_)) => true,
            SourceView::Framed(KindView::CL(v)) => v.offset >= v.length,
            SourceView::Framed(KindView::TE(v)) => v.0 is None || v.0->Some_0 is Done,
            SourceView::Eof(v) => v.eof,
        }),
        mode == (match b@.source {
            SourceView::Framed(KindView::Bodyless(_)) => BodyReadMode::Bodyless,
            SourceView::Framed(KindView::CL(v)) => BodyReadMode::ContentLength(v.length),
            SourceView::Framed(KindView::TE(_)) => BodyReadMode::Chunk,
            SourceView::Eof(_) => BodyReadMode::Eof,
        }),
{
}

} // verus!
