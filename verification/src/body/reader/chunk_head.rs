//! Reader for what stands between the chunks of a body: chunk headers, and
//! the trailer section behind the last one (RFC 9112 sections 7.1.1, 7.1.2).
use bytes::Bytes;
use vstd::pervasive::unreached;
use vstd::prelude::*;

use crate::body::chunk_coding::{are_plain, plain_fields_make_a_section};
use crate::body::error::{BodyError, BodyResult, TrailerError};
use crate::body::parse_trailers::{
    complete_at_the_end_of_the_section, parse_trailers, verdict_is_final, Status, TrailerParser,
};
use crate::body::reader::chunk_data::{
    is_tail, ChunkBodyState, ChunkDataReader, ChunkDataView, ChunkExtensions,
};
use crate::body::reader::{
    ensure_step, extend_step, lemma_first_in_front, poll_ensure, poll_extend, read_failed, unread,
};
use crate::http_message::header::{Field, Headers};
use crate::http_message::message::{MessageError, ParseSlots};
use crate::http_message::raw::{
    field_lines, httparse_chunk_size, httparse_headers, is_chunk_ext, is_chunk_line,
    parse_chunk_size, HttpParseError, InvalidChunkSize, RawHeadersView,
};
use crate::io_buffer::{Buffered, BytesReader};
use crate::octets::octets;
use crate::text::{all_hex_digits, crlf, hex_value};
use crate::transport::{Context, Cx, Poll};

verus! {

/// An error of the header parser, as an error of the trailer section.
pub open spec fn trailer_error(e: HttpParseError) -> TrailerError {
    match e {
        HttpParseError::TooManyHeaders => TrailerError::TooManyFields,
        e => TrailerError::InvalidField(e),
    }
}

fn map_trailer_error(e: MessageError) -> (r: BodyError)
    requires
        e is Parse,
    ensures
        r == BodyError::TrailerError(trailer_error(e->Parse_0)),
{
    let trailer_error = match e {
        MessageError::Parse(HttpParseError::TooManyHeaders) => TrailerError::TooManyFields,
        MessageError::Parse(e) => TrailerError::InvalidField(e),
        // headers alone only produce errors of the parser
        _ => unreached(),
    };
    BodyError::TrailerError(trailer_error)
}

/// What the unread bytes say of a trailer section: the fields with the length
/// of the section, nothing where the section does not end yet, or an error. A
/// strict reader holds the section to the grammar of trailer fields first.
pub open spec fn trailer_verdict(buf: Seq<u8>, slots: nat, strict: bool) -> Result<
    Option<RawHeadersView>,
    TrailerError,
> {
    match TrailerParser::Start.scan(buf) {
        Err(e) if strict => Err(e),
        Ok(Status::Partial) if strict => Ok(None),
        _ => match httparse_headers(buf, slots) {
            Err(e) => Err(trailer_error(e)),
            Ok(parsed) => Ok(parsed),
        },
    }
}

/// What follows a chunk header: a chunk with data, or the end of the body.
pub enum NextChunk<I> {
    /// A chunk with data.
    Data(ChunkDataReader<I>),
    /// The end of the body.
    Final(FinalChunkReader<I>),
}

/// The model of a [`NextChunk`].
pub enum NextChunkView<I> {
    Data(ChunkDataView<I>),
    Final(FinalChunkView<I>),
}

impl<I> View for NextChunk<I> {
    type V = NextChunkView<I>;

    open spec fn view(&self) -> NextChunkView<I> {
        match *self {
            NextChunk::Data(d) => NextChunkView::Data(d@),
            NextChunk::Final(f) => NextChunkView::Final(f@),
        }
    }
}

/// The size of a chunk with data.
#[derive(Debug)]
struct DataSize {
    size: u64,
}

impl DataSize {
    #[verifier::type_invariant]
    spec fn inv(self) -> bool {
        self.size > 0
    }
}

#[derive(Debug)]
enum PollNextChunk {
    Data { size: DataSize, chunk_header: Bytes },
    Final { chunk_header: Bytes, trailers: Headers },
}

#[derive(Debug)]
enum ChunkHeadReaderState {
    ReadingSize,
    ReadingTrailers { chunk_header_bytes: Bytes },
    Ready(PollNextChunk),
}

/// Positioned between chunks.
#[derive(Debug)]
pub struct ChunkHeadReader<I> {
    reader: BytesReader<I>,
    parse_slots: ParseSlots,
    strict_trailers: bool,
    state: ChunkHeadReaderState,
}

/// How far a [`ChunkHeadReader`] has come.
pub enum ChunkHeadStateView {
    /// At the start of a chunk header.
    ReadingSize,
    /// Behind the header of the last chunk.
    ReadingTrailers { header: Seq<u8> },
    /// Behind the header of a chunk with data.
    Data { size: u64, header: Seq<u8> },
    /// Behind the trailer section.
    Final { header: Seq<u8>, trailers: Seq<Field> },
}

/// The model of a [`ChunkHeadReader`].
pub struct ChunkHeadView<I> {
    pub reader: Buffered<I>,
    pub slots: nat,
    pub strict: bool,
    pub state: ChunkHeadStateView,
}

/// A chunk header that states the size `n`: one that is written as a chunk header
/// can be; or any other bytes that are parsed as one, and as incomplete as long as
/// a part of them is missing at the end.
pub open spec fn is_header_line(line: Seq<u8>, n: u64) -> bool {
    is_chunk_line(line, n) || {
        &&& line.len() > 0
        &&& forall|more: Seq<u8>|
            httparse_chunk_size(#[trigger] (line + more)) == Ok::<_, InvalidChunkSize>(
                Some((line.len(), n)),
            )
        &&& forall|k: int|
            0 < k < line.len() ==> httparse_chunk_size(#[trigger] line.take(k)) == Ok::<
                Option<(nat, u64)>,
                InvalidChunkSize,
            >(None)
    }
}

/// A trailer section with these fields, for a reader with so many slots: plain
/// fields, each on a line of its own, and an empty line; or any other bytes that
/// are parsed as such a section, and as incomplete as long as a part of them is
/// missing at the end.
pub open spec fn is_section(
    section: Seq<u8>,
    trailers: Seq<Field>,
    slots: nat,
    strict: bool,
) -> bool {
    ({
        &&& section == field_lines(trailers) + crlf()
        &&& are_plain(trailers, strict)
        &&& trailers.len() <= slots
    }) || {
        &&& section.len() > 0
        &&& forall|more: Seq<u8>|
            trailer_verdict(#[trigger] (section + more), slots, strict) == Ok::<_, TrailerError>(
                Some(RawHeadersView { block_len: section.len(), headers: trailers }),
            )
        &&& forall|k: int|
            0 < k < section.len() ==> trailer_verdict(#[trigger] section.take(k), slots, strict)
                == Ok::<Option<RawHeadersView>, TrailerError>(None)
    }
}

/// What is unread, and what is still to come behind it, starts with a header of a
/// chunk of `n` bytes and goes on with `rest`.
pub open spec fn header_comes(
    front: Seq<u8>,
    coming: Seq<u8>,
    line: Seq<u8>,
    n: u64,
    rest: Seq<u8>,
) -> bool {
    is_header_line(line, n) && front + coming == line + rest
}

/// What is unread, and what is still to come behind it, starts with a trailer
/// section and goes on with `rest`.
pub open spec fn section_comes(
    front: Seq<u8>,
    coming: Seq<u8>,
    section: Seq<u8>,
    rest: Seq<u8>,
) -> bool {
    front + coming == section + rest
}

/// `buf` is a part of `first` from its start, or all of it with more behind.
spec fn starts_as(buf: Seq<u8>, first: Seq<u8>) -> bool {
    if buf.len() < first.len() {
        buf == first.take(buf.len() as int)
    } else {
        buf == first + buf.skip(first.len() as int)
    }
}

/// A strict reader finds no end in a part of a trailer section, and the right
/// one in the whole.
proof fn lemma_section_scanned_so_far(buf: Seq<u8>, trailers: Seq<Field>)
    requires
        are_plain(trailers, true),
        starts_as(buf, field_lines(trailers) + crlf()),
    ensures
        TrailerParser::Start.scan(buf) == Ok::<_, TrailerError>(
            if buf.len() < (field_lines(trailers) + crlf()).len() {
                Status::Partial
            } else {
                Status::Complete((field_lines(trailers) + crlf()).len())
            },
        ),
{
    let section = field_lines(trailers) + crlf();
    if buf.len() < section.len() {
        plain_fields_make_a_section(trailers, Seq::empty());
        assert(section + Seq::<u8>::empty() =~= section);
        if TrailerParser::Start.scan(buf) != Ok::<_, TrailerError>(Status::<nat>::Partial) {
            let more = section.skip(buf.len() as int);
            verdict_is_final(TrailerParser::Start, buf, more);
            assert(buf + more =~= section);
            complete_at_the_end_of_the_section(buf, section.len());
        }
    } else {
        plain_fields_make_a_section(trailers, buf.skip(section.len() as int));
    }
}

proof fn lemma_line_is_not_empty(line: Seq<u8>, n: u64)
    requires
        is_header_line(line, n),
    ensures
        line.len() > 0,
{
    if is_chunk_line(line, n) {
        let (digits, ext) = choose|digits: Seq<u8>, ext: Seq<u8>|
            line == #[trigger] (digits + ext + crlf()) && 1 <= digits.len() <= 16 && all_hex_digits(
                digits,
            ) && hex_value(digits) == n && is_chunk_ext(ext);
        assert(line.len() >= 2);
    }
}

/// What is unread, and what is still to come behind it, starts with the byte that
/// poisons a body, and goes on with `rest`.
pub open spec fn poison_comes(front: Seq<u8>, coming: Seq<u8>, rest: Seq<u8>) -> bool {
    front + coming == seq!['x' as u8] + rest
}

impl<I> ChunkHeadView<I> {
    /// The same reader in another state, with other unread bytes.
    pub open spec fn at(self, buf: Seq<u8>, state: ChunkHeadStateView) -> Self {
        ChunkHeadView { reader: Buffered { buf, ..self.reader }, state, ..self }
    }

    /// Whether the header has been read.
    pub open spec fn is_ready(self) -> bool {
        self.state is Data || self.state is Final
    }

    /// What follows the header, once it has been read.
    pub open spec fn finish(self) -> NextChunkView<I> {
        match self.state {
            ChunkHeadStateView::Final { header, trailers } => NextChunkView::Final(
                FinalChunkView { reader: self.reader, slots: self.slots, header, trailers },
            ),
            ChunkHeadStateView::Data { size, header } => NextChunkView::Data(
                ChunkDataView {
                    reader: self.reader,
                    slots: self.slots,
                    strict: self.strict,
                    size,
                    header,
                    remaining: size,
                    state: ChunkBodyState::InBody,
                },
            ),
            _ => arbitrary(),
        }
    }

    /// What is unread, and what is still to come behind it, is a chunk of `n`
    /// bytes with its header, and `rest` behind the header.
    pub open spec fn expects_chunk(
        self,
        cx: Cx,
        coming: Seq<u8>,
        line: Seq<u8>,
        n: u64,
        rest: Seq<u8>,
    ) -> bool {
        &&& self.state is ReadingSize
        &&& n > 0
        &&& header_comes(unread(self.reader, cx), coming, line, n, rest)
    }

    /// What is unread, and what is still to come behind it, is what is left of
    /// the end of a body, and `rest` behind it.
    pub open spec fn expects_end(
        self,
        cx: Cx,
        coming: Seq<u8>,
        line: Seq<u8>,
        section: Seq<u8>,
        trailers: Seq<Field>,
        rest: Seq<u8>,
    ) -> bool {
        &&& is_section(section, trailers, self.slots, self.strict)
        &&& match self.state {
            ChunkHeadStateView::ReadingSize => header_comes(
                unread(self.reader, cx),
                coming,
                line,
                0,
                section + rest,
            ),
            ChunkHeadStateView::ReadingTrailers { header } => header == line && section_comes(
                unread(self.reader, cx),
                coming,
                section,
                rest,
            ),
            _ => false,
        }
    }

    /// The trailer section: bytes are read until it ends.
    pub open spec fn poll_trailers(self, cx: Cx, header: Seq<u8>) -> (
        Self,
        Cx,
        Poll<BodyResult<()>>,
    )
        decreases (if cx.read is Some { 1nat } else { 0 }),
    {
        let (reader, cx1, p) = ensure_step(self.reader, cx);
        let now = ChunkHeadView {
            reader,
            state: ChunkHeadStateView::ReadingTrailers { header },
            ..self
        };
        match p {
            Poll::Pending => (now, cx1, Poll::Pending),
            Poll::Ready(Err(e)) => (now, cx1, Poll::Ready(Err(e))),
            Poll::Ready(Ok(())) => match trailer_verdict(reader.buf, self.slots, self.strict) {
                Err(e) => (now, cx1, Poll::Ready(Err(BodyError::TrailerError(e)))),
                Ok(Some(raw)) => (
                    ChunkHeadView {
                        reader: reader.skip(raw.block_len as int),
                        state: ChunkHeadStateView::Final { header, trailers: raw.headers },
                        ..self
                    },
                    cx1,
                    Poll::Ready(Ok(())),
                ),
                Ok(None) => {
                    let (reader2, cx2, p2) = extend_step(reader, cx1);
                    let more = ChunkHeadView { reader: reader2, ..now };
                    match p2 {
                        Poll::Pending => (more, cx2, Poll::Pending),
                        Poll::Ready(Err(e)) => (more, cx2, Poll::Ready(Err(e))),
                        Poll::Ready(Ok(())) => more.poll_trailers(cx2, header),
                    }
                },
            },
        }
    }

    /// The header: bytes are read until it ends. Behind the header of the
    /// last chunk follows the trailer section.
    pub open spec fn poll_size(self, cx: Cx) -> (Self, Cx, Poll<BodyResult<()>>)
        decreases (if cx.read is Some { 1nat } else { 0 }),
    {
        let (reader, cx1, p) = ensure_step(self.reader, cx);
        let now = ChunkHeadView { reader, state: ChunkHeadStateView::ReadingSize, ..self };
        match p {
            Poll::Pending => (now, cx1, Poll::Pending),
            Poll::Ready(Err(e)) => (now, cx1, Poll::Ready(Err(e))),
            Poll::Ready(Ok(())) => match httparse_chunk_size(reader.buf) {
                Err(e) => (now, cx1, Poll::Ready(Err(BodyError::InvalidChunkHeader(e)))),
                Ok(Some((n, size))) => {
                    let header = reader.buf.take(n as int);
                    let next = ChunkHeadView { reader: reader.skip(n as int), ..now };
                    if size == 0 {
                        next.poll_trailers(cx1, header)
                    } else {
                        (
                            ChunkHeadView {
                                state: ChunkHeadStateView::Data { size, header },
                                ..next
                            },
                            cx1,
                            Poll::Ready(Ok(())),
                        )
                    }
                },
                Ok(None) => {
                    let (reader2, cx2, p2) = extend_step(reader, cx1);
                    let more = ChunkHeadView { reader: reader2, ..now };
                    match p2 {
                        Poll::Pending => (more, cx2, Poll::Pending),
                        Poll::Ready(Err(e)) => (more, cx2, Poll::Ready(Err(e))),
                        Poll::Ready(Ok(())) => more.poll_size(cx2),
                    }
                },
            },
        }
    }

    /// The next chunk header, and behind the last one the trailer section.
    #[verifier::opaque]
    pub open spec fn poll_read_chunk(self, cx: Cx) -> (Self, Cx, Poll<BodyResult<()>>) {
        match self.state {
            ChunkHeadStateView::ReadingSize => self.poll_size(cx),
            ChunkHeadStateView::ReadingTrailers { header } => self.poll_trailers(cx, header),
            _ => (self, cx, Poll::Ready(Ok(()))),
        }
    }
}

/// A read of a chunk header reads any header that can come to the reader, and
/// behind the last one any trailer section: exactly what belongs to it is
/// consumed. The read is pending only while bytes are still to come, and it fails
/// only where the transport does before they have come, or where the body is
/// poisoned.
pub open spec fn reads_any_head<I>(s: ChunkHeadView<I>, cx: Cx) -> bool {
    let (t, cx2, p) = s.poll_read_chunk(cx);
    head_is_read(s, cx, t, cx2, p)
}

/// What the read of a chunk header comes to.
pub open spec fn head_is_read<I>(
    s: ChunkHeadView<I>,
    cx: Cx,
    t: ChunkHeadView<I>,
    cx2: Cx,
    p: Poll<BodyResult<()>>,
) -> bool {
    &&& cx2.read == cx.read || cx2.read is None
    &&& p is Pending ==> cx2.read is None && t == s.at(t.reader.buf, t.state)
    &&& forall|coming: Seq<u8>, line: Seq<u8>, n: u64, rest: Seq<u8>|
        #[trigger] s.expects_chunk(cx, coming, line, n, rest) ==> match p {
            Poll::Ready(Ok(())) => {
                &&& unread(t.reader, cx2) + coming == rest
                &&& t == s.at(t.reader.buf, ChunkHeadStateView::Data { size: n, header: line })
            },
            Poll::Pending => coming.len() > 0 && t.expects_chunk(cx2, coming, line, n, rest),
            Poll::Ready(Err(_)) => coming.len() > 0 && read_failed(cx),
        }
    &&& forall|
        coming: Seq<u8>,
        line: Seq<u8>,
        section: Seq<u8>,
        trailers: Seq<Field>,
        rest: Seq<u8>,
    | #[trigger]
        s.expects_end(cx, coming, line, section, trailers, rest) ==> match p {
            Poll::Ready(Ok(())) => {
                &&& unread(t.reader, cx2) + coming == rest
                &&& t == s.at(t.reader.buf, ChunkHeadStateView::Final { header: line, trailers })
            },
            Poll::Pending => coming.len() > 0 && t.expects_end(
                cx2,
                coming,
                line,
                section,
                trailers,
                rest,
            ),
            Poll::Ready(Err(_)) => coming.len() > 0 && read_failed(cx),
        }
    &&& forall|coming: Seq<u8>, rest: Seq<u8>|
        s.state is ReadingSize && #[trigger] poison_comes(unread(s.reader, cx), coming, rest)
            ==> match p {
            Poll::Ready(Ok(())) => false,
            Poll::Pending => {
                &&& coming.len() > 0
                &&& t.state is ReadingSize
                &&& poison_comes(unread(t.reader, cx2), coming, rest)
            },
            Poll::Ready(Err(e)) => e is InvalidChunkHeader || coming.len() > 0 && read_failed(cx),
        }
}

impl<I> View for ChunkHeadReader<I> {
    type V = ChunkHeadView<I>;

    closed spec fn view(&self) -> ChunkHeadView<I> {
        ChunkHeadView {
            reader: self.reader@,
            slots: self.parse_slots@,
            strict: self.strict_trailers,
            state: match self.state {
                ChunkHeadReaderState::ReadingSize => ChunkHeadStateView::ReadingSize,
                ChunkHeadReaderState::ReadingTrailers { chunk_header_bytes } => {
                    ChunkHeadStateView::ReadingTrailers { header: octets(chunk_header_bytes) }
                },
                ChunkHeadReaderState::Ready(PollNextChunk::Data { size, chunk_header }) => {
                    ChunkHeadStateView::Data { size: size.size, header: octets(chunk_header) }
                },
                ChunkHeadReaderState::Ready(PollNextChunk::Final { chunk_header, trailers }) => {
                    ChunkHeadStateView::Final {
                        header: octets(chunk_header),
                        trailers: trailers@,
                    }
                },
            },
        }
    }
}

impl<I> ChunkHeadReader<I> {
    /// A reader at the start of a chunk header. A strict reader holds the
    /// trailer section to the grammar of trailer fields.
    pub fn new(reader: BytesReader<I>, parse_slots: ParseSlots, strict_trailers: bool) -> (r: Self)
        ensures
            r@ == (ChunkHeadView {
                reader: reader@,
                slots: parse_slots@,
                strict: strict_trailers,
                state: ChunkHeadStateView::ReadingSize,
            }),
    {
        Self { reader, parse_slots, strict_trailers, state: ChunkHeadReaderState::ReadingSize }
    }

    /// Read the chunk header.
    fn poll_header(&mut self, cx: &mut Context) -> (r: Poll<BodyResult<()>>)
        requires
            old(self)@.state is ReadingSize,
        ensures
            match (r, final(self)@.state) {
                (Poll::Ready(Ok(())), ChunkHeadStateView::ReadingTrailers { header }) => {
                    final(self)@.poll_trailers(final(cx)@, header) == old(self)@.poll_size(
                        old(cx)@,
                    )
                },
                (Poll::Ready(Ok(())), _) => {
                    (final(self)@, final(cx)@, Poll::Ready(Ok::<(), BodyError>(()))) == old(self)@.poll_size(
                        old(cx)@,
                    )
                },
                _ => (final(self)@, final(cx)@, r) == old(self)@.poll_size(old(cx)@),
            },
            (r matches Poll::Ready(Ok(()))) ==> !(final(self)@.state is ReadingSize),
            is_tail(
                unread(final(self)@.reader, final(cx)@),
                unread(old(self)@.reader, old(cx)@),
            ),
            forall|coming: Seq<u8>, line: Seq<u8>, n: u64, rest: Seq<u8>|
                #[trigger] header_comes(unread(old(self)@.reader, old(cx)@), coming, line, n, rest)
                    ==> {
                    match r {
                        Poll::Ready(Ok(())) => {
                            &&& unread(final(self)@.reader, final(cx)@) + coming == rest
                            &&& final(self)@ == old(self)@.at(
                                final(self)@.reader.buf,
                                if n == 0 {
                                    ChunkHeadStateView::ReadingTrailers { header: line }
                                } else {
                                    ChunkHeadStateView::Data { size: n, header: line }
                                },
                            )
                        },
                        Poll::Pending => coming.len() > 0,
                        Poll::Ready(Err(_)) => coming.len() > 0 && read_failed(old(cx)@),
                    }
                },
            (r matches Poll::Ready(Ok(()))) ==> final(self)@ == old(self)@.at(
                final(self)@.reader.buf,
                final(self)@.state,
            ),
            r is Pending ==> {
                &&& final(self)@ == old(self)@.at(
                    final(self)@.reader.buf,
                    ChunkHeadStateView::ReadingSize,
                )
                &&& unread(final(self)@.reader, final(cx)@) == unread(old(self)@.reader, old(cx)@)
                &&& final(cx)@.read is None
            },
            final(cx)@.read == old(cx)@.read || final(cx)@.read is None,
            forall|coming: Seq<u8>, rest: Seq<u8>|
                #[trigger] poison_comes(unread(old(self)@.reader, old(cx)@), coming, rest)
                    ==> match r {
                    Poll::Ready(Ok(())) => false,
                    Poll::Pending => coming.len() > 0,
                    Poll::Ready(Err(e)) => e is InvalidChunkHeader || coming.len() > 0
                        && read_failed(old(cx)@),
                },
    {
        let ghost start = unread(self@.reader, cx@);
        loop
            invariant
                self@.state is ReadingSize,
                self@.poll_size(cx@) == old(self)@.poll_size(old(cx)@),
                self@.slots == old(self)@.slots,
                self@.strict == old(self)@.strict,
                self@.reader.io == old(self)@.reader.io,
                start == unread(old(self)@.reader, old(cx)@),
                unread(self@.reader, cx@) == start,
                cx@.read == old(cx)@.read || cx@.read is None,
            decreases (if cx@.read is Some { 1nat } else { 0 }),
        {
            assert(start.skip(0) =~= start);
            proof {
                assert forall|coming: Seq<u8>, line: Seq<u8>, n: u64, rest: Seq<u8>|
                    #[trigger] header_comes(start, coming, line, n, rest) implies start.len() > 0
                    || coming.len() > 0 by {
                    lemma_line_is_not_empty(line, n);
                    assert((start + coming).len() == (line + rest).len());
                }
                assert forall|coming: Seq<u8>, rest: Seq<u8>|
                    #[trigger] poison_comes(start, coming, rest) implies if start.len() > 0 {
                    start[0] == 'x' as u8
                } else {
                    coming.len() > 0
                } by {
                    assert((start + coming)[0] == 'x' as u8);
                    assert((start + coming).len() == (seq!['x' as u8] + rest).len());
                }
            }
            let filled = poll_ensure(cx, &mut self.reader);
            assert(unread(self@.reader, cx@) =~= start);
            match filled {
                Poll::Pending => return Poll::Pending,
                Poll::Ready(Err(e)) => return Poll::Ready(Err(e)),
                Poll::Ready(Ok(())) => {},
            }
            let ghost full = self@.reader.buf;
            let parsed = parse_chunk_size(self.reader.as_bytes());
            proof {
                assert(full =~= start.take(full.len() as int));
                assert forall|coming: Seq<u8>, line: Seq<u8>, n: u64, rest: Seq<u8>|
                    #[trigger] header_comes(start, coming, line, n, rest) implies match parsed {
                    Ok(Some((header_len, size))) => header_len == line.len() && size == n
                        && full.take(header_len as int) == line && start.skip(header_len as int)
                        + coming == rest,
                    Ok(None) => start == full ==> coming.len() > 0,
                    Err(_) => false,
                } by {
                    lemma_first_in_front(full, start, coming, line, rest);
                    assert(is_header_line(line, n));
                    if full.len() >= line.len() {
                        assert(full == line + full.skip(line.len() as int));
                        assert(full.take(line.len() as int) =~= line);
                    }
                }
            }
            match parsed {
                Err(e) => return Poll::Ready(Err(BodyError::InvalidChunkHeader(e))),
                Ok(None) => {
                    let filled = poll_extend(cx, &mut self.reader);
                    assert(unread(self@.reader, cx@) =~= start);
                    match filled {
                        Poll::Pending => return Poll::Pending,
                        Poll::Ready(Err(e)) => return Poll::Ready(Err(e)),
                        Poll::Ready(Ok(())) => {},
                    }
                },
                Ok(Some((header_len, chunk_size))) => {
                    let chunk_header_bytes = self.reader.split_to(header_len);
                    proof {
                        let left = unread(self@.reader, cx@);
                        assert(left =~= start.skip(header_len as int));
                    }
                    if chunk_size == 0 {
                        self.state = ChunkHeadReaderState::ReadingTrailers { chunk_header_bytes };
                    } else {
                        self.state =
                        ChunkHeadReaderState::Ready(
                            PollNextChunk::Data {
                                size: DataSize { size: chunk_size },
                                chunk_header: chunk_header_bytes,
                            },
                        );
                    }
                    return Poll::Ready(Ok(()));
                },
            }
        }
    }

    /// Parse the trailer section, as far as it is in the buffer.
    fn parse_section(&mut self) -> (r: BodyResult<Option<Headers>>)
        ensures
            match (
                r,
                trailer_verdict(old(self)@.reader.buf, old(self)@.slots, old(self)@.strict),
            ) {
                (Err(e), Err(f)) => e == BodyError::TrailerError(f) && final(self)@ == old(self)@,
                (Ok(None), Ok(None)) => final(self)@ == old(self)@,
                (Ok(Some(h)), Ok(Some(raw))) => {
                    &&& h@ == raw.headers
                    &&& raw.block_len <= old(self)@.reader.buf.len()
                    &&& final(self)@ == old(self)@.at(
                        old(self)@.reader.buf.skip(raw.block_len as int),
                        old(self)@.state,
                    )
                },
                _ => false,
            },
            forall|trailers: Seq<Field>|
                are_plain(trailers, old(self)@.strict) && trailers.len() <= old(self)@.slots
                    && starts_as(
                    old(self)@.reader.buf,
                    #[trigger] field_lines(trailers) + crlf(),
                ) ==> trailer_verdict(old(self)@.reader.buf, old(self)@.slots, old(self)@.strict)
                    == Ok::<_, TrailerError>(
                    if old(self)@.reader.buf.len() < (field_lines(trailers) + crlf()).len() {
                        None
                    } else {
                        Some(
                            RawHeadersView {
                                block_len: (field_lines(trailers) + crlf()).len(),
                                headers: trailers,
                            },
                        )
                    },
                ),
    {
        let ghost full = self@.reader.buf;
        proof {
            assert forall|trailers: Seq<Field>|
                are_plain(trailers, self@.strict) && starts_as(
                    full,
                    #[trigger] field_lines(trailers) + crlf(),
                ) && self@.strict implies TrailerParser::Start.scan(full) == Ok::<_, TrailerError>(
                if full.len() < (field_lines(trailers) + crlf()).len() {
                    Status::Partial
                } else {
                    Status::Complete((field_lines(trailers) + crlf()).len())
                },
            ) by {
                lemma_section_scanned_so_far(full, trailers);
            }
        }
        if self.strict_trailers {
            match parse_trailers(self.reader.as_bytes()) {
                Err(e) => return Err(BodyError::TrailerError(e)),
                Ok(Status::Partial) => return Ok(None),
                Ok(Status::Complete(_)) => {},
            }
        }
        match self.parse_slots.parse_headers(&mut self.reader) {
            Err(e) => Err(map_trailer_error(e)),
            Ok(parsed) => Ok(parsed),
        }
    }

    /// Read the trailer section.
    fn poll_trailers(&mut self, cx: &mut Context) -> (r: Poll<BodyResult<()>>)
        requires
            old(self)@.state is ReadingTrailers,
        ensures
            (final(self)@, final(cx)@, r) == old(self)@.poll_trailers(
                old(cx)@,
                old(self)@.state->ReadingTrailers_header,
            ),
            (r matches Poll::Ready(Ok(()))) ==> final(self)@.state is Final,
            is_tail(
                unread(final(self)@.reader, final(cx)@),
                unread(old(self)@.reader, old(cx)@),
            ),
            forall|coming: Seq<u8>, section: Seq<u8>, trailers: Seq<Field>, rest: Seq<u8>|
                #[trigger] section_comes(
                    unread(old(self)@.reader, old(cx)@),
                    coming,
                    section,
                    rest,
                ) && #[trigger] is_section(section, trailers, old(self)@.slots, old(self)@.strict)
                    ==> match r {
                    Poll::Ready(Ok(())) => {
                        &&& unread(final(self)@.reader, final(cx)@) + coming == rest
                        &&& final(self)@ == old(self)@.at(
                            final(self)@.reader.buf,
                            ChunkHeadStateView::Final {
                                header: old(self)@.state->ReadingTrailers_header,
                                trailers,
                            },
                        )
                    },
                    Poll::Pending => coming.len() > 0,
                    Poll::Ready(Err(_)) => coming.len() > 0 && read_failed(old(cx)@),
                },
            r is Pending ==> {
                &&& final(self)@ == old(self)@.at(final(self)@.reader.buf, old(self)@.state)
                &&& unread(final(self)@.reader, final(cx)@) == unread(old(self)@.reader, old(cx)@)
                &&& final(cx)@.read is None
            },
            final(cx)@.read == old(cx)@.read || final(cx)@.read is None,
    {
        let ghost header = self@.state->ReadingTrailers_header;
        let ghost start = unread(self@.reader, cx@);
        loop
            invariant
                old(self)@.state == (ChunkHeadStateView::ReadingTrailers { header }),
                self@.state == (ChunkHeadStateView::ReadingTrailers { header }),
                self@.poll_trailers(cx@, header) == old(self)@.poll_trailers(old(cx)@, header),
                self@.slots == old(self)@.slots,
                self@.strict == old(self)@.strict,
                self@.reader.io == old(self)@.reader.io,
                start == unread(old(self)@.reader, old(cx)@),
                unread(self@.reader, cx@) == start,
                cx@.read == old(cx)@.read || cx@.read is None,
            decreases (if cx@.read is Some { 1nat } else { 0 }),
        {
            assert(start.skip(0) =~= start);
            proof {
                assert forall|
                    coming: Seq<u8>,
                    section: Seq<u8>,
                    trailers: Seq<Field>,
                    rest: Seq<u8>,
                |
                    #[trigger] section_comes(start, coming, section, rest) && #[trigger] is_section(
                        section,
                        trailers,
                        self@.slots,
                        self@.strict,
                    ) implies start.len() > 0 || coming.len() > 0 by {
                    assert((start + coming).len() == (section + rest).len());
                    assert(section.len() > 0);
                }
            }
            let filled = poll_ensure(cx, &mut self.reader);
            assert(unread(self@.reader, cx@) =~= start);
            match filled {
                Poll::Pending => return Poll::Pending,
                Poll::Ready(Err(e)) => return Poll::Ready(Err(e)),
                Poll::Ready(Ok(())) => {},
            }
            let ghost full = self@.reader.buf;
            let parsed = self.parse_section();
            proof {
                assert(full =~= start.take(full.len() as int));
                assert forall|
                    coming: Seq<u8>,
                    section: Seq<u8>,
                    trailers: Seq<Field>,
                    rest: Seq<u8>,
                |
                    #[trigger] section_comes(start, coming, section, rest) && #[trigger] is_section(
                        section,
                        trailers,
                        old(self)@.slots,
                        old(self)@.strict,
                    ) implies match parsed {
                    Ok(Some(h)) => h@ == trailers && unread(self@.reader, cx@) + coming == rest,
                    Ok(None) => start == full ==> coming.len() > 0,
                    Err(_) => false,
                } by {
                    lemma_first_in_front(full, start, coming, section, rest);
                    assert(starts_as(full, section));
                    if full.len() >= section.len() {
                        assert(full == section + full.skip(section.len() as int));
                        if parsed matches Ok(Some(_)) {
                            assert(unread(self@.reader, cx@) =~= start.skip(section.len() as int));
                        }
                    }
                }
            }
            match parsed {
                Err(e) => return Poll::Ready(Err(e)),
                Ok(None) => {
                    let filled = poll_extend(cx, &mut self.reader);
                    assert(unread(self@.reader, cx@) =~= start);
                    match filled {
                        Poll::Pending => return Poll::Pending,
                        Poll::Ready(Err(e)) => return Poll::Ready(Err(e)),
                        Poll::Ready(Ok(())) => {},
                    }
                },
                Ok(Some(trailers)) => {
                    proof {
                        let left = unread(self@.reader, cx@);
                        assert(left =~= start.skip(start.len() - left.len()));
                    }
                    let mut state = ChunkHeadReaderState::ReadingSize;
                    std::mem::swap(&mut state, &mut self.state);
                    if let ChunkHeadReaderState::ReadingTrailers { chunk_header_bytes } = state {
                        self.state =
                        ChunkHeadReaderState::Ready(
                            PollNextChunk::Final { chunk_header: chunk_header_bytes, trailers },
                        );
                    }
                    return Poll::Ready(Ok(()));
                },
            }
        }
    }

    /// Poll for the next chunk. A chunk header, and behind the last one the trailer
    /// section, is read to its end and no further, however it comes in; once it
    /// has been read, a poll does nothing. A poisoned body is refused.
    pub fn poll_read_chunk(&mut self, cx: &mut Context) -> (r: Poll<BodyResult<()>>)
        ensures
            (final(self)@, final(cx)@, r) == old(self)@.poll_read_chunk(old(cx)@),
            (r matches Poll::Ready(Ok(()))) ==> final(self)@.is_ready(),
            is_tail(
                unread(final(self)@.reader, final(cx)@),
                unread(old(self)@.reader, old(cx)@),
            ),
            reads_any_head(old(self)@, old(cx)@),
            old(self)@.is_ready() ==> r == Poll::Ready(Ok::<(), BodyError>(())) && final(self)@
                == old(self)@ && final(cx)@ == old(cx)@,
    {
        let ghost s = self@;
        let ghost cx0 = cx@;
        let ghost start = unread(self@.reader, cx@);
        proof {
            assert(start.skip(0) =~= start);
        }
        if let ChunkHeadReaderState::ReadingSize = self.state {
            let p = self.poll_header(cx);
            match p {
                Poll::Pending => {
                    assert((self@, cx@, p) == s.poll_read_chunk(cx0)) by {
                        reveal(ChunkHeadView::poll_read_chunk);
                    }
                    return Poll::Pending;
                },
                Poll::Ready(Err(e)) => {
                    assert((self@, cx@, p) == s.poll_read_chunk(cx0)) by {
                        reveal(ChunkHeadView::poll_read_chunk);
                    }
                    return Poll::Ready(Err(e));
                },
                Poll::Ready(Ok(())) => {},
            }
        }
        if let ChunkHeadReaderState::ReadingTrailers { .. } = self.state {
            let ghost middle = self@;
            let ghost cx1 = cx@;
            proof {
                assert forall|
                    coming: Seq<u8>,
                    line: Seq<u8>,
                    section: Seq<u8>,
                    trailers: Seq<Field>,
                    rest: Seq<u8>,
                | #[trigger]
                    s.expects_end(cx0, coming, line, section, trailers, rest) implies {
                    &&& section_comes(unread(middle.reader, cx1), coming, section, rest)
                    &&& middle.state == (ChunkHeadStateView::ReadingTrailers { header: line })
                    &&& is_section(section, trailers, middle.slots, middle.strict)
                } by {}
            }
            let r = self.poll_trailers(cx);
            proof {
                let left = unread(self@.reader, cx@);
                assert(left =~= start.skip(start.len() - left.len()));
                assert((self@, cx@, r) == s.poll_read_chunk(cx0)) by {
                    reveal(ChunkHeadView::poll_read_chunk);
                }
                assert(head_is_read(s, cx0, self@, cx@, r));
            }
            return r;
        }
        assert((self@, cx@, Poll::Ready(Ok::<(), BodyError>(()))) == s.poll_read_chunk(cx0)) by {
            reveal(ChunkHeadView::poll_read_chunk);
        }
        Poll::Ready(Ok(()))
    }

    /// Finish the head reader. [`Self::poll_read_chunk`] has to have been
    /// polled to completion.
    pub fn finish(self) -> (r: NextChunk<I>)
        requires
            self@.is_ready(),
        ensures
            r@ == self@.finish(),
            r matches NextChunk::Data(data) ==> data@.size > 0,
    {
        let Self { reader, parse_slots, strict_trailers, state } = self;
        match state {
            ChunkHeadReaderState::Ready(PollNextChunk::Data { size, chunk_header }) => {
                proof {
                    use_type_invariant(&size);
                }
                let size: u64 = size.size;
                NextChunk::Data(
                    ChunkDataReader::new(reader, parse_slots, strict_trailers, size, chunk_header),
                )
            },
            ChunkHeadReaderState::Ready(PollNextChunk::Final { chunk_header, trailers }) => {
                NextChunk::Final(
                    FinalChunkReader {
                        reader,
                        parse_slots,
                        extensions: ChunkExtensions::new(chunk_header),
                        trailers,
                    },
                )
            },
            _ => unreached(),
        }
    }
}

/// The model of a [`FinalChunkReader`].
pub struct FinalChunkView<I> {
    pub reader: Buffered<I>,
    pub slots: nat,
    pub header: Seq<u8>,
    pub trailers: Seq<Field>,
}

/// Positioned behind a body.
#[derive(Debug)]
pub struct FinalChunkReader<I> {
    reader: BytesReader<I>,
    parse_slots: ParseSlots,
    extensions: ChunkExtensions,
    trailers: Headers,
}

impl<I> View for FinalChunkReader<I> {
    type V = FinalChunkView<I>;

    closed spec fn view(&self) -> FinalChunkView<I> {
        FinalChunkView {
            reader: self.reader@,
            slots: self.parse_slots@,
            header: self.extensions@,
            trailers: self.trailers@,
        }
    }
}

impl<I> FinalChunkReader<I> {
    /// The fields behind the body.
    pub fn trailers(&self) -> (h: &Headers)
        ensures
            h@ == self@.trailers,
    {
        &self.trailers
    }

    /// The extensions attached to the header of the last chunk.
    pub fn extensions(&self) -> (e: &ChunkExtensions)
        ensures
            e@ == self@.header,
    {
        &self.extensions
    }

    /// Give back the connection, with the trailers.
    pub fn into_parts(self) -> (r: (BytesReader<I>, ParseSlots, Headers))
        ensures
            r.0@ == self@.reader,
            r.1@ == self@.slots,
            r.2@ == self@.trailers,
    {
        let Self { reader, parse_slots, trailers, extensions: _ } = self;
        (reader, parse_slots, trailers)
    }
}

proof fn lemma_trailers_take_reads<I>(s: ChunkHeadView<I>, cx: Cx, header: Seq<u8>)
    ensures
        ({
            let (_, cx2, p) = s.poll_trailers(cx, header);
            &&& p is Pending ==> cx2.awaits()
            &&& cx2.write == cx.write
            &&& cx2.flush == cx.flush
            &&& cx2.wire == cx.wire
            &&& cx2.events() <= cx.events()
        }),
    decreases (if cx.read is Some { 1nat } else { 0 }),
{
    let (reader, cx1, p) = ensure_step(s.reader, cx);
    let (reader2, cx2, p2) = extend_step(reader, cx1);
    if p2 matches Poll::Ready(Ok(())) {
        if cx.read is Some {
            let more = ChunkHeadView {
                reader: reader2,
                state: ChunkHeadStateView::ReadingTrailers { header },
                ..s
            };
            lemma_trailers_take_reads(more, cx2, header);
        }
    }
}

proof fn lemma_size_takes_reads<I>(s: ChunkHeadView<I>, cx: Cx)
    ensures
        ({
            let (_, cx2, p) = s.poll_size(cx);
            &&& p is Pending ==> cx2.awaits()
            &&& cx2.write == cx.write
            &&& cx2.flush == cx.flush
            &&& cx2.wire == cx.wire
            &&& cx2.events() <= cx.events()
        }),
    decreases (if cx.read is Some { 1nat } else { 0 }),
{
    let (reader, cx1, p) = ensure_step(s.reader, cx);
    let now = ChunkHeadView { reader, state: ChunkHeadStateView::ReadingSize, ..s };
    if let Ok(Some((n, size))) = httparse_chunk_size(reader.buf) {
        let next = ChunkHeadView { reader: reader.skip(n as int), ..now };
        lemma_trailers_take_reads(next, cx1, reader.buf.take(n as int));
    }
    let (reader2, cx2, p2) = extend_step(reader, cx1);
    if p2 matches Poll::Ready(Ok(())) {
        if cx.read is Some {
            lemma_size_takes_reads(ChunkHeadView { reader: reader2, ..now }, cx2);
        }
    }
}

/// A read of a chunk header takes nothing from the context but the outcome of
/// a read, and is pending only where it awaits one.
pub proof fn header_read_takes_reads<I>(s: ChunkHeadView<I>, cx: Cx)
    ensures
        ({
            let (_, cx2, p) = s.poll_read_chunk(cx);
            &&& p is Pending ==> cx2.awaits()
            &&& cx2.write == cx.write
            &&& cx2.flush == cx.flush
            &&& cx2.wire == cx.wire
            &&& cx2.events() <= cx.events()
        }),
{
    reveal(ChunkHeadView::poll_read_chunk);
    lemma_size_takes_reads(s, cx);
    if let ChunkHeadStateView::ReadingTrailers { header } = s.state {
        lemma_trailers_take_reads(s, cx, header);
    }
}

impl<I> ChunkHeadView<I> {
    /// What holds of a reader from its creation on: a chunk whose header states
    /// a size has data.
    pub open spec fn is_valid(self) -> bool {
        self.state matches ChunkHeadStateView::Data { size, .. } ==> size > 0
    }
}

proof fn lemma_trailers_are_valid<I>(s: ChunkHeadView<I>, cx: Cx, header: Seq<u8>)
    ensures
        s.poll_trailers(cx, header).0.is_valid(),
        (s.poll_trailers(cx, header).2 matches Poll::Ready(Ok(()))) ==> s.poll_trailers(
            cx,
            header,
        ).0.is_ready(),
    decreases (if cx.read is Some { 1nat } else { 0 }),
{
    let (reader, cx1, p) = ensure_step(s.reader, cx);
    let (reader2, cx2, p2) = extend_step(reader, cx1);
    if (p2 matches Poll::Ready(Ok(()))) && cx.read is Some {
        let more = ChunkHeadView {
            reader: reader2,
            state: ChunkHeadStateView::ReadingTrailers { header },
            ..s
        };
        lemma_trailers_are_valid(more, cx2, header);
    }
}

proof fn lemma_size_is_valid<I>(s: ChunkHeadView<I>, cx: Cx)
    ensures
        s.poll_size(cx).0.is_valid(),
        (s.poll_size(cx).2 matches Poll::Ready(Ok(()))) ==> s.poll_size(cx).0.is_ready(),
    decreases (if cx.read is Some { 1nat } else { 0 }),
{
    let (reader, cx1, p) = ensure_step(s.reader, cx);
    let now = ChunkHeadView { reader, state: ChunkHeadStateView::ReadingSize, ..s };
    if let Ok(Some((n, size))) = httparse_chunk_size(reader.buf) {
        let next = ChunkHeadView { reader: reader.skip(n as int), ..now };
        lemma_trailers_are_valid(next, cx1, reader.buf.take(n as int));
    }
    let (reader2, cx2, p2) = extend_step(reader, cx1);
    if (p2 matches Poll::Ready(Ok(()))) && cx.read is Some {
        lemma_size_is_valid(ChunkHeadView { reader: reader2, ..now }, cx2);
    }
}

/// A read of a chunk header keeps a reader valid, and where it is done there is
/// a next chunk.
pub proof fn header_read_keeps_valid<I>(s: ChunkHeadView<I>, cx: Cx)
    requires
        s.is_valid(),
    ensures
        s.poll_read_chunk(cx).0.is_valid(),
        (s.poll_read_chunk(cx).2 matches Poll::Ready(Ok(()))) ==> s.poll_read_chunk(
            cx,
        ).0.is_ready(),
{
    reveal(ChunkHeadView::poll_read_chunk);
    lemma_size_is_valid(s, cx);
    if let ChunkHeadStateView::ReadingTrailers { header } = s.state {
        lemma_trailers_are_valid(s, cx, header);
    }
}

/// A trailer section is parsed as headers are; a strict reader holds it to the grammar of
/// trailer fields first, and finds no end where that grammar finds none. Of the errors of the
/// parser, only that of too many headers is told apart.
pub proof fn strict_readers_ask_the_grammar_first(buf: Seq<u8>, slots: nat, e: HttpParseError)
    ensures
        trailer_error(e) == (if e == HttpParseError::TooManyHeaders {
            TrailerError::TooManyFields
        } else {
            TrailerError::InvalidField(e)
        }),
        match httparse_headers(buf, slots) {
            Ok(parsed) => trailer_verdict(buf, slots, false) == Ok::<_, TrailerError>(parsed),
            Err(f) => trailer_verdict(buf, slots, false) == Err::<Option<RawHeadersView>, _>(
                if f == HttpParseError::TooManyHeaders {
                    TrailerError::TooManyFields
                } else {
                    TrailerError::InvalidField(f)
                },
            ),
        },
        match TrailerParser::Start.scan(buf) {
            Err(f) => trailer_verdict(buf, slots, true) == Err::<Option<RawHeadersView>, _>(f),
            Ok(Status::Partial) => trailer_verdict(buf, slots, true) == Ok::<_, TrailerError>(
                None::<RawHeadersView>,
            ),
            Ok(Status::Complete(_)) => trailer_verdict(buf, slots, true) == trailer_verdict(
                buf,
                slots,
                false,
            ),
        },
{
}

/// What a read of a chunk header comes to where bytes are there: a header that is wrong is
/// refused; behind one that states a size, the data follows; behind one that states none, the
/// trailer section is read; and where the header is not complete, it is waited for, unless
/// the transport failed or the stream ended.
pub proof fn headers_are_read_to_their_end<I>(s: ChunkHeadView<I>, cx: Cx)
    requires
        s.state is ReadingSize,
        s.reader.buf.len() > 0,
    ensures
        ({
            let (t, cx2, p) = s.poll_read_chunk(cx);
            match httparse_chunk_size(s.reader.buf) {
                Err(e) => {
                    &&& p matches Poll::Ready(Err(BodyError::InvalidChunkHeader(f))) && f == e
                    &&& t == s && cx2 == cx
                },
                Ok(Some((n, size))) => if size > 0 {
                    &&& p matches Poll::Ready(Ok(()))
                    &&& cx2 == cx
                    &&& t.reader == s.reader.skip(n as int)
                    &&& t.slots == s.slots && t.strict == s.strict
                    &&& t.state == (ChunkHeadStateView::Data {
                        size,
                        header: s.reader.buf.take(n as int),
                    })
                } else {
                    let behind = ChunkHeadView {
                        reader: s.reader.skip(n as int),
                        state: ChunkHeadStateView::ReadingTrailers {
                            header: s.reader.buf.take(n as int),
                        },
                        ..s
                    };
                    (t, cx2, p) == behind.poll_read_chunk(cx)
                },
                Ok(None) => match cx.read {
                    None => {
                        &&& p is Pending
                        &&& t == s
                        &&& cx2.wants == crate::transport::WantsView::Read(
                            crate::body::reader::IO_FILL_LEN as nat,
                        )
                    },
                    Some(Err(e)) => p matches Poll::Ready(Err(BodyError::BodyReadError(f))) && f
                        == e,
                    Some(Ok(data)) => if data.len() == 0 {
                        p matches Poll::Ready(Err(BodyError::UnexpectedEOF))
                    } else {
                        let more = ChunkHeadView {
                            reader: Buffered { buf: s.reader.buf + data, ..s.reader },
                            ..s
                        };
                        (t, cx2, p) == more.poll_read_chunk(Cx { read: None, ..cx })
                    },
                },
            }
        }),
{
    reveal(ChunkHeadView::poll_read_chunk);
    reveal_with_fuel(ChunkHeadView::poll_size, 2);
    reveal_with_fuel(ChunkHeadView::poll_trailers, 2);
}

/// What a read of a trailer section comes to where bytes are there: one that is wrong is
/// refused, and told why; one that is complete gives its fields, and just its bytes are
/// consumed; and where it is not complete, it is waited for, unless the transport failed or
/// the stream ended.
pub proof fn trailers_are_read_to_their_end<I>(s: ChunkHeadView<I>, cx: Cx)
    requires
        s.state is ReadingTrailers,
        s.reader.buf.len() > 0,
    ensures
        ({
            let (t, cx2, p) = s.poll_read_chunk(cx);
            let line = s.state->ReadingTrailers_header;
            match trailer_verdict(s.reader.buf, s.slots, s.strict) {
                Err(e) => {
                    &&& p matches Poll::Ready(Err(BodyError::TrailerError(f))) && f == e
                    &&& t == s && cx2 == cx
                },
                Ok(Some(raw)) => {
                    &&& p matches Poll::Ready(Ok(()))
                    &&& cx2 == cx
                    &&& t.reader == s.reader.skip(raw.block_len as int)
                    &&& t.slots == s.slots && t.strict == s.strict
                    &&& t.state == (ChunkHeadStateView::Final {
                        header: line,
                        trailers: raw.headers,
                    })
                },
                Ok(None) => match cx.read {
                    None => {
                        &&& p is Pending
                        &&& t == s
                        &&& cx2.wants == crate::transport::WantsView::Read(
                            crate::body::reader::IO_FILL_LEN as nat,
                        )
                    },
                    Some(Err(e)) => p matches Poll::Ready(Err(BodyError::BodyReadError(f))) && f
                        == e,
                    Some(Ok(data)) => if data.len() == 0 {
                        p matches Poll::Ready(Err(BodyError::UnexpectedEOF))
                    } else {
                        let more = ChunkHeadView {
                            reader: Buffered { buf: s.reader.buf + data, ..s.reader },
                            ..s
                        };
                        (t, cx2, p) == more.poll_read_chunk(Cx { read: None, ..cx })
                    },
                },
            }
        }),
{
    reveal(ChunkHeadView::poll_read_chunk);
    reveal_with_fuel(ChunkHeadView::poll_trailers, 2);
}

/// Where no byte is there yet, a read of a chunk header or of a trailer section waits, fails
/// where the transport did or the stream ended, and otherwise goes on with what came.
pub proof fn nothing_is_told_of_no_bytes<I>(s: ChunkHeadView<I>, cx: Cx)
    requires
        s.state is ReadingSize || s.state is ReadingTrailers,
        s.reader.buf.len() == 0,
    ensures
        ({
            let (t, cx2, p) = s.poll_read_chunk(cx);
            match cx.read {
                None => {
                    &&& p is Pending
                    &&& t == s
                    &&& cx2.wants == crate::transport::WantsView::Read(
                        crate::body::reader::IO_FILL_LEN as nat,
                    )
                },
                Some(Err(e)) => p matches Poll::Ready(Err(BodyError::BodyReadError(f))) && f == e,
                Some(Ok(data)) => if data.len() == 0 {
                    p matches Poll::Ready(Err(BodyError::UnexpectedEOF))
                } else {
                    let more = ChunkHeadView {
                        reader: Buffered { buf: data, ..s.reader },
                        ..s
                    };
                    (t, cx2, p) == more.poll_read_chunk(Cx { read: None, ..cx })
                },
            }
        }),
{
    reveal(ChunkHeadView::poll_read_chunk);
    reveal_with_fuel(ChunkHeadView::poll_size, 2);
    reveal_with_fuel(ChunkHeadView::poll_trailers, 2);
    if let Some(Ok(data)) = cx.read {
        assert(s.reader.buf + data =~= data);
    }
}

/// What was read of a header is handed on: the data reader starts with the whole chunk left,
/// the final reader has the trailers, and both go on behind the header with the same
/// connection. A header that has been read is not read again.
pub proof fn what_follows_a_header_is_handed_on<I>(s: ChunkHeadView<I>, cx: Cx)
    requires
        s.is_ready(),
    ensures
        s.poll_read_chunk(cx) == (s, cx, Poll::Ready(Ok::<(), BodyError>(()))),
        match (s.state, s.finish()) {
            (ChunkHeadStateView::Data { size, header }, NextChunkView::Data(d)) => {
                &&& d.reader == s.reader && d.slots == s.slots && d.strict == s.strict
                &&& d.size == size && d.remaining == size && d.header == header
                &&& d.state == ChunkBodyState::InBody
            },
            (ChunkHeadStateView::Final { header, trailers }, NextChunkView::Final(f)) => {
                &&& f.reader == s.reader && f.slots == s.slots
                &&& f.header == header && f.trailers == trailers
            },
            _ => false,
        },
{
    reveal(ChunkHeadView::poll_read_chunk);
}

proof fn lemma_trailers_keep_the_connection<I>(s: ChunkHeadView<I>, cx: Cx, header: Seq<u8>)
    ensures
        ({
            let t = s.poll_trailers(cx, header).0;
            &&& t.reader.io == s.reader.io
            &&& t.slots == s.slots
            &&& t.strict == s.strict
        }),
    decreases (if cx.read is Some { 1nat } else { 0 }),
{
    let (reader, cx1, p) = ensure_step(s.reader, cx);
    let (reader2, cx2, p2) = extend_step(reader, cx1);
    if (p2 matches Poll::Ready(Ok(()))) && cx.read is Some {
        let more = ChunkHeadView {
            reader: reader2,
            state: ChunkHeadStateView::ReadingTrailers { header },
            ..s
        };
        lemma_trailers_keep_the_connection(more, cx2, header);
    }
}

proof fn lemma_size_keeps_the_connection<I>(s: ChunkHeadView<I>, cx: Cx)
    ensures
        ({
            let t = s.poll_size(cx).0;
            &&& t.reader.io == s.reader.io
            &&& t.slots == s.slots
            &&& t.strict == s.strict
        }),
    decreases (if cx.read is Some { 1nat } else { 0 }),
{
    let (reader, cx1, p) = ensure_step(s.reader, cx);
    let now = ChunkHeadView { reader, state: ChunkHeadStateView::ReadingSize, ..s };
    if let Ok(Some((n, size))) = httparse_chunk_size(reader.buf) {
        let next = ChunkHeadView { reader: reader.skip(n as int), ..now };
        lemma_trailers_keep_the_connection(next, cx1, reader.buf.take(n as int));
    }
    let (reader2, cx2, p2) = extend_step(reader, cx1);
    if (p2 matches Poll::Ready(Ok(()))) && cx.read is Some {
        lemma_size_keeps_the_connection(ChunkHeadView { reader: reader2, ..now }, cx2);
    }
}

/// Whatever a read of a chunk header comes to, the connection, the slots and the strictness
/// stay the same.
pub proof fn headers_keep_the_connection<I>(s: ChunkHeadView<I>, cx: Cx)
    ensures
        ({
            let t = s.poll_read_chunk(cx).0;
            &&& t.reader.io == s.reader.io
            &&& t.slots == s.slots
            &&& t.strict == s.strict
        }),
{
    reveal(ChunkHeadView::poll_read_chunk);
    lemma_size_keeps_the_connection(s, cx);
    if let ChunkHeadStateView::ReadingTrailers { header } = s.state {
        lemma_trailers_keep_the_connection(s, cx, header);
    }
}

/// Trailers that hold more fields than there are slots are told apart from those that are
/// wrong in any other way.
pub proof fn trailer_errors_are_told_apart(e: HttpParseError)
    ensures
        trailer_error(e) == TrailerError::TooManyFields <==> e == HttpParseError::TooManyHeaders,
        e != HttpParseError::TooManyHeaders ==> trailer_error(e) == TrailerError::InvalidField(e),
{
}

} // verus!
