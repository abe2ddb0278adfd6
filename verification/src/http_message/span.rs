//! Positions of slices inside a buffer, and a buffer that hands them out.
use bytes::BytesMut;
use vstd::prelude::*;
use vstd::slice::slice_subrange;
use vstd::string::*;

use crate::octets::octets_mut;
use crate::text::{ascii, ascii_bytes, crlf};

verus! {

/// `<[u8]>::as_ptr` of two slices, as numbers: where each starts in memory. What
/// the addresses are depends on the process. A slice never wraps around the end
/// of the address space; and where `inner` lies within the memory of `outer`, its
/// bytes are those that stand there in `outer`.
#[verifier::external_body]
fn slice_addresses(outer: &[u8], inner: &[u8]) -> (r: (usize, usize))
    ensures
        r.0 + outer@.len() <= usize::MAX,
        r.1 + inner@.len() <= usize::MAX,
        r.0 <= r.1 && r.1 + inner@.len() <= r.0 + outer@.len() ==> inner@ == outer@.subrange(
            r.1 - r.0,
            r.1 - r.0 + inner@.len(),
        ),
{
    (outer.as_ptr() as usize, inner.as_ptr() as usize)
}

/// A position in a buffer and a length.
#[derive(Debug)]
pub struct Span {
    offset: usize,
    len: usize,
}

/// The model of a [`Span`].
pub struct SpanView {
    pub offset: nat,
    pub len: nat,
}

impl SpanView {
    /// Whether the span lies inside a buffer of this length.
    pub open spec fn fits(self, buf_len: nat) -> bool {
        self.offset + self.len <= buf_len
    }

    /// The bytes at the span.
    pub open spec fn slice(self, buf: Seq<u8>) -> Seq<u8> {
        buf.subrange(self.offset as int, (self.offset + self.len) as int)
    }
}

impl View for Span {
    type V = SpanView;

    closed spec fn view(&self) -> SpanView {
        SpanView { offset: self.offset as nat, len: self.len as nat }
    }
}

impl Default for Span {
    fn default() -> (s: Self)
        ensures
            s@ == (SpanView { offset: 0, len: 0 }),
    {
        Span::empty()
    }
}

impl Span {
    #[verifier::type_invariant]
    spec fn inv(self) -> bool {
        self.offset + self.len <= usize::MAX
    }

    /// The span of `inner` inside `outer`, `None` where `inner` does not lie
    /// within the memory of `outer`. The bytes of `outer` at the span are those of
    /// `inner`. Where the two lie is not known before they are asked, so when
    /// there is a span is not stated here: [`Span::of_addresses`] says what is made
    /// of their addresses.
    pub fn new(outer: &[u8], inner: &[u8]) -> (r: Option<Self>)
        ensures
            r matches Some(s) ==> {
                &&& s@.len == inner@.len()
                &&& s@.fits(outer@.len())
                &&& s@.slice(outer@) == inner@
            },
            inner@.len() > outer@.len() ==> r is None,
    {
        let (outer_start, inner_start) = slice_addresses(outer, inner);
        Span::of_addresses(outer_start, outer.len(), inner_start, inner.len())
    }

    /// The span of a slice of `inner_len` bytes at the address `inner` inside
    /// one of `outer_len` bytes at the address `outer`.
    pub fn of_addresses(outer: usize, outer_len: usize, inner: usize, inner_len: usize) -> (r:
        Option<Self>)
        requires
            outer + outer_len <= usize::MAX,
            inner + inner_len <= usize::MAX,
        ensures
            r is Some <==> outer <= inner && inner + inner_len <= outer + outer_len,
            r matches Some(s) ==> s@ == (SpanView {
                offset: (inner - outer) as nat,
                len: inner_len as nat,
            }),
    {
        if outer <= inner && inner + inner_len <= outer + outer_len {
            Some(Span { offset: inner - outer, len: inner_len })
        } else {
            None
        }
    }

    /// A span of nothing, at the start.
    pub fn empty() -> (s: Self)
        ensures
            s@ == (SpanView { offset: 0, len: 0 }),
    {
        Span { offset: 0, len: 0 }
    }

    /// The positions that the span covers.
    pub fn range(&self) -> (r: std::ops::Range<usize>)
        ensures
            r.start == self@.offset,
            r.end == self@.offset + self@.len,
    {
        proof {
            use_type_invariant(self);
        }
        self.offset..self.offset + self.len
    }

    /// The bytes of `buf` at the span, `None` where the span reaches beyond
    /// the end.
    pub fn try_slice<'b>(&self, buf: &'b [u8]) -> (r: Option<&'b [u8]>)
        ensures
            r is Some <==> self@.fits(buf@.len()),
            r matches Some(s) ==> s@ == self@.slice(buf@),
    {
        let range = self.range();
        if range.end <= buf.len() {
            Some(slice_subrange(buf, range.start, range.end))
        } else {
            None
        }
    }

    /// The bytes of `buf` at the span.
    pub fn slice<'b>(&self, buf: &'b [u8]) -> (r: &'b [u8])
        requires
            self@.fits(buf@.len()),
        ensures
            r@ == self@.slice(buf@),
    {
        let range = self.range();
        slice_subrange(buf, range.start, range.end)
    }
}

/// A buffer that is filled slice by slice and tells where each slice went.
pub struct BufBuilder {
    buf: BytesMut,
}

impl View for BufBuilder {
    type V = Seq<u8>;

    closed spec fn view(&self) -> Seq<u8> {
        octets_mut(self.buf)
    }
}

impl BufBuilder {
    /// An empty buffer with room for `capacity` bytes.
    pub fn with_capacity(capacity: usize) -> (b: Self)
        requires
            capacity <= isize::MAX,
        ensures
            b@ == Seq::<u8>::empty(),
    {
        Self { buf: BytesMut::with_capacity(capacity) }
    }

    /// Append `slice`.
    pub fn push(&mut self, slice: &[u8]) -> (s: Span)
        requires
            old(self)@.len() + slice@.len() <= usize::MAX,
        ensures
            final(self)@ == old(self)@ + slice@,
            s@ == (SpanView { offset: old(self)@.len(), len: slice@.len() }),
    {
        let offset: usize = self.buf.len();
        let len: usize = slice.len();
        self.buf.extend_from_slice(slice);
        Span { offset, len }
    }

    /// Append a space.
    pub fn push_space(&mut self) -> (s: Span)
        requires
            old(self)@.len() + 1 <= usize::MAX,
        ensures
            final(self)@ == old(self)@ + ascii(" "),
            s@ == (SpanView { offset: old(self)@.len(), len: 1 }),
    {
        proof {
            reveal_strlit(" ");
        }
        self.push(ascii_bytes(" "))
    }

    /// Append what stands between the name and the value of a field.
    pub fn push_field_sep(&mut self) -> (s: Span)
        requires
            old(self)@.len() + 2 <= usize::MAX,
        ensures
            final(self)@ == old(self)@ + ascii(": "),
            s@ == (SpanView { offset: old(self)@.len(), len: 2 }),
    {
        proof {
            reveal_strlit(": ");
        }
        self.push(ascii_bytes(": "))
    }

    /// Append the end of a line.
    pub fn push_crlf(&mut self) -> (s: Span)
        requires
            old(self)@.len() + 2 <= usize::MAX,
        ensures
            final(self)@ == old(self)@ + crlf(),
            s@ == (SpanView { offset: old(self)@.len(), len: 2 }),
    {
        proof {
            reveal_strlit("\r\n");
            assert(ascii("\r\n") =~= crlf());
        }
        self.push(ascii_bytes("\r\n"))
    }

    /// The buffer.
    pub fn finish(self) -> (b: BytesMut)
        ensures
            octets_mut(b) == self@,
    {
        let Self { buf } = self;
        buf
    }
}

/// What was pushed is found again at its span, whatever was pushed before and
/// after it.
pub proof fn pushed_slice_is_found(before: Seq<u8>, slice: Seq<u8>, after: Seq<u8>, span: SpanView)
    requires
        span == (SpanView { offset: before.len(), len: slice.len() }),
    ensures
        span.fits((before + slice + after).len()),
        span.slice(before + slice + after) == slice,
{
    assert(span.slice(before + slice + after) =~= slice);
}

/// A slice is found at its distance from the start of the one around it, exactly where it lies
/// inside; and a span gives the bytes from its offset on, as many as it is long, exactly where
/// it does not reach beyond the end.
pub proof fn spans_are_distances(
    outer: usize,
    outer_len: usize,
    inner: usize,
    inner_len: usize,
    r: Option<Span>,
    s: &Span,
    buf: &[u8],
    slice: Option<&[u8]>,
)
    requires
        outer + outer_len <= usize::MAX,
        inner + inner_len <= usize::MAX,
        call_ensures(Span::of_addresses, (outer, outer_len, inner, inner_len), r),
        call_ensures(Span::try_slice, (s, buf), slice),
    ensures
        match r {
            Some(span) => {
                &&& outer <= inner && inner + inner_len <= outer + outer_len
                &&& span@.offset == inner - outer
                &&& span@.len == inner_len
            },
            None => inner < outer || inner + inner_len > outer + outer_len,
        },
        match slice {
            Some(bytes) => {
                &&& s@.offset + s@.len <= buf@.len()
                &&& bytes@.len() == s@.len
                &&& forall|i: int|
                    0 <= i < s@.len ==> #[trigger] bytes@[i] == buf@[s@.offset + i]
            },
            None => s@.offset + s@.len > buf@.len(),
        },
{
}

/// A slice that is pushed goes behind what is there, and its span starts there.
pub proof fn slices_are_pushed_behind(b: &mut BufBuilder, slice: &[u8], s: Span)
    requires
        old(b)@.len() + slice@.len() <= usize::MAX,
        call_ensures(BufBuilder::push, (b, slice), s),
    ensures
        final(b)@ == old(b)@ + slice@,
        s@.offset == old(b)@.len(),
        s@.len == slice@.len(),
        s@.slice(final(b)@) == slice@,
{
    assert(s@.slice(old(b)@ + slice@) =~= slice@);
}

} // verus!
