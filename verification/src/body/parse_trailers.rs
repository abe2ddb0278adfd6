//! The grammar of trailer sections (RFC 9112 section 7.1.2), byte by byte.
use vstd::prelude::*;

use crate::body::error::TrailerError;
use crate::parse::{
    is_field_byte, is_field_name, is_field_vchar, is_tchar, is_valid_field_vchar, is_valid_tchar,
};
use crate::text::{crlf, CR, HTAB, LF, SP};

verus! {

/// How far a parse has come.
#[derive(Debug, Clone, Copy, PartialEq, Eq, Structural)]
pub enum Status<T> {
    /// The parse is complete.
    Complete(T),
    /// The parse needs more bytes.
    Partial,
}

/// Where in a trailer section the next byte falls.
#[derive(Debug, Clone, Copy, PartialEq, Eq, Structural)]
pub enum TrailerParser {
    Start,
    InToken,
    SkipFieldWhitespace,
    InFieldValue { can_end: bool },
    NeedFieldLineNL,
    NeedFinalNL,
}

/// Space or tab.
pub open spec fn is_blank(b: u8) -> bool {
    b == SP || b == HTAB
}

impl TrailerParser {
    /// What becomes of a state on the next byte: another state, or `None`
    /// where the section ends with this byte.
    pub open spec fn next(self, b: u8) -> Result<Option<TrailerParser>, TrailerError> {
        match self {
            TrailerParser::Start => if b == CR {
                Ok(Some(TrailerParser::NeedFinalNL))
            } else if is_tchar(b) {
                Ok(Some(TrailerParser::InToken))
            } else {
                Err(TrailerError::InvalidFieldName)
            },
            TrailerParser::InToken => if b == ':' as u8 {
                Ok(Some(TrailerParser::SkipFieldWhitespace))
            } else if is_tchar(b) {
                Ok(Some(self))
            } else {
                Err(TrailerError::InvalidFieldName)
            },
            TrailerParser::SkipFieldWhitespace => if is_blank(b) {
                Ok(Some(self))
            } else if is_field_vchar(b) {
                Ok(Some(TrailerParser::InFieldValue { can_end: true }))
            } else {
                Err(TrailerError::InvalidFieldValue)
            },
            TrailerParser::InFieldValue { can_end } => if can_end && b == CR {
                Ok(Some(TrailerParser::NeedFieldLineNL))
            } else if is_field_byte(b) {
                Ok(Some(TrailerParser::InFieldValue { can_end: is_field_vchar(b) }))
            } else {
                Err(TrailerError::InvalidFieldValue)
            },
            TrailerParser::NeedFieldLineNL => if b == LF {
                Ok(Some(TrailerParser::Start))
            } else {
                Err(TrailerError::InvalidFieldValue)
            },
            TrailerParser::NeedFinalNL => if b == LF {
                Ok(None)
            } else {
                Err(TrailerError::InvalidTrailerFooter)
            },
        }
    }

    /// What the bytes of `buf` come to from this state on: the length of the
    /// section, a section without an end, or the first error.
    pub open spec fn scan(self, buf: Seq<u8>) -> Result<Status<nat>, TrailerError>
        decreases buf.len(),
    {
        if buf.len() == 0 {
            Ok(Status::Partial)
        } else {
            match self.next(buf[0]) {
                Err(e) => Err(e),
                Ok(None) => Ok(Status::Complete(1)),
                Ok(Some(next)) => match next.scan(buf.skip(1)) {
                    Ok(Status::Complete(n)) => Ok(Status::Complete(n + 1)),
                    other => other,
                },
            }
        }
    }

    /// Take the next byte. `true` where the section ends with it.
    pub fn give(&mut self, b: u8) -> (r: Result<bool, TrailerError>)
        ensures
            match (r, old(self).next(b)) {
                (Err(e), Err(f)) => e == f && *final(self) == *old(self),
                (Ok(true), Ok(None)) => *final(self) == *old(self),
                (Ok(false), Ok(Some(next))) => *final(self) == next,
                _ => false,
            },
    {
        match *self {
            TrailerParser::Start => {
                if b == CR {
                    *self = TrailerParser::NeedFinalNL;
                } else if is_valid_tchar(b) {
                    *self = TrailerParser::InToken;
                } else {
                    return Err(TrailerError::InvalidFieldName);
                }
            },
            TrailerParser::InToken => {
                if b == ':' as u8 {
                    *self = TrailerParser::SkipFieldWhitespace;
                } else if is_valid_tchar(b) {
                    // no change to state
                } else {
                    return Err(TrailerError::InvalidFieldName);
                }
            },
            TrailerParser::SkipFieldWhitespace => {
                if b == HTAB || b == SP {
                    // no change to state
                } else if is_valid_field_vchar(b) {
                    *self = TrailerParser::InFieldValue { can_end: true };
                } else {
                    return Err(TrailerError::InvalidFieldValue);
                }
            },
            TrailerParser::InFieldValue { can_end: true } => {
                if b == CR {
                    *self = TrailerParser::NeedFieldLineNL;
                } else if b == HTAB || b == SP {
                    *self = TrailerParser::InFieldValue { can_end: false };
                } else if is_valid_field_vchar(b) {
                    *self = TrailerParser::InFieldValue { can_end: true };
                } else {
                    return Err(TrailerError::InvalidFieldValue);
                }
            },
            TrailerParser::InFieldValue { can_end: false } => {
                if b == HTAB || b == SP {
                    *self = TrailerParser::InFieldValue { can_end: false };
                } else if is_valid_field_vchar(b) {
                    *self = TrailerParser::InFieldValue { can_end: true };
                } else {
                    return Err(TrailerError::InvalidFieldValue);
                }
            },
            TrailerParser::NeedFieldLineNL => {
                if b == LF {
                    *self = TrailerParser::Start;
                } else {
                    return Err(TrailerError::InvalidFieldValue);
                }
            },
            TrailerParser::NeedFinalNL => {
                if b == LF {
                    return Ok(true);
                } else {
                    return Err(TrailerError::InvalidTrailerFooter);
                }
            },
        }
        Ok(false)
    }
}

/// `field-line CRLF`: a name, a colon, blanks, and a value that starts and
/// ends with a visible character. The value stands from `j` to `k`.
pub open spec fn is_line_at(s: Seq<u8>, i: int, j: int, k: int) -> bool {
    &&& 0 < i < j < k == s.len() - 2
    &&& is_field_name(s.take(i))
    &&& s[i] == ':' as u8
    &&& forall|x: int| i < x < j ==> is_blank(#[trigger] s[x])
    &&& forall|x: int| j <= x < k ==> is_field_byte(#[trigger] s[x])
    &&& is_field_vchar(s[j])
    &&& is_field_vchar(s[k - 1])
    &&& s[k] == CR
    &&& s[k + 1] == LF
}

/// A trailer field on a line of its own.
pub open spec fn is_trailer_line(s: Seq<u8>) -> bool {
    exists|i: int, j: int| #[trigger] is_line_at(s, i, j, s.len() - 2)
}

/// `trailer-section CRLF`: any number of trailer fields, and an empty line.
pub open spec fn is_trailer_section(s: Seq<u8>) -> bool
    decreases s.len(),
{
    s == crlf() || exists|n: int|
        0 < n < s.len() && is_trailer_line(#[trigger] s.take(n)) && is_trailer_section(s.skip(n))
}

/// Find the end of a trailer section. Gives the length of the section, up to
/// and with the empty line that ends it.
pub fn parse_trailers(buf: &[u8]) -> (r: Result<Status<usize>, TrailerError>)
    ensures
        match (r, TrailerParser::Start.scan(buf@)) {
            (Err(e), Err(f)) => e == f,
            (Ok(Status::Partial), Ok(Status::Partial)) => true,
            (Ok(Status::Complete(n)), Ok(Status::Complete(m))) => n == m && n <= buf@.len(),
            _ => false,
        },
{
    let mut tp = TrailerParser::Start;
    let mut ix: usize = 0;
    assert(buf@.skip(0) =~= buf@);
    while ix < buf.len()
        invariant
            ix <= buf@.len(),
            TrailerParser::Start.scan(buf@) == (match tp.scan(buf@.skip(ix as int)) {
                Ok(Status::Complete(n)) => Ok(Status::Complete((n + ix) as nat)),
                other => other,
            }),
        decreases buf@.len() - ix,
    {
        assert(buf@.skip(ix as int)[0] == buf@[ix as int]);
        assert(buf@.skip(ix as int).skip(1) =~= buf@.skip(ix + 1));
        match tp.give(buf[ix]) {
            Err(e) => return Err(e),
            Ok(done) => {
                if done {
                    return Ok(Status::Complete(ix + 1));
                }
            },
        }
        ix = ix + 1;
    }
    Ok(Status::Partial)
}

/// `p` is a field line as far as the blanks behind the colon at `i`, or in
/// them.
spec fn is_named(p: Seq<u8>, i: int) -> bool {
    &&& 0 < i < p.len()
    &&& is_field_name(p.take(i))
    &&& p[i] == ':' as u8
    &&& forall|x: int| i < x < p.len() ==> is_blank(#[trigger] p[x])
}

/// `p` is a field line with its value, or a part of it, from `j` on.
spec fn is_valued(p: Seq<u8>, i: int, j: int, can_end: bool) -> bool {
    &&& 0 < i < j < p.len()
    &&& is_field_name(p.take(i))
    &&& p[i] == ':' as u8
    &&& forall|x: int| i < x < j ==> is_blank(#[trigger] p[x])
    &&& forall|x: int| j <= x < p.len() ==> is_field_byte(#[trigger] p[x])
    &&& is_field_vchar(p[j])
    &&& can_end == is_field_vchar(p.last())
}

/// `p` is what a state has seen of the line that it is in.
spec fn is_so_far(state: TrailerParser, p: Seq<u8>) -> bool {
    match state {
        TrailerParser::Start => p.len() == 0,
        TrailerParser::InToken => is_field_name(p),
        TrailerParser::SkipFieldWhitespace => exists|i: int| is_named(p, i),
        TrailerParser::InFieldValue { can_end } => exists|i: int, j: int|
            is_valued(p, i, j, can_end),
        TrailerParser::NeedFieldLineNL => p.len() > 0 && p.last() == CR && exists|i: int, j: int|
            is_valued(p.drop_last(), i, j, true),
        TrailerParser::NeedFinalNL => p == seq![CR],
    }
}

proof fn lemma_next_byte(state: TrailerParser, p: Seq<u8>, b: u8)
    requires
        is_so_far(state, p),
        state.next(b) matches Ok(Some(_)),
    ensures
        state == TrailerParser::NeedFieldLineNL ==> is_trailer_line(p.push(b)),
        state != TrailerParser::NeedFieldLineNL ==> is_so_far(state.next(b)->Ok_0->Some_0,
            p.push(b),
        ),
{
    let q = p.push(b);
    let next = state.next(b)->Ok_0->Some_0;
    match state {
        TrailerParser::Start => {
            if b == CR {
                assert(q =~= seq![CR]);
            } else {
                assert(is_field_name(q));
            }
        },
        TrailerParser::InToken => {
            if b == ':' as u8 {
                assert(q.take(p.len() as int) =~= p);
                assert(is_named(q, p.len() as int));
            } else {
                assert forall|x: int| 0 <= x < q.len() implies is_tchar(#[trigger] q[x]) by {
                    if x < p.len() {
                        assert(q[x] == p[x]);
                    }
                }
            }
        },
        TrailerParser::SkipFieldWhitespace => {
            let i = choose|i: int| is_named(p, i);
            assert(q.take(i) =~= p.take(i));
            assert forall|x: int| i < x < p.len() implies is_blank(#[trigger] q[x]) by {
                assert(q[x] == p[x]);
            }
            if is_blank(b) {
                assert(is_named(q, i));
            } else {
                assert(is_valued(q, i, p.len() as int, next->can_end));
            }
        },
        TrailerParser::InFieldValue { can_end } => {
            let (i, j) = choose|i: int, j: int| is_valued(p, i, j, can_end);
            if can_end && b == CR {
                assert(q.drop_last() =~= p);
                assert(is_valued(q.drop_last(), i, j, true));
            } else {
                assert(q.take(i) =~= p.take(i));
                assert forall|x: int| i < x < j implies is_blank(#[trigger] q[x]) by {
                    assert(q[x] == p[x]);
                }
                assert forall|x: int| j <= x < q.len() implies is_field_byte(#[trigger] q[x]) by {
                    if x < p.len() {
                        assert(q[x] == p[x]);
                    }
                }
                assert(is_valued(q, i, j, next->can_end));
            }
        },
        TrailerParser::NeedFieldLineNL => {
            let v = p.drop_last();
            let (i, j) = choose|i: int, j: int| is_valued(v, i, j, true);
            assert(q.take(i) =~= v.take(i));
            assert forall|x: int| i < x < j implies is_blank(#[trigger] q[x]) by {
                assert(q[x] == v[x]);
            }
            assert forall|x: int| j <= x < v.len() implies is_field_byte(#[trigger] q[x]) by {
                assert(q[x] == v[x]);
            }
            assert(is_line_at(q, i, j, q.len() - 2));
        },
        TrailerParser::NeedFinalNL => {},
    }
}

proof fn lemma_section_found(state: TrailerParser, p: Seq<u8>, buf: Seq<u8>, n: nat)
    requires
        is_so_far(state, p),
        state.scan(buf) == Ok::<_, TrailerError>(Status::Complete(n)),
    ensures
        0 < n <= buf.len(),
        is_trailer_section(p + buf.take(n as int)),
    decreases buf.len(),
{
    let b = buf[0];
    let rest = buf.skip(1);
    let whole = p + buf.take(n as int);
    match state.next(b) {
        Err(_) => {},
        Ok(None) => {
            assert(whole =~= crlf());
        },
        Ok(Some(next)) => {
            lemma_next_byte(state, p, b);
            if state == TrailerParser::NeedFieldLineNL {
                lemma_section_found(next, Seq::empty(), rest, (n - 1) as nat);
                let line = p.push(b);
                assert(Seq::<u8>::empty() + rest.take(n - 1) =~= rest.take(n - 1));
                assert(whole.take(line.len() as int) =~= line);
                assert(whole.skip(line.len() as int) =~= rest.take(n - 1));
            } else {
                lemma_section_found(next, p.push(b), rest, (n - 1) as nat);
                assert(p.push(b) + rest.take(n - 1) =~= whole);
            }
        },
    }
}

/// The state after the first `x` bytes of a line.
spec fn state_in_line(s: Seq<u8>, i: int, j: int, k: int, x: int) -> TrailerParser {
    if x == 0 || x == k + 2 {
        TrailerParser::Start
    } else if x <= i {
        TrailerParser::InToken
    } else if x <= j {
        TrailerParser::SkipFieldWhitespace
    } else if x <= k {
        TrailerParser::InFieldValue { can_end: is_field_vchar(s[x - 1]) }
    } else {
        TrailerParser::NeedFieldLineNL
    }
}

spec fn shifted(r: Result<Status<nat>, TrailerError>, by: nat) -> Result<Status<nat>, TrailerError> {
    match r {
        Ok(Status::Complete(n)) => Ok(Status::Complete(n + by)),
        other => other,
    }
}

proof fn lemma_line_scanned(s: Seq<u8>, tail: Seq<u8>, i: int, j: int, x: int)
    requires
        is_line_at(s, i, j, s.len() - 2),
        0 <= x <= s.len(),
    ensures
        state_in_line(s, i, j, s.len() - 2, x).scan((s + tail).skip(x)) == shifted(
            TrailerParser::Start.scan(tail),
            (s.len() - x) as nat,
        ),
    decreases s.len() - x,
{
    let all = s + tail;
    let k = s.len() - 2;
    if x == s.len() {
        assert(all.skip(x) =~= tail);
    } else {
        lemma_line_scanned(s, tail, i, j, x + 1);
        let b = all.skip(x)[0];
        assert(b == s[x]);
        assert(all.skip(x).skip(1) =~= all.skip(x + 1));
        if x < i {
            assert(s.take(i)[x] == b);
            assert(is_tchar(b));
        }
        assert(state_in_line(s, i, j, k, x).next(b) == Ok::<_, TrailerError>(
            Some(state_in_line(s, i, j, k, x + 1)),
        ));
    }
}

proof fn lemma_section_scanned(section: Seq<u8>, tail: Seq<u8>)
    requires
        is_trailer_section(section),
    ensures
        TrailerParser::Start.scan(section + tail) == Ok::<_, TrailerError>(
            Status::Complete(section.len()),
        ),
    decreases section.len(),
{
    let all = section + tail;
    if section == crlf() {
        assert(all[0] == CR && all.skip(1)[0] == LF);
        reveal_with_fuel(TrailerParser::scan, 3);
    } else {
        let n = choose|n: int|
            0 < n < section.len() && is_trailer_line(#[trigger] section.take(n))
                && is_trailer_section(section.skip(n));
        let line = section.take(n);
        let rest = section.skip(n);
        let (i, j) = choose|i: int, j: int| #[trigger] is_line_at(line, i, j, line.len() - 2);
        lemma_section_scanned(rest, tail);
        lemma_line_scanned(line, rest + tail, i, j, 0);
        assert((line + (rest + tail)).skip(0) =~= all);
    }
}

/// A parse is complete at `n` exactly where the first `n` bytes are a trailer
/// section; so there is at most one such `n`.
pub proof fn complete_at_the_end_of_the_section(buf: Seq<u8>, n: nat)
    ensures
        TrailerParser::Start.scan(buf) == Ok::<_, TrailerError>(Status::Complete(n)) <==> n
            <= buf.len() && is_trailer_section(buf.take(n as int)),
{
    if TrailerParser::Start.scan(buf) == Ok::<_, TrailerError>(Status::Complete(n)) {
        lemma_section_found(TrailerParser::Start, Seq::empty(), buf, n);
        assert(Seq::<u8>::empty() + buf.take(n as int) =~= buf.take(n as int));
    }
    if n <= buf.len() && is_trailer_section(buf.take(n as int)) {
        lemma_section_scanned(buf.take(n as int), buf.skip(n as int));
        assert(buf.take(n as int) + buf.skip(n as int) =~= buf);
    }
}

/// More bytes do not change what a parse has come to, once it is complete or
/// has failed.
pub proof fn verdict_is_final(state: TrailerParser, buf: Seq<u8>, more: Seq<u8>)
    requires
        state.scan(buf) != Ok::<_, TrailerError>(Status::<nat>::Partial),
    ensures
        state.scan(buf + more) == state.scan(buf),
    decreases buf.len(),
{
    assert((buf + more)[0] == buf[0]);
    assert((buf + more).skip(1) =~= buf.skip(1) + more);
    if let Ok(Some(next)) = state.next(buf[0]) {
        verdict_is_final(next, buf.skip(1), more);
    }
}

/// What each byte of a trailer section is, by what stands before it: at the start of a line,
/// a byte of a name or the return that starts the empty line; in a name, another byte of it
/// or the colon that ends it; behind the colon, a blank or the first byte of the value; in a
/// value, another byte of it, or, behind a byte that is no blank, the return that ends it;
/// and behind a return, the line feed. Any other byte is an error of the part that it stands
/// in.
pub proof fn bytes_belong_to_their_part(state: TrailerParser, b: u8)
    ensures
        match (state, state.next(b)) {
            (TrailerParser::Start, Ok(next)) => (b == 13 && next == Some(
                TrailerParser::NeedFinalNL,
            )) || (is_tchar(b) && next == Some(TrailerParser::InToken)),
            (TrailerParser::Start, Err(e)) => b != 13 && !is_tchar(b) && e
                == TrailerError::InvalidFieldName,
            (TrailerParser::InToken, Ok(next)) => (b == 58 && next == Some(
                TrailerParser::SkipFieldWhitespace,
            )) || (is_tchar(b) && next == Some(TrailerParser::InToken)),
            (TrailerParser::InToken, Err(e)) => b != 58 && !is_tchar(b) && e
                == TrailerError::InvalidFieldName,
            (TrailerParser::SkipFieldWhitespace, Ok(next)) => ((b == 32 || b == 9) && next == Some(
                TrailerParser::SkipFieldWhitespace,
            )) || (is_field_vchar(b) && next == Some(TrailerParser::InFieldValue { can_end: true })),
            (TrailerParser::SkipFieldWhitespace, Err(e)) => b != 32 && b != 9 && !is_field_vchar(b)
                && e == TrailerError::InvalidFieldValue,
            (TrailerParser::InFieldValue { can_end }, Ok(next)) => {
                ||| can_end && b == 13 && next == Some(TrailerParser::NeedFieldLineNL)
                ||| (b == 32 || b == 9) && next == Some(
                    TrailerParser::InFieldValue { can_end: false },
                )
                ||| is_field_vchar(b) && next == Some(TrailerParser::InFieldValue { can_end: true })
            },
            (TrailerParser::InFieldValue { can_end }, Err(e)) => !(can_end && b == 13) && b != 32
                && b != 9 && !is_field_vchar(b) && e == TrailerError::InvalidFieldValue,
            (TrailerParser::NeedFieldLineNL, Ok(next)) => b == 10 && next == Some(
                TrailerParser::Start,
            ),
            (TrailerParser::NeedFieldLineNL, Err(e)) => b != 10 && e
                == TrailerError::InvalidFieldValue,
            (TrailerParser::NeedFinalNL, Ok(next)) => b == 10 && next is None,
            (TrailerParser::NeedFinalNL, Err(e)) => b != 10 && e
                == TrailerError::InvalidTrailerFooter,
        },
{
}

/// A section is scanned byte by byte: it is incomplete where no byte is left; the first byte
/// that is wrong is its error, whatever follows; and where it ends with its first byte, it
/// has that length, and otherwise one more than the rest has.
pub proof fn sections_are_scanned_byte_by_byte(state: TrailerParser, b: u8, rest: Seq<u8>)
    ensures
        state.scan(Seq::empty()) == Ok::<_, TrailerError>(Status::<nat>::Partial),
        match state.next(b) {
            Err(e) => state.scan(seq![b] + rest) == Err::<Status<nat>, _>(e),
            Ok(None) => state.scan(seq![b] + rest) == Ok::<_, TrailerError>(
                Status::Complete(1nat),
            ),
            Ok(Some(next)) => match next.scan(rest) {
                Err(e) => state.scan(seq![b] + rest) == Err::<Status<nat>, _>(e),
                Ok(Status::Partial) => state.scan(seq![b] + rest) == Ok::<_, TrailerError>(
                    Status::<nat>::Partial,
                ),
                Ok(Status::Complete(n)) => state.scan(seq![b] + rest) == Ok::<_, TrailerError>(
                    Status::Complete(n + 1),
                ),
            },
        },
{
    let all = seq![b] + rest;
    assert(all[0] == b);
    assert(all.skip(1) =~= rest);
}

} // verus!
