//! Header fields.
use bytes::Bytes;
use vstd::prelude::*;
use vstd::slice::slice_subrange;
use vstd::string::*;

use crate::http_message::framing::{
    is_content_length, is_transfer_encoding, names_content_length, names_transfer_encoding,
    ParsedFraming,
};
use crate::http_message::version::HttpVersion;
use crate::octets::octets;
use crate::parse::{all_tchars, is_all_tchars};
use crate::text::{
    ascii, ascii_bytes, eq_ignore_ascii_case, from_utf8_lossy, lossy_text, parse_u64, same_bytes,
    same_ignoring_case, trim_ascii, trimmed, u64_of,
};

verus! {

/// Errors in the headers that frame a message.
#[derive(Debug)]
pub enum HeaderError {
    /// A `content-length` whose value is no number.
    InvalidContentLength(String),
    /// At least two `content-length` headers, with these values.
    MultipleContentLength(u64, u64),
    /// Multiple `transfer-encoding` headers.
    MultipleTransferEncodingHeaders,
    /// A `transfer-encoding` other than `chunked`.
    UnsupportedTransferEncoding(String),
    /// Both `transfer-encoding` and `content-length` headers are present.
    BothTeAndCl,
}

/// The model of a [`HeaderError`].
pub enum HeaderErrorView {
    InvalidContentLength(Seq<char>),
    MultipleContentLength(u64, u64),
    MultipleTransferEncodingHeaders,
    UnsupportedTransferEncoding(Seq<char>),
    BothTeAndCl,
}

impl View for HeaderError {
    type V = HeaderErrorView;

    open spec fn view(&self) -> HeaderErrorView {
        match *self {
            HeaderError::InvalidContentLength(s) => HeaderErrorView::InvalidContentLength(s@),
            HeaderError::MultipleContentLength(a, b) => HeaderErrorView::MultipleContentLength(
                a,
                b,
            ),
            HeaderError::MultipleTransferEncodingHeaders => {
                HeaderErrorView::MultipleTransferEncodingHeaders
            },
            HeaderError::UnsupportedTransferEncoding(s) => {
                HeaderErrorView::UnsupportedTransferEncoding(s@)
            },
            HeaderError::BothTeAndCl => HeaderErrorView::BothTeAndCl,
        }
    }
}

/// A `connection` header that is no list of tokens.
#[derive(Debug, Clone, Copy, PartialEq, Eq, Structural)]
pub enum ConnectionTokenParserError {
    /// An element of the list holds a character that a token may not.
    InvalidToken,
}

/// The name and the value of a header field.
pub type Field = (Seq<u8>, Seq<u8>);

/// The name and the value that a pair of byte strings holds.
pub open spec fn field_of(pair: (Bytes, Bytes)) -> Field {
    (octets(pair.0), octets(pair.1))
}

/// The fields that pairs of byte strings hold.
pub open spec fn fields_of(pairs: Seq<(Bytes, Bytes)>) -> Seq<Field> {
    pairs.map_values(|pair: (Bytes, Bytes)| field_of(pair))
}

/// What the rest of the fields say of the framing of a message, after a
/// length of `cl` and, where `te` holds, the chunked encoding were seen.
pub open spec fn framing_after(fields: Seq<Field>, cl: Option<u64>, te: bool) -> Result<
    ParsedFraming,
    HeaderErrorView,
>
    decreases fields.len(),
{
    if fields.len() == 0 {
        match cl {
            None => Ok(
                if te {
                    ParsedFraming::Chunked
                } else {
                    ParsedFraming::NoFraming
                },
            ),
            Some(l) => if te {
                Err(HeaderErrorView::BothTeAndCl)
            } else {
                Ok(ParsedFraming::Length(l))
            },
        }
    } else {
        let (name, value) = fields[0];
        let rest = fields.skip(1);
        if is_content_length(name) {
            match (u64_of(trimmed(value)), cl) {
                (None, _) => Err(
                    HeaderErrorView::InvalidContentLength(lossy_text(trimmed(value))),
                ),
                (Some(l), Some(before)) => Err(HeaderErrorView::MultipleContentLength(before, l)),
                (Some(l), None) => framing_after(rest, Some(l), te),
            }
        } else if is_transfer_encoding(name) {
            if trimmed(value) != ascii("chunked") {
                Err(HeaderErrorView::UnsupportedTransferEncoding(lossy_text(trimmed(value))))
            } else if te {
                Err(HeaderErrorView::MultipleTransferEncodingHeaders)
            } else {
                framing_after(rest, cl, true)
            }
        } else {
            framing_after(rest, cl, te)
        }
    }
}

/// What the fields say of the framing of a message.
pub open spec fn framing_of(fields: Seq<Field>) -> Result<ParsedFraming, HeaderErrorView> {
    framing_after(fields, None, false)
}

/// The position of the first field of this name, in any case.
pub open spec fn find_field(fields: Seq<Field>, name: Seq<u8>) -> Option<nat>
    decreases fields.len(),
{
    if fields.len() == 0 {
        None
    } else if same_ignoring_case(name, fields[0].0) {
        Some(0)
    } else {
        match find_field(fields.skip(1), name) {
            None => None,
            Some(i) => Some(i + 1),
        }
    }
}

/// The items of `s` whose mark is `want`, in order.
pub open spec fn marked<T>(s: Seq<T>, marks: Seq<bool>, want: bool) -> Seq<T>
    decreases s.len(),
{
    if s.len() == 0 || marks.len() != s.len() {
        Seq::empty()
    } else {
        let before = marked(s.drop_last(), marks.drop_last(), want);
        if marks.last() == want {
            before.push(s.last())
        } else {
            before
        }
    }
}

/// `all` is split by what `pred` says of each item, in order.
pub open spec fn partitioned<P>(
    pred: P,
    all: Seq<(Bytes, Bytes)>,
    removed: Seq<(Bytes, Bytes)>,
    kept: Seq<(Bytes, Bytes)>,
) -> bool where P: Fn(&(Bytes, Bytes)) -> bool {
    exists|marks: Seq<bool>|
        {
            &&& marks.len() == all.len()
            &&& forall|i: int|
                0 <= i < all.len() ==> call_ensures(pred, (&#[trigger] all[i],), marks[i])
            &&& removed == #[trigger] marked(all, marks, true)
            &&& kept == marked(all, marks, false)
        }
}

/// Where the first comma stands, or the length where there is none.
pub open spec fn comma(s: Seq<u8>) -> nat
    decreases s.len(),
{
    if s.len() == 0 || s[0] == ',' as u8 {
        0
    } else {
        comma(s.skip(1)) + 1
    }
}

/// The elements of a comma-separated list, without the whitespace around them.
pub open spec fn list_elements(s: Seq<u8>) -> Seq<Seq<u8>>
    decreases s.len(),
{
    let i = comma(s);
    if i >= s.len() {
        seq![trimmed(s)]
    } else {
        seq![trimmed(s.take(i as int))] + list_elements(s.skip(i as int + 1))
    }
}

/// The elements of all `connection` fields, in order.
pub open spec fn connection_options(fields: Seq<Field>) -> Seq<Seq<u8>>
    decreases fields.len(),
{
    if fields.len() == 0 {
        Seq::empty()
    } else {
        let before = connection_options(fields.drop_last());
        if same_ignoring_case(fields.last().0, ascii("connection")) {
            before + list_elements(fields.last().1)
        } else {
            before
        }
    }
}

/// Every element of the list is a token or empty.
pub open spec fn all_tokens(elements: Seq<Seq<u8>>) -> bool {
    forall|i: int| 0 <= i < elements.len() ==> all_tchars(#[trigger] elements[i])
}

/// The list has this element, in any case.
pub open spec fn has_option(elements: Seq<Seq<u8>>, option: Seq<u8>) -> bool {
    exists|i: int| 0 <= i < elements.len() && same_ignoring_case(#[trigger] elements[i], option)
}

/// Whether the connection stays open after a message with these fields (RFC
/// 9112 section 9.3): `close` ends it; otherwise it stays open from HTTP/1.1
/// on, and in HTTP/1.0 where `keep-alive` asks for it.
pub open spec fn persistent(fields: Seq<Field>, version: HttpVersion) -> Result<
    bool,
    ConnectionTokenParserError,
> {
    let options = connection_options(fields);
    if !all_tokens(options) {
        Err(ConnectionTokenParserError::InvalidToken)
    } else {
        Ok(
            !has_option(options, ascii("close")) && (version == HttpVersion::Http11 || has_option(
                options,
                ascii("keep-alive"),
            )),
        )
    }
}

/// An iterator over header fields.
pub struct HeaderIter<'s> {
    position: usize,
    spans: &'s [(Bytes, Bytes)],
}

impl<'s> HeaderIter<'s> {
    /// The pairs that are still to come.
    pub closed spec fn rest(&self) -> Seq<(Bytes, Bytes)> {
        if self.position <= self.spans@.len() {
            self.spans@.skip(self.position as int)
        } else {
            Seq::empty()
        }
    }

    /// An iterator over the headers in `spans`.
    pub fn new(spans: &'s [(Bytes, Bytes)]) -> (r: Self)
        ensures
            r.rest() == spans@,
    {
        assert(spans@.skip(0) =~= spans@);
        Self { position: 0, spans }
    }

    /// The next header, `None` after the last.
    pub fn next(&mut self) -> (r: Option<&'s (Bytes, Bytes)>)
        ensures
            match r {
                None => old(self).rest().len() == 0 && final(self).rest() == old(self).rest(),
                Some(pair) => old(self).rest().len() > 0 && *pair == old(self).rest()[0]
                    && final(self).rest() == old(self).rest().skip(1),
            },
    {
        if self.position >= self.spans.len() {
            return None;
        }
        let p: usize = self.position;
        self.position = p + 1;
        assert(self.rest() =~= old(self).rest().skip(1));
        Some(&self.spans[p])
    }
}

/// The header fields of a message, in order.
#[derive(Debug, Clone)]
pub struct Headers {
    headers: Vec<(Bytes, Bytes)>,
}

impl View for Headers {
    type V = Seq<Field>;

    closed spec fn view(&self) -> Seq<Field> {
        fields_of(self.headers@)
    }
}

impl Default for Headers {
    fn default() -> (h: Self)
        ensures
            h@ == Seq::<Field>::empty(),
    {
        Headers::with_capacity(0)
    }
}

impl Headers {
    /// The byte strings that hold the fields.
    pub closed spec fn pairs(&self) -> Seq<(Bytes, Bytes)> {
        self.headers@
    }

    /// The view of the headers is the view of their byte strings.
    pub proof fn view_of_pairs(&self)
        ensures
            self@ == fields_of(self.pairs()),
    {
    }

    /// No fields, with room for `capacity`.
    pub fn with_capacity(capacity: usize) -> (h: Self)
        ensures
            h@ == Seq::<Field>::empty(),
    {
        let h = Self { headers: Vec::with_capacity(capacity) };
        assert(h@ =~= Seq::<Field>::empty());
        h
    }

    /// Add a field behind the others.
    pub fn push(&mut self, name: Bytes, value: Bytes)
        ensures
            final(self)@ == old(self)@.push((octets(name), octets(value))),
            final(self).pairs() == old(self).pairs().push((name, value)),
    {
        self.headers.push((name, value));
        assert(self@ =~= old(self)@.push((octets(name), octets(value))));
    }

    /// The number of fields.
    pub fn len(&self) -> (n: usize)
        ensures
            n == self@.len(),
    {
        self.headers.len()
    }

    /// The name and the value of the field at position `i`.
    pub fn field(&self, i: usize) -> (r: (&[u8], &[u8]))
        requires
            i < self@.len(),
        ensures
            (r.0@, r.1@) == self@[i as int],
    {
        let pair = &self.headers[i];
        (&pair.0, &pair.1)
    }

    /// An iterator over the fields.
    pub fn iter(&self) -> (r: HeaderIter<'_>)
        ensures
            r.rest() == self.pairs(),
    {
        HeaderIter::new(self.headers.as_slice())
    }

    /// The value of the first field of this name, in any case.
    pub fn get_header(&self, needle: &str) -> (r: Option<&Bytes>)
        ensures
            match r {
                None => find_field(self@, needle.spec_bytes()) is None,
                Some(value) => find_field(self@, needle.spec_bytes()) matches Some(i) && i
                    < self@.len() && octets(*value) == self@[i as int].1,
            },
    {
        let needle_bytes = needle.as_bytes();
        let mut i: usize = 0;
        assert(self@.skip(0) =~= self@);
        while i < self.headers.len()
            invariant
                i <= self@.len(),
                self@.len() == self.headers@.len(),
                needle_bytes@ == needle.spec_bytes(),
                find_field(self@, needle_bytes@) == (match find_field(
                    self@.skip(i as int),
                    needle_bytes@,
                ) {
                    None => None::<nat>,
                    Some(k) => Some((k + i) as nat),
                }),
            decreases self@.len() - i,
        {
            let pair = &self.headers[i];
            assert(self@.skip(i as int)[0] == field_of(*pair));
            if eq_ignore_ascii_case(needle_bytes, &pair.0) {
                return Some(&pair.1);
            }
            assert(self@.skip(i as int).skip(1) =~= self@.skip(i + 1));
            i = i + 1;
        }
        None
    }

    /// How the fields frame the message. A message that states more than one
    /// framing is an error.
    pub fn framing(&self) -> (r: Result<ParsedFraming, HeaderError>)
        ensures
            match r {
                Ok(f) => framing_of(self@) == Ok::<_, HeaderErrorView>(f),
                Err(e) => framing_of(self@) == Err::<ParsedFraming, _>(e@),
            },
    {
        let mut cl: Option<u64> = None;
        let mut te = false;
        let mut i: usize = 0;
        assert(self@.skip(0) =~= self@);
        proof {
            reveal_strlit("chunked");
        }
        let chunked = ascii_bytes("chunked");
        while i < self.len()
            invariant
                i <= self@.len(),
                chunked@ == ascii("chunked"),
                framing_of(self@) == framing_after(self@.skip(i as int), cl, te),
            decreases self@.len() - i,
        {
            let (name, value) = self.field(i);
            assert(self@.skip(i as int)[0] == (name@, value@));
            assert(self@.skip(i as int).skip(1) =~= self@.skip(i + 1));
            if names_content_length(name) {
                let value = trim_ascii(value);
                match parse_u64(value) {
                    None => {
                        return Err(HeaderError::InvalidContentLength(from_utf8_lossy(value)));
                    },
                    Some(cl_val) => {
                        if let Some(old_cl_val) = cl {
                            return Err(HeaderError::MultipleContentLength(old_cl_val, cl_val));
                        }
                        cl = Some(cl_val);
                    },
                }
            } else if names_transfer_encoding(name) {
                let te_value = trim_ascii(value);
                if !same_bytes(te_value, chunked) {
                    return Err(
                        HeaderError::UnsupportedTransferEncoding(from_utf8_lossy(te_value)),
                    );
                }
                if te {
                    return Err(HeaderError::MultipleTransferEncodingHeaders);
                }
                te = true;
            }
            i = i + 1;
        }
        match (cl, te) {
            (None, true) => Ok(ParsedFraming::Chunked),
            (None, false) => Ok(ParsedFraming::NoFraming),
            (Some(_), true) => Err(HeaderError::BothTeAndCl),
            (Some(cl), false) => Ok(ParsedFraming::Length(cl)),
        }
    }

    /// Take out the fields on which `pred` holds. Both the fields that stay
    /// and the fields that are handed out keep their order.
    pub fn remove<P>(&mut self, pred: P) -> (removed: Self) where P: Fn(&(Bytes, Bytes)) -> bool
        requires
            forall|pair: (Bytes, Bytes)| call_requires(pred, (&pair,)),
        ensures
            partitioned(pred, old(self).pairs(), removed.pairs(), final(self).pairs()),
    {
        let mut keep: Vec<(Bytes, Bytes)> = Vec::new();
        let mut remove: Vec<(Bytes, Bytes)> = Vec::new();
        let ghost all = self.headers@;
        let ghost mut marks: Seq<bool> = Seq::empty();
        let mut from: Vec<(Bytes, Bytes)> = Vec::new();
        std::mem::swap(&mut from, &mut self.headers);
        let ghost mut n: int = 0;
        // The fields are taken from the back of the reversed list.
        let mut rest = reversed(from);
        proof {
            assert(rest@.reverse() =~= all);
            assert(all.take(0) =~= Seq::empty());
        }
        while rest.len() > 0
            invariant
                forall|pair: (Bytes, Bytes)| call_requires(pred, (&pair,)),
                0 <= n <= all.len(),
                rest@.len() == all.len() - n,
                forall|i: int| 0 <= i < rest@.len() ==> rest@[i] == all[all.len() - 1 - i],
                marks.len() == n,
                forall|i: int| 0 <= i < n ==> call_ensures(pred, (&#[trigger] all[i],), marks[i]),
                remove@ == marked(all.take(n), marks, true),
                keep@ == marked(all.take(n), marks, false),
            decreases rest@.len(),
        {
            match rest.pop() {
                None => {},
                Some(pair) => {
                    assert(pair == all[n]);
                    let hit = pred(&pair);
                    proof {
                        let before = marks;
                        marks = marks.push(hit);
                        n = n + 1;
                        assert(all.take(n).drop_last() =~= all.take(n - 1));
                        assert(marks.drop_last() =~= before);
                    }
                    if hit {
                        remove.push(pair);
                    } else {
                        keep.push(pair);
                    }
                },
            }
        }
        assert(all.take(n) =~= all);
        self.headers = keep;
        assert(remove@ == marked(old(self).pairs(), marks, true));
        Self { headers: remove }
    }

    /// Whether the connection stays open after a message of this version with
    /// these headers.
    pub fn connection_is_persistent(&self, version: HttpVersion) -> (r: Result<
        bool,
        ConnectionTokenParserError,
    >)
        ensures
            r == persistent(self@, version),
    {
        let mut close = false;
        let mut keep_alive = false;
        let mut i: usize = 0;
        assert(self@.take(0) =~= Seq::<Field>::empty());
        proof {
            reveal_strlit("connection");
        }
        let connection = ascii_bytes("connection");
        while i < self.len()
            invariant
                i <= self@.len(),
                connection@ == ascii("connection"),
                all_tokens(connection_options(self@.take(i as int))),
                close == has_option(connection_options(self@.take(i as int)), ascii("close")),
                keep_alive == has_option(
                    connection_options(self@.take(i as int)),
                    ascii("keep-alive"),
                ),
            decreases self@.len() - i,
        {
            let (name, value) = self.field(i);
            let ghost before = connection_options(self@.take(i as int));
            let ghost after = connection_options(self@.take(i + 1));
            assert(self@.take(i + 1).drop_last() =~= self@.take(i as int));
            assert(self@.take(i + 1).last() == (name@, value@));
            if eq_ignore_ascii_case(name, connection) {
                let options = scan_options(value);
                assert(after == before + list_elements(value@));
                proof {
                    lemma_options_concat(before, list_elements(value@));
                }
                match options {
                    None => {
                        proof {
                            lemma_options_prefix(self@, i + 1);
                        }
                        return Err(ConnectionTokenParserError::InvalidToken);
                    },
                    Some((c, k)) => {
                        close = close || c;
                        keep_alive = keep_alive || k;
                    },
                }
            }
            i = i + 1;
        }
        assert(self@.take(i as int) =~= self@);
        Ok(!close && (version == HttpVersion::Http11 || keep_alive))
    }

    /// The byte strings that hold the fields.
    pub fn into_inner(self) -> (r: Vec<(Bytes, Bytes)>)
        ensures
            r@ == self.pairs(),
    {
        let Self { headers } = self;
        headers
    }
}

fn reversed(mut from: Vec<(Bytes, Bytes)>) -> (r: Vec<(Bytes, Bytes)>)
    ensures
        r@ == from@.reverse(),
{
    let ghost all = from@;
    let mut r: Vec<(Bytes, Bytes)> = Vec::new();
    while from.len() > 0
        invariant
            from@.len() + r@.len() == all.len(),
            from@ == all.take(from@.len() as int),
            forall|i: int| 0 <= i < r@.len() ==> r@[i] == all[all.len() - 1 - i],
        decreases from@.len(),
    {
        if let Some(pair) = from.pop() {
            r.push(pair);
        }
    }
    assert(r@ =~= all.reverse());
    r
}

proof fn lemma_options_concat(a: Seq<Seq<u8>>, b: Seq<Seq<u8>>)
    ensures
        all_tokens(a + b) == (all_tokens(a) && all_tokens(b)),
        forall|o: Seq<u8>| #[trigger]
            has_option(a + b, o) == (has_option(a, o) || has_option(b, o)),
{
    let c = a + b;
    assert(forall|i: int| 0 <= i < a.len() ==> #[trigger] a[i] == c[i]);
    assert(forall|i: int| 0 <= i < b.len() ==> #[trigger] b[i] == c[a.len() + i]);
    assert forall|o: Seq<u8>| #[trigger] has_option(c, o) == (has_option(a, o) || has_option(b, o)) by {
        if has_option(c, o) {
            let i = choose|i: int| 0 <= i < c.len() && same_ignoring_case(#[trigger] c[i], o);
            if i < a.len() {
                assert(same_ignoring_case(a[i], o));
            } else {
                assert(same_ignoring_case(b[i - a.len()], o));
            }
        }
    }
    if all_tokens(a) && all_tokens(b) {
        assert forall|i: int| 0 <= i < c.len() implies all_tchars(#[trigger] c[i]) by {
            if i < a.len() {
                assert(c[i] == a[i]);
            } else {
                assert(c[i] == b[i - a.len()]);
            }
        }
    }
}

proof fn lemma_options_prefix(fields: Seq<Field>, n: int)
    requires
        0 <= n <= fields.len(),
    ensures
        !all_tokens(connection_options(fields.take(n))) ==> !all_tokens(connection_options(fields)),
    decreases fields.len(),
{
    if n == fields.len() {
        assert(fields.take(n) =~= fields);
    } else {
        assert(fields.drop_last().take(n) =~= fields.take(n));
        lemma_options_prefix(fields.drop_last(), n);
        lemma_options_concat(
            connection_options(fields.drop_last()),
            list_elements(fields.last().1),
        );
    }
}

/// Whether the list has `close` and `keep-alive`; `None` where it has an
/// element that is no token.
fn scan_options(value: &[u8]) -> (r: Option<(bool, bool)>)
    ensures
        match r {
            None => !all_tokens(list_elements(value@)),
            Some((close, keep_alive)) => {
                &&& all_tokens(list_elements(value@))
                &&& close == has_option(list_elements(value@), ascii("close"))
                &&& keep_alive == has_option(list_elements(value@), ascii("keep-alive"))
            },
        },
    decreases value@.len(),
{
    proof {
        reveal_strlit("close");
        reveal_strlit("keep-alive");
    }
    let close_option = ascii_bytes("close");
    let keep_alive_option = ascii_bytes("keep-alive");
    let at = find_comma(value);
    let element = trim_ascii(slice_subrange(value, 0, at));
    assert(value@.subrange(0, at as int) =~= value@.take(at as int));
    let ghost first = seq![element@];
    proof {
        assert(first[0] == element@);
        if at as int == value@.len() {
            assert(value@.take(at as int) =~= value@);
            assert(list_elements(value@) =~= first);
        } else {
            lemma_options_concat(first, list_elements(value@.skip(at + 1)));
        }
    }
    if !is_all_tchars(element) {
        assert(!all_tokens(first));
        return None;
    }
    let mut close = eq_ignore_ascii_case(element, close_option);
    let mut keep_alive = eq_ignore_ascii_case(element, keep_alive_option);
    proof {
        assert(all_tokens(first));
        assert(close == has_option(first, ascii("close"))) by {
            if close {
                assert(same_ignoring_case(first[0], ascii("close")));
            }
        }
        assert(keep_alive == has_option(first, ascii("keep-alive"))) by {
            if keep_alive {
                assert(same_ignoring_case(first[0], ascii("keep-alive")));
            }
        }
    }
    if at < value.len() {
        let rest = slice_subrange(value, at + 1, value.len());
        assert(rest@ =~= value@.skip(at + 1));
        match scan_options(rest) {
            None => return None,
            Some((c, k)) => {
                close = close || c;
                keep_alive = keep_alive || k;
            },
        }
    }
    Some((close, keep_alive))
}

fn find_comma(s: &[u8]) -> (i: usize)
    ensures
        i == comma(s@),
        i <= s@.len(),
{
    let mut i: usize = 0;
    assert(s@.skip(0) =~= s@);
    while i < s.len() && s[i] != ',' as u8
        invariant
            i <= s@.len(),
            comma(s@) == comma(s@.skip(i as int)) + i,
        decreases s@.len() - i,
    {
        assert(s@.skip(i as int).skip(1) =~= s@.skip(i + 1));
        i = i + 1;
    }
    i
}

/// How many of the fields state a length.
pub open spec fn lengths_stated(fields: Seq<Field>) -> nat
    decreases fields.len(),
{
    if fields.len() == 0 {
        0
    } else {
        lengths_stated(fields.skip(1)) + (if is_content_length(fields[0].0) {
            1nat
        } else {
            0
        })
    }
}

/// How many of the fields state a transfer coding.
pub open spec fn codings_stated(fields: Seq<Field>) -> nat
    decreases fields.len(),
{
    if fields.len() == 0 {
        0
    } else {
        codings_stated(fields.skip(1)) + (if is_transfer_encoding(fields[0].0) {
            1nat
        } else {
            0
        })
    }
}

/// The two names are not the same.
proof fn lemma_names_differ(name: Seq<u8>)
    ensures
        !(is_content_length(name) && is_transfer_encoding(name)),
{
    reveal_strlit("content-length");
    reveal_strlit("transfer-encoding");
}

proof fn lemma_framing_counts(fields: Seq<Field>, cl: Option<u64>, te: bool)
    ensures
        ({
            let lengths = lengths_stated(fields) + (if cl is Some { 1nat } else { 0 });
            let codings = codings_stated(fields) + (if te { 1nat } else { 0 });
            match framing_after(fields, cl, te) {
                Ok(ParsedFraming::NoFraming) => lengths == 0 && codings == 0,
                Ok(ParsedFraming::Length(l)) => {
                    &&& lengths == 1 && codings == 0
                    &&& cl is Some ==> cl == Some(l)
                    &&& forall|i: int|
                        0 <= i < fields.len() && is_content_length((#[trigger] fields[i]).0)
                            ==> u64_of(trimmed(fields[i].1)) == Some(l)
                },
                Ok(ParsedFraming::Chunked) => {
                    &&& lengths == 0 && codings == 1
                    &&& forall|i: int|
                        0 <= i < fields.len() && is_transfer_encoding((#[trigger] fields[i]).0)
                            ==> trimmed(fields[i].1) == ascii("chunked")
                },
                Err(_) => lengths + codings >= 1,
            }
        }),
    decreases fields.len(),
{
    if fields.len() > 0 {
        let (name, value) = fields[0];
        let rest = fields.skip(1);
        lemma_names_differ(name);
        assert(forall|i: int| 0 < i < fields.len() ==> #[trigger] fields[i] == rest[i - 1]);
        if is_content_length(name) {
            if let Some(l) = u64_of(trimmed(value)) {
                lemma_framing_counts(rest, Some(l), te);
            }
        } else if is_transfer_encoding(name) {
            lemma_framing_counts(rest, cl, true);
        } else {
            lemma_framing_counts(rest, cl, te);
        }
    }
}

/// A message is framed only where its fields state one framing, once: a message
/// with two lengths, two transfer codings, or one of each, is refused, whatever
/// they are. What is stated is what the framing says.
pub proof fn framing_is_stated_once(fields: Seq<Field>)
    ensures
        match framing_of(fields) {
            Ok(ParsedFraming::NoFraming) => lengths_stated(fields) == 0 && codings_stated(fields)
                == 0,
            Ok(ParsedFraming::Length(l)) => {
                &&& lengths_stated(fields) == 1 && codings_stated(fields) == 0
                &&& forall|i: int|
                    0 <= i < fields.len() && is_content_length((#[trigger] fields[i]).0) ==> u64_of(
                        trimmed(fields[i].1),
                    ) == Some(l)
            },
            Ok(ParsedFraming::Chunked) => {
                &&& lengths_stated(fields) == 0 && codings_stated(fields) == 1
                &&& forall|i: int|
                    0 <= i < fields.len() && is_transfer_encoding((#[trigger] fields[i]).0)
                        ==> trimmed(fields[i].1) == ascii("chunked")
            },
            Err(_) => lengths_stated(fields) + codings_stated(fields) >= 1,
        },
        lengths_stated(fields) + codings_stated(fields) >= 2 ==> framing_of(fields) is Err,
{
    lemma_framing_counts(fields, None, false);
}

/// Taking fields out loses none: every field either stays or is handed out.
pub proof fn removed_and_kept_are_all<T>(s: Seq<T>, marks: Seq<bool>)
    requires
        marks.len() == s.len(),
    ensures
        marked(s, marks, true).len() + marked(s, marks, false).len() == s.len(),
        marked(s, marks, true).to_multiset().add(marked(s, marks, false).to_multiset())
            == s.to_multiset(),
    decreases s.len(),
{
    broadcast use vstd::seq_lib::group_to_multiset_ensures;

    if s.len() > 0 {
        removed_and_kept_are_all(s.drop_last(), marks.drop_last());
        assert(s =~= s.drop_last().push(s.last()));
    }
    assert(marked(s, marks, true).to_multiset().add(marked(s, marks, false).to_multiset())
        =~= s.to_multiset());
}

/// The field that is found is the first of its name, in any case; and none is found only
/// where there is none.
pub proof fn first_of_the_name_is_found(fields: Seq<Field>, name: Seq<u8>)
    ensures
        match find_field(fields, name) {
            Some(i) => {
                &&& i < fields.len()
                &&& same_ignoring_case(name, fields[i as int].0)
                &&& forall|k: int|
                    0 <= k < i ==> !same_ignoring_case(name, (#[trigger] fields[k]).0)
            },
            None => forall|k: int|
                0 <= k < fields.len() ==> !same_ignoring_case(name, (#[trigger] fields[k]).0),
        },
    decreases fields.len(),
{
    if fields.len() > 0 && !same_ignoring_case(name, fields[0].0) {
        let rest = fields.skip(1);
        first_of_the_name_is_found(rest, name);
        assert forall|k: int| 0 < k < fields.len() implies #[trigger] fields[k] == rest[k - 1] by {}
    }
}

/// The value that is looked up is that of the first field of the name, in any case.
pub proof fn first_value_of_the_name_is_given(h: &Headers, needle: &str, r: Option<&Bytes>)
    requires
        call_ensures(Headers::get_header, (h, needle), r),
    ensures
        match r {
            Some(value) => exists|i: int|
                {
                    &&& 0 <= i < h@.len()
                    &&& same_ignoring_case(needle.spec_bytes(), (#[trigger] h@[i]).0)
                    &&& octets(*value) == h@[i].1
                    &&& forall|k: int|
                        0 <= k < i ==> !same_ignoring_case(
                            needle.spec_bytes(),
                            (#[trigger] h@[k]).0,
                        )
                },
            None => forall|k: int|
                0 <= k < h@.len() ==> !same_ignoring_case(
                    needle.spec_bytes(),
                    (#[trigger] h@[k]).0,
                ),
        },
{
    first_of_the_name_is_found(h@, needle.spec_bytes());
    if let Some(i) = find_field(h@, needle.spec_bytes()) {
        assert(same_ignoring_case(needle.spec_bytes(), h@[i as int].0));
    }
}

proof fn lemma_skipped_fields(fields: Seq<Field>, cl: Option<u64>, te: bool, n: int)
    requires
        0 <= n <= fields.len(),
        forall|i: int|
            0 <= i < n ==> !same_ignoring_case((#[trigger] fields[i]).0, ascii("content-length"))
                && !same_ignoring_case(fields[i].0, ascii("transfer-encoding")),
    ensures
        framing_after(fields, cl, te) == framing_after(fields.skip(n), cl, te),
    decreases n,
{
    if n == 0 {
        assert(fields.skip(0) =~= fields);
    } else {
        let rest = fields.skip(1);
        assert(!same_ignoring_case(fields[0].0, ascii("content-length")));
        assert forall|i: int| 0 <= i < n - 1 implies !same_ignoring_case(
            (#[trigger] rest[i]).0,
            ascii("content-length"),
        ) && !same_ignoring_case(rest[i].0, ascii("transfer-encoding")) by {
            assert(rest[i] == fields[i + 1]);
        }
        lemma_skipped_fields(rest, cl, te, n - 1);
        assert(rest.skip(n - 1) =~= fields.skip(n));
    }
}

/// A field that neither states a length nor a transfer coding.
pub open spec fn frames_nothing(f: Field) -> bool {
    !same_ignoring_case(f.0, ascii("content-length")) && !same_ignoring_case(
        f.0,
        ascii("transfer-encoding"),
    )
}

proof fn lemma_only_field(fields: Seq<Field>, at: int, cl: Option<u64>, te: bool)
    requires
        0 <= at < fields.len(),
        forall|i: int| 0 <= i < fields.len() && i != at ==> frames_nothing(#[trigger] fields[i]),
    ensures
        framing_after(fields, cl, te) == framing_after(seq![fields[at]], cl, te),
        forall|c: Option<u64>, t: bool| #[trigger]
            framing_after(fields.skip(at + 1), c, t) == framing_after(Seq::empty(), c, t),
        framing_after(fields, cl, te) == framing_after(fields.skip(at), cl, te),
{
    assert forall|i: int| 0 <= i < at implies !same_ignoring_case(
        (#[trigger] fields[i]).0,
        ascii("content-length"),
    ) && !same_ignoring_case(fields[i].0, ascii("transfer-encoding")) by {
        assert(frames_nothing(fields[i]));
    }
    lemma_skipped_fields(fields, cl, te, at);
    let tail = fields.skip(at);
    let rest = fields.skip(at + 1);
    assert(tail.skip(1) =~= rest);
    let none = Seq::<Field>::empty();
    assert forall|c: Option<u64>, t: bool| #[trigger]
        framing_after(rest, c, t) == framing_after(none, c, t) by {
        assert forall|i: int| 0 <= i < rest.len() implies !same_ignoring_case(
            (#[trigger] rest[i]).0,
            ascii("content-length"),
        ) && !same_ignoring_case(rest[i].0, ascii("transfer-encoding")) by {
            assert(frames_nothing(fields[at + 1 + i]));
        }
        lemma_skipped_fields(rest, c, t, rest.len() as int);
        assert(rest.skip(rest.len() as int) =~= none);
    }
    let one = seq![fields[at]];
    assert(one.skip(1) =~= none);
    assert(tail[0] == fields[at]);
    match u64_of(trimmed(fields[at].1)) {
        Some(l) => {
            assert(framing_after(rest, Some(l), te) == framing_after(none, Some(l), te));
        },
        None => {},
    }
    assert(framing_after(rest, cl, true) == framing_after(none, cl, true));
    assert(framing_after(rest, cl, te) == framing_after(none, cl, te));
}

/// Where no field states a length or a transfer coding, a message is not framed. Where one
/// alone does, the message is framed by it: with the length that its trimmed value writes,
/// or as chunked, where its trimmed value is that word; any other value is refused.
pub proof fn one_field_frames_a_message(fields: Seq<Field>, at: int)
    requires
        forall|i: int| 0 <= i < fields.len() && i != at ==> frames_nothing(#[trigger] fields[i]),
    ensures
        0 <= at < fields.len() && same_ignoring_case(fields[at].0, ascii("content-length"))
            ==> framing_of(fields) == (match u64_of(trimmed(fields[at].1)) {
            Some(n) => Ok::<_, HeaderErrorView>(ParsedFraming::Length(n)),
            None => Err(HeaderErrorView::InvalidContentLength(lossy_text(trimmed(fields[at].1)))),
        }),
        0 <= at < fields.len() && same_ignoring_case(fields[at].0, ascii("transfer-encoding"))
            ==> framing_of(fields) == (if trimmed(fields[at].1) == ascii("chunked") {
            Ok::<_, HeaderErrorView>(ParsedFraming::Chunked)
        } else {
            Err(
                HeaderErrorView::UnsupportedTransferEncoding(lossy_text(trimmed(fields[at].1))),
            )
        }),
        !(0 <= at < fields.len()) || frames_nothing(fields[at]) ==> framing_of(fields) == Ok::<
            _,
            HeaderErrorView,
        >(ParsedFraming::NoFraming),
{
    reveal_with_fuel(framing_after, 2);
    if 0 <= at < fields.len() {
        lemma_names_differ(fields[at].0);
        lemma_only_field(fields, at, None, false);
        assert(seq![fields[at]].skip(1) =~= Seq::empty());
    } else {
        assert forall|i: int| 0 <= i < fields.len() implies !same_ignoring_case(
            (#[trigger] fields[i]).0,
            ascii("content-length"),
        ) && !same_ignoring_case(fields[i].0, ascii("transfer-encoding")) by {
            assert(frames_nothing(fields[i]));
        }
        lemma_skipped_fields(fields, None, false, fields.len() as int);
        assert(fields.skip(fields.len() as int) =~= Seq::empty());
    }
}

/// Where two fields state valid framings, a message is refused, and told why: two lengths,
/// even the same, with both of them; two transfer codings; or one of each.
pub proof fn two_fields_do_not_frame_a_message(fields: Seq<Field>, i: int, j: int)
    requires
        0 <= i < j < fields.len(),
        forall|k: int|
            0 <= k < fields.len() && k != i && k != j ==> frames_nothing(#[trigger] fields[k]),
        !frames_nothing(fields[i]),
        !frames_nothing(fields[j]),
        same_ignoring_case(fields[i].0, ascii("content-length")) ==> u64_of(
            trimmed(fields[i].1),
        ) is Some,
        same_ignoring_case(fields[j].0, ascii("content-length")) ==> u64_of(
            trimmed(fields[j].1),
        ) is Some,
        same_ignoring_case(fields[i].0, ascii("transfer-encoding")) ==> trimmed(fields[i].1)
            == ascii("chunked"),
        same_ignoring_case(fields[j].0, ascii("transfer-encoding")) ==> trimmed(fields[j].1)
            == ascii("chunked"),
    ensures
        framing_of(fields) == Err::<ParsedFraming, _>(
            match (
                same_ignoring_case(fields[i].0, ascii("content-length")),
                same_ignoring_case(fields[j].0, ascii("content-length")),
            ) {
                (true, true) => HeaderErrorView::MultipleContentLength(
                    u64_of(trimmed(fields[i].1))->Some_0,
                    u64_of(trimmed(fields[j].1))->Some_0,
                ),
                (false, false) => HeaderErrorView::MultipleTransferEncodingHeaders,
                _ => HeaderErrorView::BothTeAndCl,
            },
        ),
{
    reveal_with_fuel(framing_after, 2);
    lemma_names_differ(fields[i].0);
    lemma_names_differ(fields[j].0);
    assert forall|k: int| 0 <= k < i implies !same_ignoring_case(
        (#[trigger] fields[k]).0,
        ascii("content-length"),
    ) && !same_ignoring_case(fields[k].0, ascii("transfer-encoding")) by {
        assert(frames_nothing(fields[k]));
    }
    lemma_skipped_fields(fields, None, false, i);
    let tail = fields.skip(i);
    let rest = fields.skip(i + 1);
    assert(tail[0] == fields[i]);
    assert(tail.skip(1) =~= rest);
    let at = j - i - 1;
    assert(rest[at] == fields[j]);
    assert forall|k: int| 0 <= k < rest.len() && k != at implies frames_nothing(
        #[trigger] rest[k],
    ) by {
        assert(rest[k] == fields[i + 1 + k]);
    }
    let cl = if is_content_length(fields[i].0) {
        u64_of(trimmed(fields[i].1))
    } else {
        None
    };
    let te = is_transfer_encoding(fields[i].0);
    lemma_only_field(rest, at, cl, te);
    assert(seq![rest[at]].skip(1) =~= Seq::empty());
}

/// What a predicate of the items themselves marks is what a filter keeps; what it does not
/// mark, what the filter drops: in order, and as often.
pub proof fn marked_items_are_filtered<T>(s: Seq<T>, marks: Seq<bool>, f: spec_fn(T) -> bool)
    requires
        marks.len() == s.len(),
        forall|i: int| 0 <= i < s.len() ==> #[trigger] marks[i] == f(s[i]),
    ensures
        marked(s, marks, true) == s.filter(f),
        marked(s, marks, false) == s.filter(|x: T| !f(x)),
    decreases s.len(),
{
    reveal(Seq::filter);
    if s.len() > 0 {
        assert forall|i: int| 0 <= i < s.drop_last().len() implies #[trigger] marks.drop_last()[i]
            == f(s.drop_last()[i]) by {
            assert(marks[i] == f(s[i]));
        }
        marked_items_are_filtered(s.drop_last(), marks.drop_last(), f);
        assert(marks[s.len() - 1] == f(s[s.len() - 1]));
    }
}

proof fn lemma_comma(a: Seq<u8>, b: Seq<u8>)
    requires
        forall|i: int| 0 <= i < a.len() ==> #[trigger] a[i] != ',' as u8,
    ensures
        comma(a) == a.len(),
        comma(a + seq![',' as u8] + b) == a.len(),
    decreases a.len(),
{
    let all = a + seq![',' as u8] + b;
    if a.len() == 0 {
        assert(all[0] == ',' as u8);
    } else {
        assert(a[0] != ',' as u8);
        assert(all[0] == a[0]);
        assert forall|i: int| 0 <= i < a.skip(1).len() implies #[trigger] a.skip(1)[i]
            != ',' as u8 by {
            assert(a[i + 1] != ',' as u8);
        }
        lemma_comma(a.skip(1), b);
        assert(all.skip(1) =~= a.skip(1) + seq![',' as u8] + b);
    }
}

/// A list is split at its commas, and the whitespace around each element is dropped.
pub proof fn lists_are_split_at_commas(a: Seq<u8>, b: Seq<u8>)
    requires
        forall|i: int| 0 <= i < a.len() ==> #[trigger] a[i] != ',' as u8,
    ensures
        list_elements(a) == seq![trimmed(a)],
        list_elements(a + seq![',' as u8] + b) == seq![trimmed(a)] + list_elements(b),
{
    lemma_comma(a, b);
    let all = a + seq![',' as u8] + b;
    assert(all.take(a.len() as int) =~= a);
    assert(all.skip(a.len() as int + 1) =~= b);
}

/// The options of a message are the elements of its `connection` fields, in any case, one
/// field after the other.
pub proof fn options_are_those_of_connection_fields(fields: Seq<Field>, f: Field)
    ensures
        connection_options(Seq::empty()) == Seq::<Seq<u8>>::empty(),
        connection_options(fields.push(f)) == connection_options(fields) + (if same_ignoring_case(
            f.0,
            ascii("connection"),
        ) {
            list_elements(f.1)
        } else {
            Seq::empty()
        }),
{
    assert(fields.push(f).drop_last() =~= fields);
    assert(connection_options(fields) + Seq::<Seq<u8>>::empty() =~= connection_options(fields));
}

proof fn lemma_option_is_in_a_field(fields: Seq<Field>, option: Seq<u8>)
    ensures
        has_option(connection_options(fields), option) <==> exists|i: int, k: int|
            0 <= i < fields.len() && same_ignoring_case(fields[i].0, ascii("connection")) && 0 <= k
                < list_elements(fields[i].1).len() && same_ignoring_case(
                #[trigger] list_elements(fields[i].1)[k],
                option,
            ),
        all_tokens(connection_options(fields)) <==> forall|i: int, k: int|
            0 <= i < fields.len() && same_ignoring_case(fields[i].0, ascii("connection")) && 0 <= k
                < list_elements(fields[i].1).len() ==> all_tchars(
                #[trigger] list_elements(fields[i].1)[k],
            ),
    decreases fields.len(),
{
    if fields.len() > 0 {
        let before = fields.drop_last();
        let last = fields.last();
        let n = fields.len() - 1;
        lemma_option_is_in_a_field(before, option);
        assert(fields =~= before.push(last));
        options_are_those_of_connection_fields(before, last);
        let own = if same_ignoring_case(last.0, ascii("connection")) {
            list_elements(last.1)
        } else {
            Seq::empty()
        };
        lemma_options_concat(connection_options(before), own);
        assert(forall|i: int| 0 <= i < n ==> #[trigger] before[i] == fields[i]);
        assert(fields[n] == last);
        if has_option(connection_options(before), option) {
            let (i, k) = choose|i: int, k: int|
                0 <= i < before.len() && same_ignoring_case(before[i].0, ascii("connection")) && 0
                    <= k < list_elements(before[i].1).len() && same_ignoring_case(
                    #[trigger] list_elements(before[i].1)[k],
                    option,
                );
            assert(same_ignoring_case(list_elements(fields[i].1)[k], option));
        }
        if has_option(own, option) {
            let k = choose|k: int|
                0 <= k < own.len() && same_ignoring_case(#[trigger] own[k], option);
            assert(same_ignoring_case(list_elements(fields[n].1)[k], option));
        }
        assert forall|i: int, k: int|
            0 <= i < fields.len() && same_ignoring_case(fields[i].0, ascii("connection")) && 0 <= k
                < list_elements(fields[i].1).len() && same_ignoring_case(
                #[trigger] list_elements(fields[i].1)[k],
                option,
            ) implies has_option(connection_options(before), option) || has_option(own, option) by {
            if i == n {
                assert(same_ignoring_case(own[k], option));
            } else {
                assert(same_ignoring_case(list_elements(before[i].1)[k], option));
            }
        }
        if all_tokens(connection_options(before)) && all_tokens(own) {
            assert forall|i: int, k: int|
                0 <= i < fields.len() && same_ignoring_case(fields[i].0, ascii("connection")) && 0
                    <= k < list_elements(fields[i].1).len() implies all_tchars(
                #[trigger] list_elements(fields[i].1)[k],
            ) by {
                if i == n {
                    assert(all_tchars(own[k]));
                } else {
                    assert(all_tchars(list_elements(before[i].1)[k]));
                }
            }
        }
        if forall|i: int, k: int|
            0 <= i < fields.len() && same_ignoring_case(fields[i].0, ascii("connection")) && 0 <= k
                < list_elements(fields[i].1).len() ==> all_tchars(
                #[trigger] list_elements(fields[i].1)[k],
            ) {
            assert forall|i: int, k: int|
                0 <= i < before.len() && same_ignoring_case(before[i].0, ascii("connection")) && 0
                    <= k < list_elements(before[i].1).len() implies all_tchars(
                #[trigger] list_elements(before[i].1)[k],
            ) by {
                assert(all_tchars(list_elements(fields[i].1)[k]));
            }
            assert forall|k: int| 0 <= k < own.len() implies all_tchars(#[trigger] own[k]) by {
                assert(all_tchars(list_elements(fields[n].1)[k]));
            }
        }
    } else {
        assert(connection_options(fields) =~= Seq::empty());
    }
}

/// A connection of the later version persists exactly where no option of the message is
/// `close`, whatever other options it has; one of the earlier version, where besides one is
/// `keep-alive`. An option that is no token is refused, and nothing else is.
pub proof fn close_alone_ends_a_connection(fields: Seq<Field>)
    ensures
        ({
            let close = exists|i: int, k: int|
                0 <= i < fields.len() && same_ignoring_case(fields[i].0, ascii("connection")) && 0
                    <= k < list_elements(fields[i].1).len() && same_ignoring_case(
                    #[trigger] list_elements(fields[i].1)[k],
                    ascii("close"),
                );
            let keep_alive = exists|i: int, k: int|
                0 <= i < fields.len() && same_ignoring_case(fields[i].0, ascii("connection")) && 0
                    <= k < list_elements(fields[i].1).len() && same_ignoring_case(
                    #[trigger] list_elements(fields[i].1)[k],
                    ascii("keep-alive"),
                );
            let valid = forall|i: int, k: int|
                0 <= i < fields.len() && same_ignoring_case(fields[i].0, ascii("connection")) && 0
                    <= k < list_elements(fields[i].1).len() ==> all_tchars(
                    #[trigger] list_elements(fields[i].1)[k],
                );
            &&& persistent(fields, HttpVersion::Http11) == (if valid {
                Ok(!close)
            } else {
                Err(ConnectionTokenParserError::InvalidToken)
            })
            &&& persistent(fields, HttpVersion::Http10) == (if valid {
                Ok(!close && keep_alive)
            } else {
                Err(ConnectionTokenParserError::InvalidToken)
            })
        }),
{
    lemma_option_is_in_a_field(fields, ascii("close"));
    lemma_option_is_in_a_field(fields, ascii("keep-alive"));
}

proof fn lemma_added_option(fields: Seq<Field>, name: Seq<u8>, option: Seq<u8>)
    requires
        same_ignoring_case(name, ascii("connection")),
        forall|i: int| 0 <= i < option.len() ==> #[trigger] option[i] != ',' as u8,
        trimmed(option) == option,
    ensures
        connection_options(fields.push((name, option))) == connection_options(fields).push(option),
{
    options_are_those_of_connection_fields(fields, (name, option));
    lists_are_split_at_commas(option, Seq::empty());
    assert(connection_options(fields) + seq![option] =~= connection_options(fields).push(option));
}

/// To ask for `keep-alive` never ends a connection that would persist, nor keeps one that was
/// asked to close; and to ask for `close` ends any.
pub proof fn asking_for_keep_alive_ends_nothing(
    fields: Seq<Field>,
    name: Seq<u8>,
    version: HttpVersion,
)
    requires
        same_ignoring_case(name, ascii("connection")),
        persistent(fields, version) is Ok,
    ensures
        persistent(fields.push((name, ascii("close"))), version) == Ok::<
            _,
            ConnectionTokenParserError,
        >(false),
        persistent(fields.push((name, ascii("keep-alive"))), version) == persistent(
            fields,
            HttpVersion::Http11,
        ),
        persistent(fields, version) == Ok::<_, ConnectionTokenParserError>(true) ==> persistent(
            fields.push((name, ascii("keep-alive"))),
            version,
        ) == Ok::<_, ConnectionTokenParserError>(true),
{
    reveal_strlit("close");
    reveal_strlit("keep-alive");
    let options = connection_options(fields);
    let close = ascii("close");
    let keep = ascii("keep-alive");
    assert(close[0] == 'c' as u8 && close.last() == 'e' as u8);
    assert(keep[0] == 'k' as u8 && keep.last() == 'e' as u8);
    assert(trimmed(close) == close);
    assert(trimmed(keep) == keep);
    assert forall|i: int| 0 <= i < close.len() implies #[trigger] close[i] != ',' as u8 by {}
    assert forall|i: int| 0 <= i < keep.len() implies #[trigger] keep[i] != ',' as u8 by {}
    lemma_added_option(fields, name, close);
    lemma_added_option(fields, name, keep);
    assert(options.push(close) =~= options + seq![close]);
    assert(options.push(keep) =~= options + seq![keep]);
    lemma_options_concat(options, seq![close]);
    lemma_options_concat(options, seq![keep]);
    assert(same_ignoring_case(seq![close][0], close));
    assert(same_ignoring_case(seq![keep][0], keep));
    assert(close.len() != keep.len());
    assert(!has_option(seq![keep], close));
    assert forall|i: int| 0 <= i < close.len() implies crate::parse::is_tchar(#[trigger] close[i]) by {}
    assert forall|i: int| 0 <= i < keep.len() implies crate::parse::is_tchar(#[trigger] keep[i]) by {}
    assert(all_tokens(seq![close]));
    assert(all_tokens(seq![keep]));
}

/// What is asked of the headers of a message about its connection is what their options say:
/// it persists exactly where none of them is `close`, whatever others there are, and, in the
/// earlier version, one is `keep-alive`; and an option that is no token is refused.
pub proof fn headers_tell_whether_a_connection_persists(
    h: &Headers,
    version: HttpVersion,
    r: Result<bool, ConnectionTokenParserError>,
)
    requires
        call_ensures(Headers::connection_is_persistent, (h, version), r),
    ensures
        ({
            let close = exists|i: int, k: int|
                0 <= i < h@.len() && same_ignoring_case(h@[i].0, ascii("connection")) && 0 <= k
                    < list_elements(h@[i].1).len() && same_ignoring_case(
                    #[trigger] list_elements(h@[i].1)[k],
                    ascii("close"),
                );
            let keep_alive = exists|i: int, k: int|
                0 <= i < h@.len() && same_ignoring_case(h@[i].0, ascii("connection")) && 0 <= k
                    < list_elements(h@[i].1).len() && same_ignoring_case(
                    #[trigger] list_elements(h@[i].1)[k],
                    ascii("keep-alive"),
                );
            let valid = forall|i: int, k: int|
                0 <= i < h@.len() && same_ignoring_case(h@[i].0, ascii("connection")) && 0 <= k
                    < list_elements(h@[i].1).len() ==> all_tchars(
                    #[trigger] list_elements(h@[i].1)[k],
                );
            match r {
                Ok(persists) => valid && persists == (!close && (version == HttpVersion::Http11
                    || keep_alive)),
                Err(e) => !valid && e == ConnectionTokenParserError::InvalidToken,
            }
        }),
{
    close_alone_ends_a_connection(h@);
}

/// Where one field alone states a length or a transfer coding, or none does, the headers of a
/// message tell the framing that it states.
pub proof fn headers_tell_the_framing(
    h: &Headers,
    at: int,
    r: Result<ParsedFraming, HeaderError>,
)
    requires
        call_ensures(Headers::framing, (h,), r),
        forall|i: int| 0 <= i < h@.len() && i != at ==> frames_nothing(#[trigger] h@[i]),
    ensures
        !(0 <= at < h@.len()) || frames_nothing(h@[at]) ==> r matches Ok(
            ParsedFraming::NoFraming,
        ),
        0 <= at < h@.len() && same_ignoring_case(h@[at].0, ascii("content-length")) ==> match (
            u64_of(trimmed(h@[at].1)),
            r,
        ) {
            (Some(n), Ok(ParsedFraming::Length(m))) => m == n,
            (None, Err(HeaderError::InvalidContentLength(s))) => s@ == lossy_text(
                trimmed(h@[at].1),
            ),
            _ => false,
        },
        0 <= at < h@.len() && same_ignoring_case(h@[at].0, ascii("transfer-encoding")) ==> match r {
            Ok(ParsedFraming::Chunked) => trimmed(h@[at].1) == ascii("chunked"),
            Err(HeaderError::UnsupportedTransferEncoding(s)) => trimmed(h@[at].1) != ascii(
                "chunked",
            ) && s@ == lossy_text(trimmed(h@[at].1)),
            _ => false,
        },
{
    one_field_frames_a_message(h@, at);
}

/// The fields that are taken out are those on which the predicate holds, the others stay;
/// together they are all fields there were.
pub proof fn fields_are_taken_out_by_the_predicate<P: Fn(&(Bytes, Bytes)) -> bool>(
    h: &mut Headers,
    pred: P,
    f: spec_fn((Bytes, Bytes)) -> bool,
    removed: Headers,
)
    requires
        call_ensures(Headers::remove::<P>, (h, pred), removed),
        forall|pair: (Bytes, Bytes), hit: bool| #[trigger]
            call_ensures(pred, (&pair,), hit) ==> hit == f(pair),
    ensures
        removed.pairs() == old(h).pairs().filter(f),
        final(h).pairs() == old(h).pairs().filter(|pair: (Bytes, Bytes)| !f(pair)),
{
    let all = old(h).pairs();
    let marks = choose|marks: Seq<bool>|
        {
            &&& marks.len() == all.len()
            &&& forall|i: int|
                0 <= i < all.len() ==> call_ensures(pred, (&#[trigger] all[i],), marks[i])
            &&& removed.pairs() == #[trigger] marked(all, marks, true)
            &&& final(h).pairs() == marked(all, marks, false)
        };
    assert forall|i: int| 0 <= i < all.len() implies #[trigger] marks[i] == f(all[i]) by {
        assert(call_ensures(pred, (&all[i],), marks[i]));
    }
    marked_items_are_filtered(all, marks, f);
}

/// What the fields in front say of the framing, and then the field behind them.
proof fn lemma_front_is_read_first(fields: Seq<Field>, i: int, cl: Option<u64>, te: bool)
    requires
        0 <= i < fields.len(),
    ensures
        ({
            let front = framing_after(fields.take(i), cl, te);
            let value = trimmed(fields[i].1);
            &&& front matches Err(e) ==> (e != HeaderErrorView::BothTeAndCl ==> framing_after(
                fields,
                cl,
                te,
            ) == Err::<ParsedFraming, _>(e))
            &&& front is Ok || front->Err_0 == HeaderErrorView::BothTeAndCl ==> {
                &&& is_content_length(fields[i].0) && u64_of(value) is None ==> framing_after(
                    fields,
                    cl,
                    te,
                ) == Err::<ParsedFraming, _>(
                    HeaderErrorView::InvalidContentLength(lossy_text(value)),
                )
                &&& !is_content_length(fields[i].0) && is_transfer_encoding(fields[i].0) && value
                    != ascii("chunked") ==> framing_after(fields, cl, te) == Err::<
                    ParsedFraming,
                    _,
                >(HeaderErrorView::UnsupportedTransferEncoding(lossy_text(value)))
            }
        }),
    decreases fields.len(),
{
    if i > 0 {
        let (name, value) = fields[0];
        let rest = fields.skip(1);
        assert(fields.take(i).skip(1) =~= rest.take(i - 1));
        assert(fields.take(i)[0] == fields[0]);
        assert(rest[i - 1] == fields[i]);
        if is_content_length(name) {
            if let (Some(l), None) = (u64_of(trimmed(value)), cl) {
                lemma_front_is_read_first(rest, i - 1, Some(l), te);
            }
        } else if is_transfer_encoding(name) {
            lemma_front_is_read_first(rest, i - 1, cl, true);
        } else {
            lemma_front_is_read_first(rest, i - 1, cl, te);
        }
    }
}

/// The first fault is the one that is named: what is wrong with the fields in front is wrong
/// with the message, whatever follows; and where nothing is wrong with them, other than that
/// they state a length and a coding, a length that is no number, or a coding that is not
/// supported, is named with its value.
pub proof fn the_first_fault_is_named(fields: Seq<Field>, i: int)
    requires
        0 <= i < fields.len(),
    ensures
        ({
            let front = framing_of(fields.take(i));
            let value = trimmed(fields[i].1);
            &&& front matches Err(e) ==> (e != HeaderErrorView::BothTeAndCl ==> framing_of(fields)
                == Err::<ParsedFraming, _>(e))
            &&& front is Ok || front->Err_0 == HeaderErrorView::BothTeAndCl ==> {
                &&& same_ignoring_case(fields[i].0, ascii("content-length")) && u64_of(
                    value,
                ) is None ==> framing_of(fields) == Err::<ParsedFraming, _>(
                    HeaderErrorView::InvalidContentLength(lossy_text(value)),
                )
                &&& same_ignoring_case(fields[i].0, ascii("transfer-encoding")) && value != ascii(
                    "chunked",
                ) ==> framing_of(fields) == Err::<ParsedFraming, _>(
                    HeaderErrorView::UnsupportedTransferEncoding(lossy_text(value)),
                )
            }
        }),
{
    lemma_names_differ(fields[i].0);
    lemma_front_is_read_first(fields, i, None, false);
}

/// The model of an error is of the same kind as the error.
pub proof fn header_errors_keep_their_kind(e: HeaderError)
    ensures
        e is InvalidContentLength <==> e@ is InvalidContentLength,
        e is MultipleContentLength <==> e@ is MultipleContentLength,
        e is MultipleTransferEncodingHeaders <==> e@ is MultipleTransferEncodingHeaders,
        e is UnsupportedTransferEncoding <==> e@ is UnsupportedTransferEncoding,
        e is BothTeAndCl <==> e@ is BothTeAndCl,
{
}

} // verus!
