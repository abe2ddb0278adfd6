//! Message heads on the wire.
use vstd::prelude::*;
use vstd::string::*;

use crate::http_message::framing::{is_framing_header, is_framing_name, ParsedFraming, WriteFraming};
use crate::http_message::header::{
    framing_after, framing_of, Field, HeaderErrorView, Headers,
};
use crate::http_message::message::{Request, RequestView, Response, ResponseView};
use crate::http_message::raw::{
    are_plain_fields, field_line, field_lines, is_plain_field, is_plain_request, is_plain_response,
    request_text, response_text,
};
use crate::octets::octets;
use crate::text::{
    append, append_crlf, ascii, ascii_bytes, crlf, decimal, decimal_bytes, decimal_is_trimmed,
    decimal_round_trip, is_digit, same_ignoring_case, trimmed,
};
use crate::transport::{Context, Cx, Poll, WriteFailure};

verus! {

/// The fields that do not take part in the framing of a message, in order.
pub open spec fn without_framing(fields: Seq<Field>) -> Seq<Field>
    decreases fields.len(),
{
    if fields.len() == 0 {
        Seq::empty()
    } else {
        let before = without_framing(fields.drop_last());
        if is_framing_name(fields.last().0) {
            before
        } else {
            before.push(fields.last())
        }
    }
}

/// The fields that a framing instruction adds to a message.
pub open spec fn framing_fields(framing: WriteFraming) -> Seq<Field> {
    match framing {
        WriteFraming::Length(l) => seq![(ascii("content-length"), decimal(l as nat))],
        WriteFraming::Chunked => seq![(ascii("transfer-encoding"), ascii("chunked"))],
        _ => Seq::empty(),
    }
}

/// The fields of a message as they are written: its own, without those that
/// frame it unless they are to be preserved, and those that the framing
/// instruction adds.
pub open spec fn written_fields(fields: Seq<Field>, framing: WriteFraming) -> Seq<Field> {
    (if framing == WriteFraming::PreserveFraming {
        fields
    } else {
        without_framing(fields)
    }) + framing_fields(framing)
}

/// The head of a response on the wire. It is always sent as HTTP/1.1, even if
/// the client or the server is HTTP/1.0.
pub open spec fn response_head(res: ResponseView, framing: WriteFraming) -> Seq<u8> {
    response_text(res.code, res.reason, written_fields(res.headers, framing))
}

/// The head of a request on the wire. The fields that frame the request are
/// never those that it came with.
pub open spec fn request_head(req: RequestView, framing: WriteFraming) -> Seq<u8> {
    request_text(
        req.method,
        req.path,
        without_framing(req.headers) + framing_fields(framing),
    )
}

proof fn lemma_lines_push(fields: Seq<Field>, f: Field)
    ensures
        field_lines(fields.push(f)) == field_lines(fields) + field_line(f),
{
    assert(fields.push(f).drop_last() =~= fields);
}

/// Append a field on a line of its own.
fn append_field(head: &mut Vec<u8>, name: &[u8], value: &[u8])
    ensures
        final(head)@ == old(head)@ + field_line((name@, value@)),
{
    proof {
        reveal_strlit(": ");
    }
    append(head, name);
    append(head, ascii_bytes(": "));
    append(head, value);
    append_crlf(head);
    assert(head@ =~= old(head)@ + field_line((name@, value@)));
}

/// Append the fields, each on a line of its own; without those that frame the
/// message, unless `keep_framing` holds.
fn append_fields(head: &mut Vec<u8>, headers: &Headers, keep_framing: bool)
    ensures
        final(head)@ == old(head)@ + field_lines(
            if keep_framing {
                headers@
            } else {
                without_framing(headers@)
            },
        ),
{
    let mut i: usize = 0;
    let ghost mut kept: Seq<Field> = Seq::empty();
    assert(headers@.take(0) =~= Seq::empty());
    assert(head@ =~= old(head)@ + field_lines(kept));
    while i < headers.len()
        invariant
            i <= headers@.len(),
            kept == (if keep_framing {
                headers@.take(i as int)
            } else {
                without_framing(headers@.take(i as int))
            }),
            head@ == old(head)@ + field_lines(kept),
        decreases headers@.len() - i,
    {
        let (name, value) = headers.field(i);
        let ghost f = (name@, value@);
        assert(headers@.take(i + 1).drop_last() =~= headers@.take(i as int));
        assert(headers@.take(i + 1).last() == f);
        if keep_framing || !is_framing_header(name) {
            append_field(head, name, value);
            proof {
                lemma_lines_push(kept, f);
                assert(head@ =~= old(head)@ + field_lines(kept.push(f)));
                kept = kept.push(f);
                assert(headers@.take(i + 1) =~= headers@.take(i as int).push(f));
            }
        }
        i = i + 1;
    }
    assert(headers@.take(i as int) =~= headers@);
}

/// Append the fields that a framing instruction adds.
fn append_framing(head: &mut Vec<u8>, framing: WriteFraming)
    ensures
        final(head)@ == old(head)@ + field_lines(framing_fields(framing)),
{
    let ghost none = Seq::<Field>::empty();
    match framing {
        WriteFraming::PreserveFraming | WriteFraming::StripFraming => {
            assert(head@ =~= old(head)@ + field_lines(none));
        },
        WriteFraming::Length(l) => {
            proof {
                reveal_strlit("content-length");
                lemma_lines_push(none, (ascii("content-length"), decimal(l as nat)));
                assert(framing_fields(framing) =~= none.push(
                    (ascii("content-length"), decimal(l as nat)),
                ));
            }
            let value = decimal_bytes(l);
            append_field(head, ascii_bytes("content-length"), value.as_slice());
            assert(head@ =~= old(head)@ + field_lines(framing_fields(framing)));
        },
        WriteFraming::Chunked => {
            proof {
                reveal_strlit("transfer-encoding");
                reveal_strlit("chunked");
                lemma_lines_push(none, (ascii("transfer-encoding"), ascii("chunked")));
                assert(framing_fields(framing) =~= none.push(
                    (ascii("transfer-encoding"), ascii("chunked")),
                ));
            }
            append_field(head, ascii_bytes("transfer-encoding"), ascii_bytes("chunked"));
            assert(head@ =~= old(head)@ + field_lines(framing_fields(framing)));
        },
    }
}

proof fn lemma_lines_concat(a: Seq<Field>, b: Seq<Field>)
    ensures
        field_lines(a + b) == field_lines(a) + field_lines(b),
    decreases b.len(),
{
    if b.len() == 0 {
        assert(a + b =~= a);
        assert(field_lines(a + b) =~= field_lines(a) + field_lines(b));
    } else {
        lemma_lines_concat(a, b.drop_last());
        assert((a + b).drop_last() =~= a + b.drop_last());
        assert(field_lines(a + b) =~= field_lines(a) + field_lines(b));
    }
}

/// The head of a response, as it is written to a frontend.
pub fn write_response_to(res: &Response, framing: WriteFraming) -> (head: Vec<u8>)
    ensures
        head@ == response_head(res@, framing),
{
    proof {
        reveal_strlit("HTTP/1.1 ");
        reveal_strlit(" ");
    }
    let mut head: Vec<u8> = Vec::new();
    append(&mut head, ascii_bytes("HTTP/1.1 "));
    let code = decimal_bytes(res.code() as u64);
    append(&mut head, code.as_slice());
    append(&mut head, ascii_bytes(" "));
    append(&mut head, res.reason());
    append_crlf(&mut head);
    let ghost start = head@;
    assert(start =~= ascii("HTTP/1.1 ") + decimal(res@.code as nat) + ascii(" ") + res@.reason
        + crlf());
    // PreserveFraming leaves the origin's framing headers in place (HEAD / 304).
    // All other variants strip them and optionally append a new one.
    append_fields(&mut head, res.headers(), framing.preserves_framing());
    append_framing(&mut head, framing);
    proof {
        lemma_lines_concat(
            if framing == WriteFraming::PreserveFraming {
                res@.headers
            } else {
                without_framing(res@.headers)
            },
            framing_fields(framing),
        );
    }
    assert(head@ =~= start + field_lines(written_fields(res@.headers, framing)));
    append_crlf(&mut head);
    head
}

/// The head of a request, as it is written to a backend.
pub fn write_request_to(req: &Request, framing: WriteFraming) -> (head: Vec<u8>)
    ensures
        head@ == request_head(req@, framing),
{
    proof {
        reveal_strlit(" HTTP/1.1");
        reveal_strlit(" ");
    }
    let mut head: Vec<u8> = Vec::new();
    append(&mut head, req.method());
    append(&mut head, ascii_bytes(" "));
    append(&mut head, req.path());
    append(&mut head, ascii_bytes(" HTTP/1.1"));
    append_crlf(&mut head);
    let ghost start = head@;
    assert(start =~= req@.method + ascii(" ") + req@.path + ascii(" HTTP/1.1") + crlf());
    append_fields(&mut head, req.headers(), false);
    append_framing(&mut head, framing);
    proof {
        lemma_lines_concat(without_framing(req@.headers), framing_fields(framing));
    }
    assert(head@ =~= start + field_lines(without_framing(req@.headers) + framing_fields(framing)));
    append_crlf(&mut head);
    head
}

/// A head that is being written, and then flushed, so that the other side has a
/// chance to respond to just the head.
#[derive(Debug)]
pub struct HeadWrite {
    data: Vec<u8>,
    written: usize,
    flushed: bool,
}

/// The model of a [`HeadWrite`].
pub struct HeadWriteView {
    pub data: Seq<u8>,
    pub written: nat,
    pub flushed: bool,
}

impl HeadWriteView {
    /// What is still to be put on the wire.
    pub open spec fn pending(self) -> Seq<u8> {
        self.data.skip(self.written as int)
    }

    /// Whether the head has been written and flushed.
    pub open spec fn is_sent(self) -> bool {
        self.written == self.data.len() && self.flushed
    }

    /// The rest of the head is written, and then flushed.
    pub open spec fn poll_send(self, cx: Cx) -> (Self, Cx, Poll<Result<(), WriteFailure>>) {
        let (cx, written, p) = cx.poll_put(self.data, self.written);
        let now = HeadWriteView { written, ..self };
        match p {
            Poll::Ready(Ok(())) => {
                let (cx, p) = cx.poll_flush();
                match p {
                    Poll::Pending => (now, cx, Poll::Pending),
                    Poll::Ready(Ok(())) => (
                        HeadWriteView { flushed: true, ..now },
                        cx,
                        Poll::Ready(Ok(())),
                    ),
                    Poll::Ready(Err(e)) => (now, cx, Poll::Ready(Err(WriteFailure::Io(e)))),
                }
            },
            p => (now, cx, p),
        }
    }
}

impl View for HeadWrite {
    type V = HeadWriteView;

    closed spec fn view(&self) -> HeadWriteView {
        HeadWriteView {
            data: self.data@,
            written: self.written as nat,
            flushed: self.flushed,
        }
    }
}

impl HeadWrite {
    #[verifier::type_invariant]
    spec fn inv(self) -> bool {
        self.written <= self.data@.len()
    }

    /// A head of which nothing has been written.
    pub fn new(data: Vec<u8>) -> (r: Self)
        ensures
            r@ == (HeadWriteView { data: data@, written: 0, flushed: false }),
    {
        Self { data, written: 0, flushed: false }
    }

    /// Write the rest of the head, and flush.
    pub fn poll_send(&mut self, cx: &mut Context) -> (r: Poll<Result<(), WriteFailure>>)
        ensures
            (final(self)@, final(cx)@, r) == old(self)@.poll_send(old(cx)@),
            final(cx)@.wire + final(self)@.pending() == old(cx)@.wire + old(self)@.pending(),
            (r matches Poll::Ready(Ok(()))) ==> final(self)@.is_sent(),
    {
        proof {
            use_type_invariant(&*self);
            crate::body::writer::put_keeps_bytes(cx@, self.data@, self.written as nat);
        }
        let mut written: usize = self.written;
        let p = cx.poll_put(self.data.as_slice(), &mut written);
        self.written = written;
        match p {
            Poll::Pending => return Poll::Pending,
            Poll::Ready(Err(e)) => return Poll::Ready(Err(e)),
            Poll::Ready(Ok(())) => {},
        }
        match cx.poll_flush() {
            Poll::Pending => Poll::Pending,
            Poll::Ready(Err(e)) => Poll::Ready(Err(WriteFailure::Io(e))),
            Poll::Ready(Ok(())) => {
                self.flushed = true;
                Poll::Ready(Ok(()))
            },
        }
    }
}

proof fn lemma_framing_skips(fields: Seq<Field>, more: Seq<Field>)
    ensures
        framing_of(without_framing(fields) + more) == framing_of(more),
    decreases fields.len(),
{
    if fields.len() == 0 {
        assert(without_framing(fields) + more =~= more);
    } else {
        let last = fields.last();
        let before = without_framing(fields.drop_last());
        if is_framing_name(last.0) {
            lemma_framing_skips(fields.drop_last(), more);
        } else {
            let rest = seq![last] + more;
            lemma_framing_skips(fields.drop_last(), rest);
            assert(before.push(last) + more =~= before + rest);
            assert(rest[0] == last);
            assert(rest.skip(1) =~= more);
        }
    }
}

/// The fields of a message as they are written frame it as instructed: with the
/// stated length, as chunked, or not at all, whatever fields the message came
/// with; or exactly as it was framed, where that is to be preserved.
pub proof fn written_fields_frame_as_instructed(fields: Seq<Field>, framing: WriteFraming)
    ensures
        framing_of(written_fields(fields, framing)) == (match framing {
            WriteFraming::Length(l) => Ok::<_, HeaderErrorView>(ParsedFraming::Length(l)),
            WriteFraming::Chunked => Ok(ParsedFraming::Chunked),
            WriteFraming::StripFraming => Ok(ParsedFraming::NoFraming),
            WriteFraming::PreserveFraming => framing_of(fields),
        }),
{
    let own = framing_fields(framing);
    reveal_with_fuel(framing_after, 2);
    match framing {
        WriteFraming::PreserveFraming => {
            assert(fields + own =~= fields);
        },
        WriteFraming::Length(l) => {
            lemma_framing_skips(fields, own);
            decimal_round_trip(l as nat);
            decimal_is_trimmed(l as nat);
            assert(same_ignoring_case(ascii("content-length"), ascii("content-length")));
            assert(own.skip(1).len() == 0);
        },
        WriteFraming::Chunked => {
            lemma_framing_skips(fields, own);
            reveal_strlit("transfer-encoding");
            reveal_strlit("content-length");
            reveal_strlit("chunked");
            let name = ascii("transfer-encoding");
            assert(name.len() != ascii("content-length").len());
            assert(same_ignoring_case(name, name));
            let value = ascii("chunked");
            assert(value[0] == 'c' as u8 && value.last() == 'd' as u8);
            assert(trimmed(value) == value);
            assert(own.skip(1).len() == 0);
        },
        WriteFraming::StripFraming => {
            lemma_framing_skips(fields, own);
        },
    }
}

/// No field that frames a message is left among those that do not.
pub proof fn without_framing_has_none(fields: Seq<Field>)
    ensures
        forall|i: int|
            0 <= i < without_framing(fields).len() ==> !is_framing_name(
                (#[trigger] without_framing(fields)[i]).0,
            ),
    decreases fields.len(),
{
    if fields.len() > 0 {
        without_framing_has_none(fields.drop_last());
        let before = without_framing(fields.drop_last());
        let all = without_framing(fields);
        assert forall|i: int| 0 <= i < all.len() implies !is_framing_name((#[trigger] all[i]).0) by {
            if i < before.len() {
                assert(all[i] == before[i]);
            }
        }
    }
}

/// The fields of a request as they are written frame it as instructed, whatever
/// fields the request came with.
pub proof fn request_fields_frame_as_instructed(fields: Seq<Field>, framing: WriteFraming)
    ensures
        framing_of(without_framing(fields) + framing_fields(framing)) == (match framing {
            WriteFraming::Length(l) => Ok::<_, HeaderErrorView>(ParsedFraming::Length(l)),
            WriteFraming::Chunked => Ok(ParsedFraming::Chunked),
            _ => Ok(ParsedFraming::NoFraming),
        }),
{
    match framing {
        WriteFraming::PreserveFraming => {
            written_fields_frame_as_instructed(fields, WriteFraming::StripFraming);
        },
        _ => written_fields_frame_as_instructed(fields, framing),
    }
}

proof fn lemma_plain_without_framing(fields: Seq<Field>)
    requires
        are_plain_fields(fields),
    ensures
        are_plain_fields(without_framing(fields)),
    decreases fields.len(),
{
    if fields.len() > 0 {
        let before = fields.drop_last();
        assert forall|i: int| 0 <= i < before.len() implies is_plain_field(#[trigger] before[i]) by {
            assert(before[i] == fields[i]);
        }
        lemma_plain_without_framing(before);
        let kept = without_framing(before);
        let all = without_framing(fields);
        assert forall|i: int| 0 <= i < all.len() implies is_plain_field(#[trigger] all[i]) by {
            if i < kept.len() {
                assert(all[i] == kept[i]);
            } else {
                assert(all[i] == fields[fields.len() - 1]);
            }
        }
    }
}

proof fn lemma_framing_fields_are_plain(framing: WriteFraming)
    ensures
        are_plain_fields(framing_fields(framing)),
{
    reveal_strlit("content-length");
    reveal_strlit("transfer-encoding");
    reveal_strlit("chunked");
    match framing {
        WriteFraming::Length(l) => {
            let value = decimal(l as nat);
            decimal_round_trip(l as nat);
            assert forall|i: int| 0 <= i < value.len() implies is_digit(#[trigger] value[i]) by {}
            assert(is_digit(value[0]) && is_digit(value.last()));
            assert(is_plain_field((ascii("content-length"), value)));
        },
        WriteFraming::Chunked => {
            let value = ascii("chunked");
            assert(value[0] == 'c' as u8 && value.last() == 'd' as u8);
            assert(is_plain_field((ascii("transfer-encoding"), value)));
        },
        _ => {},
    }
}

/// A request that is written is read back as it was, but for the fields that
/// frame it: its head has the form that a reader reads back, and the fields that
/// are read frame the request as instructed.
pub proof fn written_request_is_read_back(req: RequestView, framing: WriteFraming)
    requires
        is_plain_request(req.method, req.path, req.headers),
    ensures
        ({
            let fields = without_framing(req.headers) + framing_fields(framing);
            &&& request_head(req, framing) == request_text(req.method, req.path, fields)
            &&& is_plain_request(req.method, req.path, fields)
            &&& fields.len() <= req.headers.len() + 1
            &&& framing_of(fields) == (match framing {
                WriteFraming::Length(l) => Ok::<_, HeaderErrorView>(ParsedFraming::Length(l)),
                WriteFraming::Chunked => Ok(ParsedFraming::Chunked),
                _ => Ok(ParsedFraming::NoFraming),
            })
        }),
{
    lemma_plain_without_framing(req.headers);
    lemma_framing_fields_are_plain(framing);
    lemma_without_framing_is_shorter(req.headers);
    request_fields_frame_as_instructed(req.headers, framing);
    lemma_plain_concat(without_framing(req.headers), framing_fields(framing));
}

/// A response that is written is read back as it was, but for the fields that
/// frame it: its head has the form that a reader reads back, and the fields that
/// are read frame the response as instructed.
pub proof fn written_response_is_read_back(res: ResponseView, framing: WriteFraming)
    requires
        is_plain_response(res.code, res.reason, res.headers),
    ensures
        ({
            let fields = written_fields(res.headers, framing);
            &&& response_head(res, framing) == response_text(res.code, res.reason, fields)
            &&& is_plain_response(res.code, res.reason, fields)
            &&& fields.len() <= res.headers.len() + 1
            &&& framing_of(fields) == (match framing {
                WriteFraming::Length(l) => Ok::<_, HeaderErrorView>(ParsedFraming::Length(l)),
                WriteFraming::Chunked => Ok(ParsedFraming::Chunked),
                WriteFraming::StripFraming => Ok(ParsedFraming::NoFraming),
                WriteFraming::PreserveFraming => framing_of(res.headers),
            })
        }),
{
    lemma_plain_without_framing(res.headers);
    lemma_framing_fields_are_plain(framing);
    lemma_without_framing_is_shorter(res.headers);
    written_fields_frame_as_instructed(res.headers, framing);
    lemma_plain_concat(res.headers, framing_fields(framing));
    lemma_plain_concat(without_framing(res.headers), framing_fields(framing));
}

proof fn lemma_plain_concat(a: Seq<Field>, b: Seq<Field>)
    requires
        are_plain_fields(a),
        are_plain_fields(b),
    ensures
        are_plain_fields(a + b),
{
    let all = a + b;
    assert forall|i: int| 0 <= i < all.len() implies is_plain_field(#[trigger] all[i]) by {
        if i < a.len() {
            assert(all[i] == a[i]);
        } else {
            assert(all[i] == b[i - a.len()]);
        }
    }
}

proof fn lemma_without_framing_is_shorter(fields: Seq<Field>)
    ensures
        without_framing(fields).len() <= fields.len(),
    decreases fields.len(),
{
    if fields.len() > 0 {
        lemma_without_framing_is_shorter(fields.drop_last());
    }
}

/// The fields that are kept of a message are all but those named `content-length` or
/// `transfer-encoding`, in any case: in order, and as often as they came.
pub proof fn only_framing_fields_are_dropped(fields: Seq<Field>)
    ensures
        without_framing(fields) == fields.filter(
            |f: Field|
                !same_ignoring_case(f.0, ascii("content-length")) && !same_ignoring_case(
                    f.0,
                    ascii("transfer-encoding"),
                ),
        ),
        (forall|i: int|
            0 <= i < fields.len() ==> !same_ignoring_case(
                (#[trigger] fields[i]).0,
                ascii("content-length"),
            ) && !same_ignoring_case(fields[i].0, ascii("transfer-encoding"))) ==> without_framing(
            fields,
        ) == fields,
    decreases fields.len(),
{
    reveal(Seq::filter);
    if fields.len() > 0 {
        only_framing_fields_are_dropped(fields.drop_last());
        let before = fields.drop_last();
        assert(fields =~= before.push(fields.last()));
        if forall|i: int|
            0 <= i < fields.len() ==> !same_ignoring_case(
                (#[trigger] fields[i]).0,
                ascii("content-length"),
            ) && !same_ignoring_case(fields[i].0, ascii("transfer-encoding")) {
            assert forall|i: int| 0 <= i < before.len() implies !same_ignoring_case(
                (#[trigger] before[i]).0,
                ascii("content-length"),
            ) && !same_ignoring_case(before[i].0, ascii("transfer-encoding")) by {
                assert(before[i] == fields[i]);
            }
            assert(fields.last() == fields[fields.len() - 1]);
        }
    } else {
        assert(fields =~= Seq::empty());
    }
}

/// The lines of the fields that a framing instruction adds: one that states the length, one
/// that states the chunked coding, or none.
pub proof fn framing_adds_one_line_at_most(framing: WriteFraming)
    ensures
        field_lines(framing_fields(framing)) == (match framing {
            WriteFraming::Length(n) => ascii("content-length: ") + decimal(n as nat) + crlf(),
            WriteFraming::Chunked => ascii("transfer-encoding: chunked") + crlf(),
            _ => Seq::empty(),
        }),
{
    reveal_strlit("content-length");
    reveal_strlit("content-length: ");
    reveal_strlit("transfer-encoding");
    reveal_strlit("transfer-encoding: chunked");
    reveal_strlit("chunked");
    reveal_strlit(": ");
    let none = Seq::<Field>::empty();
    match framing {
        WriteFraming::Length(n) => {
            let f = (ascii("content-length"), decimal(n as nat));
            lemma_lines_push(none, f);
            assert(framing_fields(framing) =~= none.push(f));
            assert(ascii("content-length: ") =~= ascii("content-length") + ascii(": "));
            assert(field_lines(framing_fields(framing)) =~= ascii("content-length: ") + decimal(
                n as nat,
            ) + crlf());
        },
        WriteFraming::Chunked => {
            let f = (ascii("transfer-encoding"), ascii("chunked"));
            lemma_lines_push(none, f);
            assert(framing_fields(framing) =~= none.push(f));
            assert(ascii("transfer-encoding: chunked") =~= ascii("transfer-encoding") + ascii(": ")
                + ascii("chunked"));
            assert(field_lines(framing_fields(framing)) =~= ascii("transfer-encoding: chunked")
                + crlf());
        },
        _ => {},
    }
}

/// The head of a response on the wire: the status line, its own fields, those that frame it
/// left out unless they are to be preserved, at most one line that frames it, and an empty
/// line. Where no field of the response frames it, its own fields are written exactly as
/// they are, whatever the framing.
pub proof fn response_heads_hold_the_own_fields(
    res: &Response,
    framing: WriteFraming,
    head: Vec<u8>,
)
    requires
        call_ensures(write_response_to, (res, framing), head),
    ensures
        ({
            let kept = if framing == WriteFraming::PreserveFraming {
                res@.headers
            } else {
                res@.headers.filter(
                    |f: Field|
                        !same_ignoring_case(f.0, ascii("content-length")) && !same_ignoring_case(
                            f.0,
                            ascii("transfer-encoding"),
                        ),
                )
            };
            let added = match framing {
                WriteFraming::Length(n) => ascii("content-length: ") + decimal(n as nat) + crlf(),
                WriteFraming::Chunked => ascii("transfer-encoding: chunked") + crlf(),
                _ => Seq::empty(),
            };
            &&& head@ == ascii("HTTP/1.1 ") + decimal(res@.code as nat) + ascii(" ") + res@.reason
                + crlf() + field_lines(kept) + added + crlf()
            &&& (forall|i: int|
                0 <= i < res@.headers.len() ==> !same_ignoring_case(
                    (#[trigger] res@.headers[i]).0,
                    ascii("content-length"),
                ) && !same_ignoring_case(res@.headers[i].0, ascii("transfer-encoding"))) ==> kept
                == res@.headers
        }),
{
    only_framing_fields_are_dropped(res@.headers);
    framing_adds_one_line_at_most(framing);
    let kept = if framing == WriteFraming::PreserveFraming {
        res@.headers
    } else {
        without_framing(res@.headers)
    };
    lemma_lines_concat(kept, framing_fields(framing));
    let start = ascii("HTTP/1.1 ") + decimal(res@.code as nat) + ascii(" ") + res@.reason + crlf();
    assert(head@ =~= start + field_lines(kept) + field_lines(framing_fields(framing)) + crlf());
}

/// The head of a request on the wire: the request line, its own fields without those that
/// frame it, at most one line that frames it, and an empty line. Where no field of the
/// request frames it, its own fields are written exactly as they are.
pub proof fn request_heads_hold_the_own_fields(req: &Request, framing: WriteFraming, head: Vec<u8>)
    requires
        call_ensures(write_request_to, (req, framing), head),
    ensures
        ({
            let kept = req@.headers.filter(
                |f: Field|
                    !same_ignoring_case(f.0, ascii("content-length")) && !same_ignoring_case(
                        f.0,
                        ascii("transfer-encoding"),
                    ),
            );
            let added = match framing {
                WriteFraming::Length(n) => ascii("content-length: ") + decimal(n as nat) + crlf(),
                WriteFraming::Chunked => ascii("transfer-encoding: chunked") + crlf(),
                _ => Seq::empty(),
            };
            &&& head@ == req@.method + ascii(" ") + req@.path + ascii(" HTTP/1.1") + crlf()
                + field_lines(kept) + added + crlf()
            &&& (forall|i: int|
                0 <= i < req@.headers.len() ==> !same_ignoring_case(
                    (#[trigger] req@.headers[i]).0,
                    ascii("content-length"),
                ) && !same_ignoring_case(req@.headers[i].0, ascii("transfer-encoding"))) ==> kept
                == req@.headers
        }),
{
    only_framing_fields_are_dropped(req@.headers);
    framing_adds_one_line_at_most(framing);
    let kept = without_framing(req@.headers);
    lemma_lines_concat(kept, framing_fields(framing));
    let start = req@.method + ascii(" ") + req@.path + ascii(" HTTP/1.1") + crlf();
    assert(head@ =~= start + field_lines(kept) + field_lines(framing_fields(framing)) + crlf());
}

/// A head is put on the wire as it is, in order and once; it is sent exactly where all of it
/// has been written and, after that, a flush has been done. It waits only for the transport,
/// first to write and then to flush, and fails only where the transport does.
pub proof fn heads_are_sent_once_they_are_flushed(w: HeadWriteView, cx: Cx)
    requires
        w.written <= w.data.len() <= usize::MAX,
    ensures
        ({
            let (t, cx2, p) = w.poll_send(cx);
            let left = w.data.skip(w.written as int);
            &&& t.data == w.data
            &&& w.written <= t.written <= w.data.len()
            &&& cx2.wire + t.data.skip(t.written as int) == cx.wire + left
            &&& (p is Ready && p->Ready_0 is Ok) == (t.written == t.data.len() && cx.flush is Some
                && cx.flush->Some_0 is Ok)
            &&& p is Ready && p->Ready_0 is Ok ==> t.flushed && cx2.wire == cx.wire + left
            &&& p is Pending || p->Ready_0 is Err ==> t.flushed == w.flushed
            &&& t.written < t.data.len() ==> cx2.flush == cx.flush && p == cx.poll_put(
                w.data,
                w.written,
            ).2
            &&& t.written == t.data.len() ==> cx2.flush is None && (match cx.flush {
                None => p is Pending && cx2.wants == crate::transport::WantsView::Flush,
                Some(Ok(())) => p == Poll::Ready(Ok::<_, WriteFailure>(())),
                Some(Err(e)) => p == Poll::Ready(Err::<(), _>(WriteFailure::Io(e))),
            })
        }),
{
    crate::transport::puts_go_on_where_they_were_left(cx, w.data, w.written);
    let (t, cx2, p) = w.poll_send(cx);
    if t.written == t.data.len() {
        assert(t.data.skip(t.written as int) =~= Seq::empty());
        assert(cx2.wire + Seq::<u8>::empty() =~= cx2.wire);
    }
}

} // verus!
