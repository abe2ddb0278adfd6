//! How the end of a message body is told.
use vstd::prelude::*;
use vstd::string::*;

use crate::text::{ascii, ascii_bytes, eq_ignore_ascii_case, same_ignoring_case};

verus! {

/// The framing of an HTTP message as parsed from its headers. Returned by
/// [`crate::http_message::header::Headers::framing`] and the `framing()`
/// methods on [`crate::http_message::message::Request`] and
/// [`crate::http_message::message::Response`].
#[derive(Debug, Clone, Copy, PartialEq, Eq, Structural)]
pub enum ParsedFraming {
    /// Body length is specified by a `content-length` header.
    Length(u64),
    /// Body is delimited by `transfer-encoding: chunked`.
    Chunked,
    /// No framing header is present in the message.
    NoFraming,
}

impl ParsedFraming {
    /// Returns `true` if no framing header is present in the message.
    pub fn is_no_framing(&self) -> (r: bool)
        ensures
            r == (*self == ParsedFraming::NoFraming),
    {
        matches!(self, ParsedFraming::NoFraming)
    }
}

/// The framing instruction used when writing an HTTP message head to a
/// connection.
#[derive(Debug, Clone, Copy, PartialEq, Eq, Structural)]
pub enum WriteFraming {
    /// Write a `content-length: <len>` framing header.
    Length(u64),
    /// Write a `transfer-encoding: chunked` framing header.
    Chunked,
    /// Write no framing header; forward any existing framing headers from the
    /// message as-is. Use for responses to `HEAD` requests and `304 Not
    /// Modified` responses, where `content-length` / `transfer-encoding`
    /// describe the representation rather than an actual body.
    PreserveFraming,
    /// Write no framing header; strip any existing framing headers from the
    /// message before writing. Use for responses that must never carry a body
    /// by definition: `1xx` informational responses and `204 No Content`.
    StripFraming,
}

impl WriteFraming {
    /// Returns `true` if this is [`WriteFraming::PreserveFraming`], meaning
    /// any framing headers already present in the message should be forwarded
    /// as-is.
    pub fn preserves_framing(&self) -> (r: bool)
        ensures
            r == (*self == WriteFraming::PreserveFraming),
    {
        matches!(self, WriteFraming::PreserveFraming)
    }
}

impl From<ParsedFraming> for WriteFraming {
    fn from(f: ParsedFraming) -> (r: Self) {
        match f {
            ParsedFraming::Length(l) => WriteFraming::Length(l),
            ParsedFraming::Chunked => WriteFraming::Chunked,
            ParsedFraming::NoFraming => WriteFraming::PreserveFraming,
        }
    }
}

impl vstd::std_specs::convert::FromSpecImpl<ParsedFraming> for WriteFraming {
    open spec fn obeys_from_spec() -> bool {
        true
    }

    open spec fn from_spec(f: ParsedFraming) -> Self {
        match f {
            ParsedFraming::Length(l) => WriteFraming::Length(l),
            ParsedFraming::Chunked => WriteFraming::Chunked,
            ParsedFraming::NoFraming => WriteFraming::PreserveFraming,
        }
    }
}

/// `content-length`, in any case.
pub open spec fn is_content_length(name: Seq<u8>) -> bool {
    same_ignoring_case(name, ascii("content-length"))
}

/// `transfer-encoding`, in any case.
pub open spec fn is_transfer_encoding(name: Seq<u8>) -> bool {
    same_ignoring_case(name, ascii("transfer-encoding"))
}

/// A header that tells where a body ends.
pub open spec fn is_framing_name(name: Seq<u8>) -> bool {
    is_content_length(name) || is_transfer_encoding(name)
}

/// Whether the name is `content-length`, in any case.
pub fn names_content_length(name: &[u8]) -> (r: bool)
    ensures
        r == is_content_length(name@),
{
    proof {
        reveal_strlit("content-length");
    }
    eq_ignore_ascii_case(name, ascii_bytes("content-length"))
}

/// Whether the name is `transfer-encoding`, in any case.
pub fn names_transfer_encoding(name: &[u8]) -> (r: bool)
    ensures
        r == is_transfer_encoding(name@),
{
    proof {
        reveal_strlit("transfer-encoding");
    }
    eq_ignore_ascii_case(name, ascii_bytes("transfer-encoding"))
}

/// Whether a header of this name takes part in the framing of a message.
pub fn is_framing_header(name: &[u8]) -> (r: bool)
    ensures
        r == is_framing_name(name@),
{
    names_content_length(name) || names_transfer_encoding(name)
}

/// The names that frame a message are `content-length` and `transfer-encoding`, in any case,
/// and no others.
pub proof fn two_names_frame_a_message(name: Seq<u8>)
    ensures
        is_content_length(name) <==> same_ignoring_case(name, ascii("content-length")),
        is_transfer_encoding(name) <==> same_ignoring_case(name, ascii("transfer-encoding")),
        is_framing_name(name) <==> same_ignoring_case(name, ascii("content-length"))
            || same_ignoring_case(name, ascii("transfer-encoding")),
        !(is_content_length(name) && is_transfer_encoding(name)),
{
    reveal_strlit("content-length");
    reveal_strlit("transfer-encoding");
}

/// A message is written with the framing that it was read with; where it had none, nothing
/// is added.
pub proof fn parsed_framing_is_written_again(f: ParsedFraming, w: WriteFraming)
    requires
        call_ensures(<WriteFraming as From<ParsedFraming>>::from, (f,), w),
    ensures
        f matches ParsedFraming::Length(n) ==> w == WriteFraming::Length(n),
        f == ParsedFraming::Chunked <==> w == WriteFraming::Chunked,
        f == ParsedFraming::NoFraming <==> w == WriteFraming::PreserveFraming,
        w != WriteFraming::StripFraming,
{
}

} // verus!
