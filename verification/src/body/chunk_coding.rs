//! The chunked transfer coding (RFC 9112 section 7.1), as bytes on the wire.
use vstd::prelude::*;

use crate::body::parse_trailers::{
    complete_at_the_end_of_the_section, is_line_at, is_trailer_line, is_trailer_section, Status,
    TrailerParser,
};
use crate::body::error::TrailerError;
use crate::http_message::header::Field;
use crate::http_message::raw::{field_line, field_lines, is_plain_field};
use crate::parse::is_field_byte;
use crate::text::{ascii, crlf, hex};

verus! {

/// The header of a chunk of `n` bytes.
pub open spec fn chunk_head(n: nat) -> Seq<u8> {
    hex(n) + crlf()
}

/// A chunk on the wire. A chunk without data is not written at all: its
/// header would end the body.
pub open spec fn encode_chunk(data: Seq<u8>) -> Seq<u8> {
    if data.len() == 0 {
        Seq::empty()
    } else {
        chunk_head(data.len()) + data + crlf()
    }
}

/// Chunks on the wire, one after the other.
pub open spec fn encode_chunks(chunks: Seq<Seq<u8>>) -> Seq<u8>
    decreases chunks.len(),
{
    if chunks.len() == 0 {
        Seq::empty()
    } else {
        encode_chunk(chunks[0]) + encode_chunks(chunks.skip(1))
    }
}

/// The end of a body on the wire: the last chunk and the trailer fields.
pub open spec fn encode_end(trailers: Seq<Field>) -> Seq<u8> {
    chunk_head(0) + field_lines(trailers) + crlf()
}

/// Trailer fields that are read back as they were written. A strict reader
/// takes no field without a value.
pub open spec fn are_plain(fields: Seq<Field>, strict: bool) -> bool {
    forall|i: int|
        0 <= i < fields.len() ==> is_plain_field(#[trigger] fields[i]) && (strict
            ==> fields[i].1.len() > 0)
}

proof fn lemma_field_lines_front(fields: Seq<Field>)
    requires
        fields.len() > 0,
    ensures
        field_lines(fields) == field_line(fields[0]) + field_lines(fields.skip(1)),
    decreases fields.len(),
{
    if fields.len() == 1 {
        assert(fields.drop_last().len() == 0);
        assert(fields.skip(1).len() == 0);
        assert(field_lines(fields.drop_last()) =~= Seq::empty());
        assert(field_lines(fields) =~= field_line(fields[0]) + field_lines(fields.skip(1)));
    } else {
        lemma_field_lines_front(fields.drop_last());
        assert(fields.drop_last().skip(1) =~= fields.skip(1).drop_last());
        assert(fields.skip(1).last() == fields.last());
        assert(field_lines(fields) =~= field_line(fields[0]) + field_lines(fields.skip(1)));
    }
}

proof fn lemma_plain_line(f: Field)
    requires
        is_plain_field(f),
        f.1.len() > 0,
    ensures
        is_trailer_line(field_line(f)),
{
    reveal_strlit(": ");
    let s = field_line(f);
    let i = f.0.len() as int;
    let j = i + 2;
    let k = j + f.1.len();
    assert(ascii(": ").len() == 2);
    assert(s.len() == k + 2);
    assert(s.take(i) =~= f.0);
    assert forall|x: int| j <= x < k implies is_field_byte(#[trigger] s[x]) && s[x] == f.1[x - j] by {
        assert(s[x] == f.1[x - j]);
    }
    assert(s[j] == f.1[0]);
    assert(s[k - 1] == f.1.last());
    assert(is_line_at(s, i, j, s.len() - 2));
}

/// Trailer fields with values, each on a line of its own, make a trailer
/// section that strict readers accept.
pub proof fn plain_fields_make_a_section(fields: Seq<Field>, rest: Seq<u8>)
    requires
        are_plain(fields, true),
    ensures
        is_trailer_section(field_lines(fields) + crlf()),
        TrailerParser::Start.scan(field_lines(fields) + crlf() + rest) == Ok::<_, TrailerError>(
            Status::Complete((field_lines(fields) + crlf()).len()),
        ),
    decreases fields.len(),
{
    let section = field_lines(fields) + crlf();
    if fields.len() == 0 {
        assert(section =~= crlf());
    } else {
        plain_fields_make_a_section(fields.skip(1), rest);
        lemma_field_lines_front(fields);
        lemma_plain_line(fields[0]);
        let n = field_line(fields[0]).len() as int;
        assert(section.take(n) =~= field_line(fields[0]));
        assert(section.skip(n) =~= field_lines(fields.skip(1)) + crlf());
    }
    let buf = section + rest;
    complete_at_the_end_of_the_section(buf, section.len());
    assert(buf.take(section.len() as int) =~= section);
}

/// A chunk is written as its length in hexadecimal, the end of a line, the data, and the end
/// of a line; one without data is not written. Chunks are written one after the other, and
/// the end of a body as a length of zero, the trailer fields, and an empty line.
pub proof fn chunks_are_written_with_their_length(
    data: Seq<u8>,
    chunks: Seq<Seq<u8>>,
    trailers: Seq<Field>,
)
    ensures
        data.len() > 0 ==> encode_chunk(data) == hex(data.len()) + seq![13u8, 10u8] + data
            + seq![13u8, 10u8],
        encode_chunk(Seq::empty()) == Seq::<u8>::empty(),
        encode_chunks(Seq::empty()) == Seq::<u8>::empty(),
        encode_chunks(chunks.push(data)) == encode_chunks(chunks) + encode_chunk(data),
        encode_end(trailers) == seq!['0' as u8, 13u8, 10u8] + field_lines(trailers) + seq![
            13u8,
            10u8,
        ],
{
    assert(crlf() =~= seq![13u8, 10u8]);
    lemma_chunk_behind(chunks, data);
    assert(hex(0) =~= seq!['0' as u8]);
    assert(chunk_head(0) =~= seq!['0' as u8, 13u8, 10u8]);
}

proof fn lemma_chunk_behind(chunks: Seq<Seq<u8>>, data: Seq<u8>)
    ensures
        encode_chunks(chunks.push(data)) == encode_chunks(chunks) + encode_chunk(data),
    decreases chunks.len(),
{
    let all = chunks.push(data);
    if chunks.len() == 0 {
        assert(all[0] == data);
        assert(encode_chunks(all.skip(1)) =~= Seq::empty());
        assert(encode_chunks(chunks) =~= Seq::empty());
        assert(encode_chunks(all) =~= encode_chunks(chunks) + encode_chunk(data));
    } else {
        lemma_chunk_behind(chunks.skip(1), data);
        assert(all[0] == chunks[0]);
        assert(all.skip(1) =~= chunks.skip(1).push(data));
        assert(encode_chunks(all) =~= encode_chunks(chunks) + encode_chunk(data));
    }
}

} // verus!
