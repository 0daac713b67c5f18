//! The encoder: from a response to the bytes that go on the wire.

use crate::decimal::{decimal, decimal_text};
use crate::h1::{Content, ContentView, Encoding, Response, ResponseView};
use crate::headers::{
    distinct, lemma_position, lemma_written_distinct, lemma_written_is_found,
    lemma_written_keeps_others, lookup, position, written, Fields, Headers,
};
use std::io::Write;
use vstd::prelude::*;
use vstd::string::*;
use vstd::utf8::*;

verus! {

/// The gzip stream that `flate2` makes of `data` at its default level of
/// compression, where it makes one.
pub uninterp spec fn gzip_stream(data: Seq<u8>) -> Option<Seq<u8>>;

/// `flate2::write::GzEncoder`, made with `new` over an empty vector at
/// `Compression::default()`, fed all of `data` with `write_all` and closed with
/// `finish`: the stream that came out, or nothing where the encoder reported
/// an error. The header that the encoder writes holds neither a time nor a
/// name nor the system it was made on, so that the stream is settled by the
/// data. Nothing is claimed of what the stream holds.
#[verifier::external_body]
fn gzip(data: &[u8]) -> (stream: Option<Vec<u8>>)
    ensures
        stream_view(stream) == gzip_stream(data@),
{
    let mut encoder = flate2::write::GzEncoder::new(Vec::new(), flate2::Compression::default());
    encoder.write_all(data).ok()?;
    encoder.finish().ok()
}

/// The model of a stream that may be missing.
pub open spec fn stream_view(stream: Option<Vec<u8>>) -> Option<Seq<u8>> {
    match stream {
        Some(bytes) => Some(bytes@),
        None => None,
    }
}

/// The status line of a response. A status that has no line of its own is
/// sent as 500.
pub open spec fn status_line(status: u16) -> Seq<char> {
    if status == 200 {
        "HTTP/1.1 200 OK\r\n"@
    } else if status == 201 {
        "HTTP/1.1 201 Created\r\n"@
    } else if status == 400 {
        "HTTP/1.1 400 Bad Request\r\n"@
    } else if status == 404 {
        "HTTP/1.1 404 Not Found\r\n"@
    } else {
        "HTTP/1.1 500 Internal Server Error\r\n"@
    }
}

/// The bytes of a content before any compression.
pub open spec fn payload(content: ContentView) -> Seq<u8> {
    match content {
        ContentView::Text(text) => encode_utf8(text),
        ContentView::Bytes(bytes) => bytes,
        ContentView::Empty => Seq::empty(),
    }
}

/// Whether the body of `r` is to be sent compressed.
pub open spec fn wants_gzip(r: ResponseView) -> bool {
    r.encoding == Encoding::Gzip && !(r.content is Empty)
}

/// The body of `r` as it is sent, where `packed` is what compression made of
/// its payload: the compressed stream where one is wanted and was made, the
/// payload otherwise.
pub open spec fn sent_body(r: ResponseView, packed: Option<Seq<u8>>) -> Seq<u8> {
    if wants_gzip(r) && packed is Some {
        packed->0
    } else {
        payload(r.content)
    }
}

/// The header fields of `r` as they are sent: its own, and then, written over
/// them, `Content-Encoding` where the body is compressed, `Content-Type`
/// for a text, and `Content-Length` for every content but the empty one.
pub open spec fn sent_fields(r: ResponseView, packed: Option<Seq<u8>>) -> Fields {
    if r.content is Empty {
        r.headers
    } else {
        let coded = if wants_gzip(r) && packed is Some {
            written(r.headers, "Content-Encoding"@, "gzip"@)
        } else {
            r.headers
        };
        let typed = if r.content is Text {
            written(coded, "Content-Type"@, "text/plain"@)
        } else {
            coded
        };
        written(typed, "Content-Length"@, decimal_text(sent_body(r, packed).len()))
    }
}

/// One header field on the wire: name, colon, space, value, end of line.
pub open spec fn header_line(name: Seq<char>, value: Seq<char>) -> Seq<u8> {
    encode_utf8(name) + seq![58u8, 32u8] + encode_utf8(value) + seq![13u8, 10u8]
}

/// The header fields on the wire, in their order.
pub open spec fn header_block(fields: Fields) -> Seq<u8>
    decreases fields.len(),
{
    if fields.len() == 0 {
        Seq::empty()
    } else {
        header_block(fields.drop_last()) + header_line(fields.last().0, fields.last().1)
    }
}

/// A message on the wire: status line, header fields, blank line, body.
pub open spec fn wire(status: u16, fields: Fields, body: Seq<u8>) -> Seq<u8> {
    encode_utf8(status_line(status)) + header_block(fields) + seq![13u8, 10u8] + body
}

/// Whether `bytes` hold the header line that writes `name` with `value`.
pub open spec fn carries(bytes: Seq<u8>, name: Seq<char>, value: Seq<char>) -> bool {
    exists|before: Seq<u8>, after: Seq<u8>|
        bytes == #[trigger] (before + header_line(name, value) + after)
}

/// The bytes of `r` on the wire, where `packed` is what compression made of
/// its payload.
pub open spec fn encoded_with(r: ResponseView, packed: Option<Seq<u8>>) -> Seq<u8> {
    wire(r.status, sent_fields(r, packed), sent_body(r, packed))
}

/// The bytes of `r` on the wire.
pub open spec fn encoded(r: ResponseView) -> Seq<u8> {
    encoded_with(r, gzip_stream(payload(r.content)))
}

/// Adds `bytes` at the end of `out`.
fn put(out: &mut Vec<u8>, bytes: &[u8])
    ensures
        final(out)@ == old(out)@ + bytes@,
{
    let mut i: usize = 0;
    while i < bytes.len()
        invariant
            i <= bytes@.len(),
            out@ == old(out)@ + bytes@.take(i as int),
        decreases bytes@.len() - i,
    {
        out.push(bytes[i]);
        proof {
            assert(bytes@.take(i + 1) =~= bytes@.take(i as int).push(bytes@[i as int]));
        }
        i += 1;
    }
    proof {
        assert(bytes@.take(i as int) =~= bytes@);
    }
}

/// The status line for `status`, as text.
fn status_text(status: u16) -> (line: &'static str)
    ensures
        line@ == status_line(status),
{
    if status == 200 {
        "HTTP/1.1 200 OK\r\n"
    } else if status == 201 {
        "HTTP/1.1 201 Created\r\n"
    } else if status == 400 {
        "HTTP/1.1 400 Bad Request\r\n"
    } else if status == 404 {
        "HTTP/1.1 404 Not Found\r\n"
    } else {
        "HTTP/1.1 500 Internal Server Error\r\n"
    }
}

/// Writes a message: status line, header fields, blank line, body.
pub fn write_message(status: u16, headers: &Headers, body: &[u8]) -> (out: Vec<u8>)
    ensures
        out@ == wire(status, headers@, body@),
{
    let mut out: Vec<u8> = Vec::new();
    put(&mut out, status_text(status).as_bytes());
    let ghost start = out@;
    let count: usize = headers.len();
    let mut i: usize = 0;
    while i < count
        invariant
            i <= count == headers@.len(),
            out@ == start + header_block(headers@.take(i as int)),
        decreases count - i,
    {
        let (name, value) = headers.entry(i);
        let ghost before = out@;
        put(&mut out, name.as_bytes());
        out.push(58);
        out.push(32);
        put(&mut out, value.as_bytes());
        out.push(13);
        out.push(10);
        proof {
            let seen = headers@.take(i + 1);
            assert(seen.drop_last() =~= headers@.take(i as int));
            assert(seen.last() == headers@[i as int]);
            assert(out@ =~= before + header_line(name@, value@));
            assert(out@ =~= start + header_block(seen));
        }
        i += 1;
    }
    proof {
        assert(headers@.take(i as int) =~= headers@);
    }
    out.push(13);
    out.push(10);
    let ghost top = out@;
    put(&mut out, body);
    proof {
        assert(top =~= start + header_block(headers@) + seq![13u8, 10u8]);
    }
    out
}

/// Encodes a response, given what compression made of its payload.
///
/// `packed` is used only where the response asks for gzip and is not empty.
/// Where it is then missing, the body is sent as it is, with no
/// `Content-Encoding`.
pub fn encode_with(response: Response, packed: Option<Vec<u8>>) -> (out: Vec<u8>)
    ensures
        out@ == encoded_with(response@, stream_view(packed)),
{
    let ghost r = response@;
    let ghost p = stream_view(packed);
    let Response { status, headers, content, encoding } = response;
    let mut headers = headers;
    let empty: Vec<u8> = Vec::new();
    match content {
        Content::Empty => write_message(status, &headers, empty.as_slice()),
        Content::Text(text) => {
            let plain = text.as_str().as_bytes();
            let body: &[u8] = match (encoding, &packed) {
                (Encoding::Gzip, Some(stream)) => {
                    headers.insert("Content-Encoding".to_owned(), "gzip".to_owned());
                    stream.as_slice()
                },
                _ => plain,
            };
            headers.insert("Content-Type".to_owned(), "text/plain".to_owned());
            headers.insert("Content-Length".to_owned(), decimal(body.len()));
            proof {
                assert(body@ == sent_body(r, p));
                assert(headers@ == sent_fields(r, p));
            }
            write_message(status, &headers, body)
        },
        Content::Bytes(bytes) => {
            let body: &[u8] = match (encoding, &packed) {
                (Encoding::Gzip, Some(stream)) => {
                    headers.insert("Content-Encoding".to_owned(), "gzip".to_owned());
                    stream.as_slice()
                },
                _ => bytes.as_slice(),
            };
            headers.insert("Content-Length".to_owned(), decimal(body.len()));
            proof {
                assert(body@ == sent_body(r, p));
                assert(headers@ == sent_fields(r, p));
            }
            write_message(status, &headers, body)
        },
    }
}

/// Encodes a response: status line, header fields, blank line, body.
///
/// A response that asks for gzip and is not empty has its payload compressed
/// once, before its length is taken.
pub fn encode(response: Response) -> (out: Vec<u8>)
    ensures
        out@ == encoded(response@),
{
    let packed = match (response.encoding, &response.content) {
        (Encoding::Gzip, Content::Text(text)) => gzip(text.as_str().as_bytes()),
        (Encoding::Gzip, Content::Bytes(bytes)) => gzip(bytes.as_slice()),
        _ => None,
    };
    encode_with(response, packed)
}

/// The fields of two sets, one after the other, are written one after the
/// other.
pub proof fn lemma_header_block_concat(first: Fields, second: Fields)
    ensures
        header_block(first + second) == header_block(first) + header_block(second),
    decreases second.len(),
{
    if second.len() == 0 {
        assert(first + second =~= first);
        assert(header_block(first) + header_block(second) =~= header_block(first));
    } else {
        lemma_header_block_concat(first, second.drop_last());
        assert((first + second).drop_last() =~= first + second.drop_last());
        assert((first + second).last() == second.last());
        assert(header_block(first + second) =~= header_block(first) + header_block(second));
    }
}

/// Every header field stands on the wire as a line of its own, between the
/// status line and the blank line. Returns what stands before and after it.
pub proof fn lemma_field_is_on_the_wire(status: u16, fields: Fields, body: Seq<u8>, i: int) -> (around:
    (Seq<u8>, Seq<u8>))
    requires
        0 <= i < fields.len(),
    ensures
        wire(status, fields, body) == around.0 + header_line(fields[i].0, fields[i].1) + around.1,
        around.0 == encode_utf8(status_line(status)) + header_block(fields.take(i)),
        around.1 == header_block(fields.skip(i + 1)) + seq![13u8, 10u8] + body,
{
    let head = fields.take(i);
    let one = seq![fields[i]];
    let tail = fields.skip(i + 1);
    assert(fields =~= head + one + tail);
    lemma_header_block_concat(head + one, tail);
    lemma_header_block_concat(head, one);
    assert(one.drop_last() =~= Fields::empty());
    assert(header_block(one.drop_last()) =~= Seq::<u8>::empty());
    assert(one.last() == fields[i]);
    assert(header_block(one) =~= header_line(fields[i].0, fields[i].1));
    let before = encode_utf8(status_line(status)) + header_block(head);
    let after = header_block(tail) + seq![13u8, 10u8] + body;
    assert(wire(status, fields, body) =~= before + header_line(fields[i].0, fields[i].1) + after);
    (before, after)
}

/// A field that is found among the header fields stands on the wire as a
/// line, with the value it is found with.
pub proof fn lemma_found_is_carried(
    status: u16,
    fields: Fields,
    body: Seq<u8>,
    name: Seq<char>,
    value: Seq<char>,
)
    requires
        lookup(fields, name) == Some(value),
    ensures
        carries(wire(status, fields, body), name, value),
{
    lemma_position(fields, name);
    let around = lemma_field_is_on_the_wire(status, fields, body, position(fields, name) as int);
    assert(wire(status, fields, body) == around.0 + header_line(name, value) + around.1);
}

/// The names of the fields that the encoder writes differ from one another
/// and from `Connection`.
pub proof fn lemma_names_differ()
    ensures
        "Connection"@ != "Content-Encoding"@,
        "Connection"@ != "Content-Type"@,
        "Connection"@ != "Content-Length"@,
        "Content-Encoding"@ != "Content-Type"@,
        "Content-Encoding"@ != "Content-Length"@,
        "Content-Type"@ != "Content-Length"@,
{
    reveal_strlit("Connection");
    reveal_strlit("Content-Encoding");
    reveal_strlit("Content-Type");
    reveal_strlit("Content-Length");
    assert("Connection"@.len() == 10);
    assert("Content-Encoding"@.len() == 16);
    assert("Content-Type"@.len() == 12);
    assert("Content-Length"@.len() == 14);
}

/// No name is sent twice, where the response's own fields hold none twice.
pub proof fn lemma_sent_fields_distinct(r: ResponseView, packed: Option<Seq<u8>>)
    requires
        distinct(r.headers),
    ensures
        distinct(sent_fields(r, packed)),
{
    if !(r.content is Empty) {
        let coded = if wants_gzip(r) && packed is Some {
            written(r.headers, "Content-Encoding"@, "gzip"@)
        } else {
            r.headers
        };
        let typed = if r.content is Text {
            written(coded, "Content-Type"@, "text/plain"@)
        } else {
            coded
        };
        lemma_written_distinct(r.headers, "Content-Encoding"@, "gzip"@);
        lemma_written_distinct(coded, "Content-Type"@, "text/plain"@);
        lemma_written_distinct(
            typed,
            "Content-Length"@,
            decimal_text(sent_body(r, packed).len()),
        );
    }
}

/// A response that is not empty is sent with the length of its body as sent;
/// a text is sent as `text/plain`.
pub proof fn lemma_sent_length(r: ResponseView, packed: Option<Seq<u8>>)
    requires
        !(r.content is Empty),
    ensures
        lookup(sent_fields(r, packed), "Content-Length"@) == Some(
            decimal_text(sent_body(r, packed).len()),
        ),
        r.content is Text ==> lookup(sent_fields(r, packed), "Content-Type"@) == Some(
            "text/plain"@,
        ),
{
    lemma_names_differ();
    let coded = if wants_gzip(r) && packed is Some {
        written(r.headers, "Content-Encoding"@, "gzip"@)
    } else {
        r.headers
    };
    let typed = if r.content is Text {
        written(coded, "Content-Type"@, "text/plain"@)
    } else {
        coded
    };
    let length = decimal_text(sent_body(r, packed).len());
    lemma_written_is_found(typed, "Content-Length"@, length);
    if r.content is Text {
        lemma_written_is_found(coded, "Content-Type"@, "text/plain"@);
        lemma_written_keeps_others(typed, "Content-Length"@, length, "Content-Type"@);
    }
}

/// A response that is marked for gzip, is not empty and could be compressed
/// is sent with the compressed stream as its body and with
/// `Content-Encoding: gzip`.
pub proof fn lemma_gzip_is_sent(r: ResponseView, packed: Option<Seq<u8>>)
    requires
        r.encoding == Encoding::Gzip,
        !(r.content is Empty),
        packed is Some,
    ensures
        sent_body(r, packed) == packed->0,
        lookup(sent_fields(r, packed), "Content-Encoding"@) == Some("gzip"@),
        lookup(sent_fields(r, packed), "Content-Length"@) == Some(decimal_text(packed->0.len())),
{
    lemma_names_differ();
    lemma_sent_length(r, packed);
    let coded = written(r.headers, "Content-Encoding"@, "gzip"@);
    let typed = if r.content is Text {
        written(coded, "Content-Type"@, "text/plain"@)
    } else {
        coded
    };
    let length = decimal_text(sent_body(r, packed).len());
    lemma_written_is_found(r.headers, "Content-Encoding"@, "gzip"@);
    if r.content is Text {
        lemma_written_keeps_others(coded, "Content-Type"@, "text/plain"@, "Content-Encoding"@);
    }
    lemma_written_keeps_others(typed, "Content-Length"@, length, "Content-Encoding"@);
}

/// A response whose body is not compressed carries no `Content-Encoding` but
/// its own.
pub proof fn lemma_identity_is_sent(r: ResponseView, packed: Option<Seq<u8>>)
    requires
        !wants_gzip(r) || packed is None,
    ensures
        sent_body(r, packed) == payload(r.content),
        lookup(sent_fields(r, packed), "Content-Encoding"@) == lookup(
            r.headers,
            "Content-Encoding"@,
        ),
{
    lemma_names_differ();
    if !(r.content is Empty) {
        let typed = if r.content is Text {
            written(r.headers, "Content-Type"@, "text/plain"@)
        } else {
            r.headers
        };
        let length = decimal_text(sent_body(r, packed).len());
        if r.content is Text {
            lemma_written_keeps_others(
                r.headers,
                "Content-Type"@,
                "text/plain"@,
                "Content-Encoding"@,
            );
        }
        lemma_written_keeps_others(typed, "Content-Length"@, length, "Content-Encoding"@);
    }
}

/// A field of the response's own that the encoder does not write is sent
/// with its value.
pub proof fn lemma_own_field_is_sent(r: ResponseView, packed: Option<Seq<u8>>, name: Seq<char>)
    requires
        name != "Content-Encoding"@,
        name != "Content-Type"@,
        name != "Content-Length"@,
    ensures
        lookup(sent_fields(r, packed), name) == lookup(r.headers, name),
{
    if !(r.content is Empty) {
        let coded = if wants_gzip(r) && packed is Some {
            written(r.headers, "Content-Encoding"@, "gzip"@)
        } else {
            r.headers
        };
        let typed = if r.content is Text {
            written(coded, "Content-Type"@, "text/plain"@)
        } else {
            coded
        };
        let length = decimal_text(sent_body(r, packed).len());
        lemma_written_keeps_others(r.headers, "Content-Encoding"@, "gzip"@, name);
        lemma_written_keeps_others(coded, "Content-Type"@, "text/plain"@, name);
        lemma_written_keeps_others(typed, "Content-Length"@, length, name);
    }
}

/// The bytes on the wire are settled by the response alone: responses that
/// are alike are sent alike.
pub proof fn lemma_encoding_is_stable(first: ResponseView, second: ResponseView)
    requires
        first.status == second.status,
        first.headers =~= second.headers,
        first.content == second.content,
        first.encoding == second.encoding,
    ensures
        encoded(first) == encoded(second),
{
}

impl From<Response> for Vec<u8> {
    /// The bytes of a response on the wire.
    fn from(response: Response) -> (out: Vec<u8>)
        ensures
            out@ == encoded(response@),
    {
        encode(response)
    }
}

/// No spec function can build a vector, so `from_spec` says nothing: what
/// `from` returns is stated by `from` itself, over the vector's view.
impl vstd::std_specs::convert::FromSpecImpl<Response> for Vec<u8> {
    open spec fn obeys_from_spec() -> bool {
        false
    }

    open spec fn from_spec(response: Response) -> Vec<u8> {
        vstd::pervasive::arbitrary()
    }
}

} // verus!
