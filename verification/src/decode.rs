//! The decoder: from the bytes of a connection to a request.

use crate::buffer::{bytes_of, held};
use crate::h1::{DecodeFailure, DecodeHttpError, Method, Request, RequestView};
use crate::headers::{
    distinct, lemma_written_distinct, lemma_written_is_found, lemma_written_keeps_others, lookup,
    written, Fields, Headers,
};
use crate::text::{
    all_fit, chars_of, copy_span, cut, find, index_of, lemma_index_of_is, lines, lines_of,
    same_text, trim, trimmed, words, words_of, Span,
};
use bytes::BytesMut;
use vstd::prelude::*;
use vstd::slice::slice_subrange;
use vstd::string::*;
use vstd::utf8::*;

verus! {

/// Whether `bytes` begin with the blank line that ends a header block:
/// carriage return, line feed, carriage return, line feed.
pub open spec fn starts_with_blank_line(bytes: Seq<u8>) -> bool {
    &&& bytes.len() >= 4
    &&& bytes[0] == 13
    &&& bytes[1] == 10
    &&& bytes[2] == 13
    &&& bytes[3] == 10
}

/// Where the first blank line begins in `bytes`, or `bytes.len()` where there
/// is none.
pub open spec fn terminator_index(bytes: Seq<u8>) -> nat
    decreases bytes.len(),
{
    if bytes.len() < 4 {
        bytes.len()
    } else if starts_with_blank_line(bytes) {
        0
    } else {
        1 + terminator_index(bytes.drop_first())
    }
}

/// The method that a word of the request line names.
pub open spec fn method_of(word: Seq<char>) -> Option<Method> {
    if word == "GET"@ {
        Some(Method::Get)
    } else if word == "POST"@ {
        Some(Method::Post)
    } else {
        None
    }
}

/// The name that a header line writes: what stands before its first colon,
/// without the white space around it.
pub open spec fn name_of(line: Seq<char>) -> Seq<char> {
    trimmed(line.take(index_of(line, ':') as int))
}

/// The value that a header line writes: what stands after its first colon,
/// without the white space around it.
pub open spec fn value_of(line: Seq<char>) -> Seq<char> {
    trimmed(line.skip(index_of(line, ':') as int + 1))
}

/// Name and value of a header line. A line without a colon is no header
/// line.
pub open spec fn header_of(line: Seq<char>) -> Option<(Seq<char>, Seq<char>)> {
    if index_of(line, ':') >= line.len() {
        None
    } else {
        Some((name_of(line), value_of(line)))
    }
}

/// The header fields that `lines` write, one after the other, so that of two
/// lines with one name the later one decides the value. There are none if one
/// of the lines is no header line.
pub open spec fn headers_of(lines: Seq<Seq<char>>) -> Option<Fields>
    decreases lines.len(),
{
    if lines.len() == 0 {
        Some(Fields::empty())
    } else {
        match (headers_of(lines.drop_last()), header_of(lines.last())) {
            (Some(fields), Some((name, value))) => Some(written(fields, name, value)),
            _ => None,
        }
    }
}

/// The request that the text of a header block describes. The first line is
/// the request line, of at least three words: method, target and version.
/// Every other line is a header line.
pub open spec fn parsed_head(text: Seq<char>) -> Result<RequestView, DecodeFailure> {
    let lines = lines_of(text);
    if lines.len() == 0 {
        Err(DecodeFailure::MalformedHeaderLine)
    } else {
        let words = words_of(lines[0]);
        if words.len() < 3 {
            Err(DecodeFailure::MalformedHeaderLine)
        } else {
            match method_of(words[0]) {
                None => Err(DecodeFailure::UnsupportedMethod(words[0])),
                Some(method) => match headers_of(lines.skip(1)) {
                    None => Err(DecodeFailure::MalformedHeaderLine),
                    Some(headers) => Ok(
                        RequestView { method, uri: words[1], headers, body: None },
                    ),
                },
            }
        }
    }
}

/// The header block of `bytes`: what stands before the first blank line.
pub open spec fn head_of(bytes: Seq<u8>) -> Seq<u8> {
    bytes.take(terminator_index(bytes) as int)
}

/// What decoding `bytes` gives: the request of the first header block, and
/// the number of bytes up to the end of the blank line that closes it.
pub open spec fn decoded(bytes: Seq<u8>) -> Result<(RequestView, nat), DecodeFailure> {
    if terminator_index(bytes) >= bytes.len() {
        Err(DecodeFailure::MissingHeaderTerminator)
    } else if !valid_utf8(head_of(bytes)) {
        Err(DecodeFailure::MalformedHeaderLine)
    } else {
        match parsed_head(decode_utf8(head_of(bytes))) {
            Ok(request) => Ok((request, terminator_index(bytes) + 4)),
            Err(failure) => Err(failure),
        }
    }
}

/// The model of what the decoder returns.
pub open spec fn outcome(r: Result<(Request, usize), DecodeHttpError>) -> Result<
    (RequestView, nat),
    DecodeFailure,
> {
    match r {
        Ok((request, used)) => Ok((request@, used as nat)),
        Err(error) => Err(error@),
    }
}

/// What `terminator_index` returns: the least index at which a blank line
/// begins.
pub proof fn lemma_terminator_index(bytes: Seq<u8>)
    ensures
        terminator_index(bytes) <= bytes.len(),
        terminator_index(bytes) < bytes.len() ==> starts_with_blank_line(
            bytes.skip(terminator_index(bytes) as int),
        ),
        forall|i: int|
            0 <= i < terminator_index(bytes) ==> !starts_with_blank_line(#[trigger] bytes.skip(i)),
    decreases bytes.len(),
{
    if bytes.len() < 4 {
        assert forall|i: int| 0 <= i < bytes.len() implies !starts_with_blank_line(
            #[trigger] bytes.skip(i),
        ) by {}
    } else if starts_with_blank_line(bytes) {
        assert(bytes.skip(0) =~= bytes);
    } else {
        let rest = bytes.drop_first();
        lemma_terminator_index(rest);
        let n = terminator_index(rest) as int;
        if n < rest.len() {
            assert(bytes.skip(n + 1) =~= rest.skip(n));
        }
        assert forall|i: int| 0 <= i < n + 1 implies !starts_with_blank_line(
            #[trigger] bytes.skip(i),
        ) by {
            if i == 0 {
                assert(bytes.skip(0) =~= bytes);
            } else {
                assert(bytes.skip(i) =~= rest.skip(i - 1));
            }
        }
    }
}

/// What is decoded ends within the bytes.
pub proof fn lemma_decoded_bounds(bytes: Seq<u8>)
    ensures
        decoded(bytes) matches Ok((_, used)) ==> 4 <= used <= bytes.len(),
{
    lemma_terminator_index(bytes);
}

/// Finds the blank line that ends the header block.
pub fn find_terminator(bytes: &[u8]) -> (r: Option<usize>)
    ensures
        match r {
            Some(i) => i == terminator_index(bytes@) && i + 4 <= bytes@.len(),
            None => terminator_index(bytes@) == bytes@.len(),
        },
{
    let len: usize = bytes.len();
    let mut i: usize = 0;
    proof {
        assert(bytes@.skip(0) =~= bytes@);
    }
    while len - i >= 4
        invariant
            i <= len == bytes@.len(),
            terminator_index(bytes@) == i + terminator_index(bytes@.skip(i as int)),
        decreases len - i,
    {
        if bytes[i] == 13 && bytes[i + 1] == 10 && bytes[i + 2] == 13 && bytes[i + 3] == 10 {
            return Some(i);
        }
        proof {
            assert(bytes@.skip(i as int).drop_first() =~= bytes@.skip(i + 1));
        }
        i += 1;
    }
    None
}

/// `core::str::from_utf8`: where `bytes` are well-formed UTF-8, the text that
/// they encode; nothing where they are not.
#[verifier::external_body]
fn text_of(bytes: &[u8]) -> (text: Option<&str>)
    ensures
        text is Some <==> valid_utf8(bytes@),
        text is Some ==> text->0.spec_bytes() == bytes@,
{
    core::str::from_utf8(bytes).ok()
}

/// If all of `lines` are header lines, so are the first `n` of them.
pub proof fn lemma_headers_of_prefix(lines: Seq<Seq<char>>, n: int)
    requires
        0 <= n <= lines.len(),
        headers_of(lines) is Some,
    ensures
        headers_of(lines.take(n)) is Some,
    decreases lines.len(),
{
    if n == lines.len() {
        assert(lines.take(n) =~= lines);
    } else {
        lemma_headers_of_prefix(lines.drop_last(), n);
        assert(lines.drop_last().take(n) =~= lines.take(n));
    }
}

/// Reads a header block that has been decoded as text.
pub fn parse_head(text: &str) -> (r: Result<Request, DecodeHttpError>)
    ensures
        match r {
            Ok(request) => parsed_head(text@) == Ok::<RequestView, DecodeFailure>(request@),
            Err(error) => parsed_head(text@) == Err::<RequestView, DecodeFailure>(error@),
        },
{
    let chars = chars_of(text);
    let rows = lines(chars.as_slice());
    if rows.len() == 0 {
        return Err(DecodeHttpError::MalformedHeaderLine);
    }
    let parts = words(chars.as_slice(), rows[0]);
    if parts.len() < 3 {
        return Err(DecodeHttpError::MalformedHeaderLine);
    }
    let ghost all = lines_of(text@);
    let ghost tokens = words_of(all[0]);
    proof {
        assert(all[0] == cut(chars@, rows@)[0]);
        assert(tokens[0] == cut(chars@, parts@)[0]);
        assert(tokens[1] == cut(chars@, parts@)[1]);
    }
    let token = copy_span(text, parts[0]);
    let method = if same_text(token.as_str(), "GET") {
        Method::Get
    } else if same_text(token.as_str(), "POST") {
        Method::Post
    } else {
        return Err(DecodeHttpError::UnsupportedMethod(token));
    };
    let uri = copy_span(text, parts[1]);
    let mut headers = Headers::new();
    let mut i: usize = 1;
    proof {
        assert(all.skip(1).take(0) =~= Seq::<Seq<char>>::empty());
    }
    while i < rows.len()
        invariant
            1 <= i <= rows@.len(),
            chars@ == text@,
            all == lines_of(text@),
            all_fit(rows@, chars@.len()),
            cut(chars@, rows@) == all,
            tokens == words_of(all[0]),
            tokens.len() >= 3,
            method_of(tokens[0]) == Some(method),
            tokens[1] == uri@,
            headers_of(all.skip(1).take(i - 1)) == Some(headers@),
        decreases rows@.len() - i,
    {
        let row: Span = rows[i];
        let ghost line = all[i as int];
        let ghost seen = all.skip(1).take(i - 1);
        proof {
            assert(line == cut(chars@, rows@)[i as int]);
            assert(all.skip(1).take(i as int).drop_last() =~= seen);
            assert(all.skip(1).take(i as int).last() == line);
        }
        let colon: usize = find(chars.as_slice(), row.lo, row.hi, ':');
        if colon == row.hi {
            proof {
                assert(line == chars@.subrange(row.lo as int, row.hi as int));
                assert(header_of(line) is None);
                assert(headers_of(all.skip(1).take(i as int)) is None);
                if headers_of(all.skip(1)) is Some {
                    lemma_headers_of_prefix(all.skip(1), i as int);
                }
            }
            return Err(DecodeHttpError::MalformedHeaderLine);
        }
        let name = trim(chars.as_slice(), Span { lo: row.lo, hi: colon });
        let value = trim(chars.as_slice(), Span { lo: colon + 1, hi: row.hi });
        proof {
            assert(line.take(colon - row.lo) =~= chars@.subrange(row.lo as int, colon as int));
            assert(line.skip(colon - row.lo + 1) =~= chars@.subrange(colon + 1, row.hi as int));
        }
        headers.insert(copy_span(text, name), copy_span(text, value));
        i += 1;
    }
    proof {
        assert(all.skip(1).take(i - 1) =~= all.skip(1));
    }
    Ok(Request { method, uri, headers, body: None })
}

/// Decodes the first header block in `bytes`.
pub fn decode_bytes(bytes: &[u8]) -> (r: Result<(Request, usize), DecodeHttpError>)
    ensures
        outcome(r) == decoded(bytes@),
{
    let len: usize = bytes.len();
    let end: usize = match find_terminator(bytes) {
        Some(end) => end,
        None => {
            return Err(DecodeHttpError::MissingHeaderTerminator);
        },
    };
    let head = slice_subrange(bytes, 0, end);
    let text = match text_of(head) {
        Some(text) => text,
        None => {
            return Err(DecodeHttpError::MalformedHeaderLine);
        },
    };
    proof {
        encode_utf8_decode_utf8(text@);
    }
    match parse_head(text) {
        Ok(request) => Ok((request, end + 4)),
        Err(error) => Err(error),
    }
}

/// Decodes the request at the front of a connection's buffer.
///
/// Returns the request, without a body, and the number of bytes that its
/// header block takes, blank line included; the buffer itself is left as it
/// is. The request is `Ok` if and only if the buffer holds a blank line, the
/// bytes before the first one are UTF-8, their first line has at least three
/// words of which the first is `GET` or `POST`, and every other line has a
/// colon.
pub fn decode_http_request(buf: &BytesMut) -> (r: Result<(Request, usize), DecodeHttpError>)
    ensures
        outcome(r) == decoded(held(*buf)),
{
    decode_bytes(bytes_of(buf))
}

/// A header line is parted at its first colon, and the white space around
/// either part does not count.
pub proof fn lemma_header_line_is_trimmed(name: Seq<char>, value: Seq<char>)
    requires
        forall|i: int| 0 <= i < name.len() ==> name[i] != ':',
    ensures
        header_of(name + seq![':'] + value) == Some((trimmed(name), trimmed(value))),
{
    let line = name + seq![':'] + value;
    lemma_index_of_is(line, ':', name.len() as int);
    assert(line.take(name.len() as int) =~= name);
    assert(line.skip(name.len() as int + 1) =~= value);
}

/// Of the lines that write one name, the last decides: a line after which
/// no line writes the same name gives the field its value.
pub proof fn lemma_last_line_wins(lines: Seq<Seq<char>>, i: int)
    requires
        headers_of(lines) is Some,
        0 <= i < lines.len(),
        forall|j: int|
            i < j < lines.len() ==> name_of(#[trigger] lines[j]) != name_of(lines[i]),
    ensures
        header_of(lines[i]) is Some,
        lookup(headers_of(lines)->0, name_of(lines[i])) == Some(value_of(lines[i])),
    decreases lines.len(),
{
    let before = lines.drop_last();
    let fields = headers_of(before)->0;
    let (name, value) = header_of(lines.last())->0;
    if i == lines.len() - 1 {
        lemma_written_is_found(fields, name, value);
    } else {
        assert forall|j: int| i < j < before.len() implies name_of(#[trigger] before[j])
            != name_of(before[i]) by {
            assert(before[j] == lines[j]);
        }
        lemma_last_line_wins(before, i);
        assert(lines.last() == lines[lines.len() - 1]);
        lemma_written_keeps_others(fields, name, value, name_of(lines[i]));
    }
}

/// However often the lines write a name, the fields hold it once.
pub proof fn lemma_headers_of_distinct(lines: Seq<Seq<char>>)
    requires
        headers_of(lines) is Some,
    ensures
        distinct(headers_of(lines)->0),
    decreases lines.len(),
{
    if lines.len() > 0 {
        lemma_headers_of_distinct(lines.drop_last());
        lemma_written_distinct(
            headers_of(lines.drop_last())->0,
            name_of(lines.last()),
            value_of(lines.last()),
        );
    }
}

/// Every field is written by one of the lines.
pub proof fn lemma_field_has_line(lines: Seq<Seq<char>>, name: Seq<char>)
    requires
        headers_of(lines) is Some,
        lookup(headers_of(lines)->0, name) is Some,
    ensures
        exists|i: int| 0 <= i < lines.len() && name_of(#[trigger] lines[i]) == name,
    decreases lines.len(),
{
    if lines.len() == 0 {
    } else {
        let before = lines.drop_last();
        let fields = headers_of(before)->0;
        let (last_name, last_value) = header_of(lines.last())->0;
        if last_name == name {
            assert(name_of(lines[lines.len() - 1]) == name);
        } else {
            lemma_written_keeps_others(fields, last_name, last_value, name);
            lemma_field_has_line(before, name);
            let i = choose|i: int| 0 <= i < before.len() && name_of(#[trigger] before[i]) == name;
            assert(before[i] == lines[i]);
        }
    }
}

/// A request line whose first word is neither `GET` nor `POST` is answered
/// with that word, whatever the header lines hold.
pub proof fn lemma_unsupported_method(text: Seq<char>)
    requires
        lines_of(text).len() > 0,
        words_of(lines_of(text)[0]).len() >= 3,
        words_of(lines_of(text)[0])[0] != "GET"@,
        words_of(lines_of(text)[0])[0] != "POST"@,
    ensures
        parsed_head(text) == Err::<RequestView, DecodeFailure>(
            DecodeFailure::UnsupportedMethod(words_of(lines_of(text)[0])[0]),
        ),
{
}

/// Bytes whose request line names a method other than `GET` and `POST` are
/// refused with the name of that method, and give no request.
pub proof fn lemma_other_method_is_refused(bytes: Seq<u8>)
    requires
        terminator_index(bytes) < bytes.len(),
        valid_utf8(head_of(bytes)),
        lines_of(decode_utf8(head_of(bytes))).len() > 0,
        words_of(lines_of(decode_utf8(head_of(bytes)))[0]).len() >= 3,
        words_of(lines_of(decode_utf8(head_of(bytes)))[0])[0] != "GET"@,
        words_of(lines_of(decode_utf8(head_of(bytes)))[0])[0] != "POST"@,
    ensures
        decoded(bytes) == Err::<(RequestView, nat), DecodeFailure>(
            DecodeFailure::UnsupportedMethod(words_of(lines_of(decode_utf8(head_of(bytes)))[0])[0]),
        ),
{
    lemma_unsupported_method(decode_utf8(head_of(bytes)));
}

/// Bytes give a request only where their request line begins with `GET` or
/// `POST`, and the request has that method.
pub proof fn lemma_decoded_has_method(bytes: Seq<u8>)
    requires
        decoded(bytes) is Ok,
    ensures
        ({
            let text = decode_utf8(head_of(bytes));
            let request = decoded(bytes)->Ok_0.0;
            &&& lines_of(text).len() > 0
            &&& words_of(lines_of(text)[0]).len() >= 3
            &&& method_of(words_of(lines_of(text)[0])[0]) == Some(request.method)
            &&& request.uri == words_of(lines_of(text)[0])[1]
            &&& headers_of(lines_of(text).skip(1)) == Some(request.headers)
        }),
{
    lemma_request_has_method(decode_utf8(head_of(bytes)));
}

/// A request is made only of a request line whose first word is `GET` or
/// `POST`: that word is its method, and the second one its target.
pub proof fn lemma_request_has_method(text: Seq<char>)
    requires
        parsed_head(text) is Ok,
    ensures
        lines_of(text).len() > 0,
        words_of(lines_of(text)[0]).len() >= 3,
        method_of(words_of(lines_of(text)[0])[0]) == Some(parsed_head(text)->Ok_0.method),
        parsed_head(text)->Ok_0.uri == words_of(lines_of(text)[0])[1],
        headers_of(lines_of(text).skip(1)) == Some(parsed_head(text)->Ok_0.headers),
        parsed_head(text)->Ok_0.body is None,
{
}

/// What is decoded is settled by the bytes alone: from the same bytes, the
/// same request or the same failure.
pub proof fn lemma_decoding_is_stable(first: Seq<u8>, second: Seq<u8>)
    requires
        first =~= second,
    ensures
        decoded(first) == decoded(second),
{
}

} // verus!
