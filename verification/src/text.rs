//! Scanning of decoded text: white space, trimming, lines, words and fields.
//!
//! The text is held as a slice of characters, and the pieces found in it are
//! given as [`Span`]s of that slice, so that nothing is copied while scanning.

use vstd::prelude::*;
use vstd::string::*;
use vstd::utf8::*;

verus! {

/// Whether `c` has the Unicode property `White_Space`.
pub open spec fn is_space(c: char) -> bool {
    let u = c as u32;
    ||| 0x09 <= u <= 0x0D
    ||| u == 0x20
    ||| u == 0x85
    ||| u == 0xA0
    ||| u == 0x1680
    ||| 0x2000 <= u <= 0x200A
    ||| u == 0x2028
    ||| u == 0x2029
    ||| u == 0x202F
    ||| u == 0x205F
    ||| u == 0x3000
}

/// Position of the first `c` in `s`, or `s.len()` where `c` does not occur.
pub open spec fn index_of(s: Seq<char>, c: char) -> nat
    decreases s.len(),
{
    if s.len() == 0 || s[0] == c {
        0
    } else {
        1 + index_of(s.drop_first(), c)
    }
}

/// Position of the first white space in `s`, or `s.len()` where there is none.
pub open spec fn space_index(s: Seq<char>) -> nat
    decreases s.len(),
{
    if s.len() == 0 || is_space(s[0]) {
        0
    } else {
        1 + space_index(s.drop_first())
    }
}

/// `s` without the white space it begins with.
pub open spec fn trim_start(s: Seq<char>) -> Seq<char>
    decreases s.len(),
{
    if s.len() > 0 && is_space(s[0]) {
        trim_start(s.drop_first())
    } else {
        s
    }
}

/// `s` without the white space it ends with.
pub open spec fn trim_end(s: Seq<char>) -> Seq<char>
    decreases s.len(),
{
    if s.len() > 0 && is_space(s.last()) {
        trim_end(s.drop_last())
    } else {
        s
    }
}

/// `s` without the white space at either end.
pub open spec fn trimmed(s: Seq<char>) -> Seq<char> {
    trim_end(trim_start(s))
}

/// `s` without one carriage return at its end, if it has one.
pub open spec fn without_cr(s: Seq<char>) -> Seq<char> {
    if s.len() > 0 && s.last() == '\r' {
        s.drop_last()
    } else {
        s
    }
}

/// The lines of `s`. A line ends at a line feed, or at the end of the text;
/// the line feed, and a carriage return just before it, are not part of the
/// line. Text that ends in a line feed has no empty last line.
pub open spec fn lines_of(s: Seq<char>) -> Seq<Seq<char>>
    decreases s.len(),
{
    if s.len() == 0 {
        Seq::empty()
    } else {
        let n = index_of(s, '\n');
        if n >= s.len() {
            seq![s]
        } else {
            seq![without_cr(s.take(n as int))] + lines_of(s.skip(n as int + 1))
        }
    }
}

/// The words of `s`: its longest runs of characters that are not white space.
pub open spec fn words_of(s: Seq<char>) -> Seq<Seq<char>>
    decreases s.len(),
{
    if s.len() == 0 {
        Seq::empty()
    } else if is_space(s[0]) {
        words_of(s.drop_first())
    } else {
        let n = space_index(s);
        if n >= s.len() {
            seq![s]
        } else {
            seq![s.take(n as int)] + words_of(s.skip(n as int))
        }
    }
}

/// The fields of `s` that the separator `c` parts. There is always one field
/// more than there are separators; a field may be empty.
pub open spec fn fields_of(s: Seq<char>, c: char) -> Seq<Seq<char>>
    decreases s.len(),
{
    let n = index_of(s, c);
    if n >= s.len() {
        seq![s]
    } else {
        seq![s.take(n as int)] + fields_of(s.skip(n as int + 1), c)
    }
}

/// Whether `s` begins with `pat`.
pub open spec fn begins_with(s: Seq<char>, pat: Seq<char>) -> bool {
    pat.len() <= s.len() && s.take(pat.len() as int) == pat
}

/// Where `pat` first occurs in `s`, or `s.len()` where it does not occur.
pub open spec fn first_match(s: Seq<char>, pat: Seq<char>) -> nat
    decreases s.len(),
{
    if s.len() == 0 || s.len() < pat.len() {
        s.len()
    } else if begins_with(s, pat) {
        0
    } else {
        1 + first_match(s.drop_first(), pat)
    }
}

/// What stands in `s` between the first `pat` and the next one after it, or
/// the end of `s` where no other follows. There is no such piece where `pat`
/// does not occur.
pub open spec fn segment_after(s: Seq<char>, pat: Seq<char>) -> Option<Seq<char>>
    recommends
        pat.len() > 0,
{
    let i = first_match(s, pat);
    if i >= s.len() {
        None
    } else {
        let rest = s.skip((i + pat.len()) as int);
        Some(rest.take(first_match(rest, pat) as int))
    }
}

/// A piece of a text: the characters from `lo` up to, not including, `hi`.
#[derive(Clone, Copy, Debug)]
pub struct Span {
    pub lo: usize,
    pub hi: usize,
}

impl Span {
    /// Whether the span lies in a text of `len` characters.
    pub open spec fn fits(self, len: nat) -> bool {
        self.lo <= self.hi <= len
    }

    /// The characters of `s` that the span covers.
    pub open spec fn of(self, s: Seq<char>) -> Seq<char> {
        s.subrange(self.lo as int, self.hi as int)
    }
}

/// The pieces of `s` that `spans` cover, in the order of `spans`.
pub open spec fn cut(s: Seq<char>, spans: Seq<Span>) -> Seq<Seq<char>> {
    Seq::new(spans.len(), |i: int| spans[i].of(s))
}

/// Whether every one of `spans` lies in a text of `len` characters.
pub open spec fn all_fit(spans: Seq<Span>, len: nat) -> bool {
    forall|i: int| 0 <= i < spans.len() ==> (#[trigger] spans[i]).fits(len)
}

/// Tells whether a character is white space.
pub fn is_whitespace(c: char) -> (r: bool)
    ensures
        r == is_space(c),
{
    let u: u32 = c as u32;
    (0x09 <= u && u <= 0x0D) || u == 0x20 || u == 0x85 || u == 0xA0 || u == 0x1680 || (0x2000 <= u
        && u <= 0x200A) || u == 0x2028 || u == 0x2029 || u == 0x202F || u == 0x205F || u == 0x3000
}

/// The characters of `s`, in order.
pub fn chars_of(s: &str) -> (v: Vec<char>)
    ensures
        v@ == s@,
{
    let mut v: Vec<char> = Vec::new();
    for c in it: s.chars()
        invariant
            v@ == it.seq().take(it.index()),
    {
        v.push(c);
    }
    v
}

/// Finds the first `c` in the span from `lo` to `hi`: returns its position in
/// `chars`, or `hi` where the span holds no `c`.
pub fn find(chars: &[char], lo: usize, hi: usize, c: char) -> (i: usize)
    requires
        lo <= hi <= chars@.len(),
    ensures
        lo <= i <= hi,
        i == lo + index_of(chars@.subrange(lo as int, hi as int), c),
{
    let mut i: usize = lo;
    while i < hi && chars[i] != c
        invariant
            lo <= i <= hi <= chars@.len(),
            index_of(chars@.subrange(lo as int, hi as int), c) == (i - lo) + index_of(
                chars@.subrange(i as int, hi as int),
                c,
            ),
        decreases hi - i,
    {
        proof {
            assert(chars@.subrange(i as int, hi as int).drop_first() =~= chars@.subrange(
                i + 1,
                hi as int,
            ));
        }
        i += 1;
    }
    i
}

/// Finds the first white space in the span from `lo` to `hi`: returns its
/// position in `chars`, or `hi` where the span holds none.
pub fn find_space(chars: &[char], lo: usize, hi: usize) -> (i: usize)
    requires
        lo <= hi <= chars@.len(),
    ensures
        lo <= i <= hi,
        i == lo + space_index(chars@.subrange(lo as int, hi as int)),
{
    let mut i: usize = lo;
    while i < hi && !is_whitespace(chars[i])
        invariant
            lo <= i <= hi <= chars@.len(),
            space_index(chars@.subrange(lo as int, hi as int)) == (i - lo) + space_index(
                chars@.subrange(i as int, hi as int),
            ),
        decreases hi - i,
    {
        proof {
            assert(chars@.subrange(i as int, hi as int).drop_first() =~= chars@.subrange(
                i + 1,
                hi as int,
            ));
        }
        i += 1;
    }
    i
}

/// Narrows a span until neither end is white space.
pub fn trim(chars: &[char], span: Span) -> (r: Span)
    requires
        span.fits(chars@.len()),
    ensures
        r.fits(chars@.len()),
        span.lo <= r.lo,
        r.hi <= span.hi,
        r.of(chars@) == trimmed(span.of(chars@)),
{
    let mut lo: usize = span.lo;
    let mut hi: usize = span.hi;
    while lo < hi && is_whitespace(chars[lo])
        invariant
            span.lo <= lo <= hi,
            hi == span.hi,
            hi <= chars@.len(),
            trim_start(span.of(chars@)) == trim_start(chars@.subrange(lo as int, hi as int)),
        decreases hi - lo,
    {
        proof {
            assert(chars@.subrange(lo as int, hi as int).drop_first() =~= chars@.subrange(
                lo + 1,
                hi as int,
            ));
        }
        lo += 1;
    }
    while lo < hi && is_whitespace(chars[hi - 1])
        invariant
            span.lo <= lo <= hi <= span.hi,
            hi <= chars@.len(),
            trimmed(span.of(chars@)) == trim_end(chars@.subrange(lo as int, hi as int)),
        decreases hi - lo,
    {
        proof {
            assert(chars@.subrange(lo as int, hi as int).drop_last() =~= chars@.subrange(
                lo as int,
                hi - 1,
            ));
        }
        hi -= 1;
    }
    Span { lo, hi }
}

/// Finds the lines of a text.
pub fn lines(chars: &[char]) -> (out: Vec<Span>)
    ensures
        all_fit(out@, chars@.len()),
        cut(chars@, out@) == lines_of(chars@),
{
    let len: usize = chars.len();
    let mut out: Vec<Span> = Vec::new();
    let mut pos: usize = 0;
    proof {
        assert(chars@.subrange(0, len as int) =~= chars@);
        assert(cut(chars@, out@) + lines_of(chars@) =~= lines_of(chars@));
    }
    while pos < len
        invariant
            pos <= len == chars@.len(),
            all_fit(out@, chars@.len()),
            lines_of(chars@) == cut(chars@, out@) + lines_of(
                chars@.subrange(pos as int, len as int),
            ),
        decreases len - pos,
    {
        let ghost rest = chars@.subrange(pos as int, len as int);
        let ghost before = out@;
        let end: usize = find(chars, pos, len, '\n');
        let line = if end == len {
            Span { lo: pos, hi: len }
        } else if end > pos && chars[end - 1] == '\r' {
            Span { lo: pos, hi: end - 1 }
        } else {
            Span { lo: pos, hi: end }
        };
        let next: usize = if end == len {
            len
        } else {
            end + 1
        };
        out.push(line);
        proof {
            let after = chars@.subrange(next as int, len as int);
            if end == len {
                assert(lines_of(rest) == seq![rest]);
                assert(lines_of(after) =~= Seq::<Seq<char>>::empty());
            } else {
                assert(rest.take(end - pos) =~= chars@.subrange(pos as int, end as int));
                assert(rest.skip(end - pos + 1) =~= after);
                if end > pos {
                    assert(chars@.subrange(pos as int, end as int).drop_last() =~= chars@.subrange(
                        pos as int,
                        end - 1,
                    ));
                }
                assert(lines_of(rest) == seq![line.of(chars@)] + lines_of(after));
            }
            assert(cut(chars@, out@) =~= cut(chars@, before) + seq![line.of(chars@)]);
            assert(cut(chars@, out@) + lines_of(after) =~= cut(chars@, before) + lines_of(rest));
        }
        pos = next;
    }
    proof {
        assert(cut(chars@, out@) + Seq::<Seq<char>>::empty() =~= cut(chars@, out@));
    }
    out
}

/// Finds the words in a span of a text.
pub fn words(chars: &[char], span: Span) -> (out: Vec<Span>)
    requires
        span.fits(chars@.len()),
    ensures
        all_fit(out@, chars@.len()),
        cut(chars@, out@) == words_of(span.of(chars@)),
{
    let hi: usize = span.hi;
    let mut out: Vec<Span> = Vec::new();
    let mut pos: usize = span.lo;
    proof {
        assert(cut(chars@, out@) + words_of(span.of(chars@)) =~= words_of(span.of(chars@)));
    }
    while pos < hi
        invariant
            span.lo <= pos <= hi == span.hi,
            hi <= chars@.len(),
            all_fit(out@, chars@.len()),
            words_of(span.of(chars@)) == cut(chars@, out@) + words_of(
                chars@.subrange(pos as int, hi as int),
            ),
        decreases hi - pos,
    {
        let ghost rest = chars@.subrange(pos as int, hi as int);
        if is_whitespace(chars[pos]) {
            proof {
                assert(rest.drop_first() =~= chars@.subrange(pos + 1, hi as int));
            }
            pos += 1;
        } else {
            let ghost before = out@;
            let end: usize = find_space(chars, pos, hi);
            let word = Span { lo: pos, hi: end };
            out.push(word);
            proof {
                let after = chars@.subrange(end as int, hi as int);
                if end == hi {
                    assert(words_of(rest) == seq![rest]);
                    assert(words_of(after) =~= Seq::<Seq<char>>::empty());
                } else {
                    assert(rest.take(end - pos) =~= word.of(chars@));
                    assert(rest.skip(end - pos) =~= after);
                }
                assert(words_of(rest) == seq![word.of(chars@)] + words_of(after));
                assert(cut(chars@, out@) =~= cut(chars@, before) + seq![word.of(chars@)]);
                assert(cut(chars@, out@) + words_of(after) =~= cut(chars@, before) + words_of(
                    rest,
                ));
            }
            pos = end;
        }
    }
    proof {
        assert(cut(chars@, out@) + Seq::<Seq<char>>::empty() =~= cut(chars@, out@));
    }
    out
}

/// Finds the fields that the separator `sep` parts in a span of a text.
pub fn fields(chars: &[char], span: Span, sep: char) -> (out: Vec<Span>)
    requires
        span.fits(chars@.len()),
    ensures
        all_fit(out@, chars@.len()),
        cut(chars@, out@) == fields_of(span.of(chars@), sep),
{
    let hi: usize = span.hi;
    let mut out: Vec<Span> = Vec::new();
    let mut pos: usize = span.lo;
    let mut open: bool = true;
    proof {
        assert(cut(chars@, out@) + fields_of(span.of(chars@), sep) =~= fields_of(
            span.of(chars@),
            sep,
        ));
    }
    while open
        invariant
            span.lo <= pos <= hi == span.hi,
            hi <= chars@.len(),
            all_fit(out@, chars@.len()),
            open ==> fields_of(span.of(chars@), sep) == cut(chars@, out@) + fields_of(
                chars@.subrange(pos as int, hi as int),
                sep,
            ),
            !open ==> fields_of(span.of(chars@), sep) == cut(chars@, out@),
        decreases hi - pos + (if open { 1nat } else { 0nat }),
    {
        let ghost rest = chars@.subrange(pos as int, hi as int);
        let ghost before = out@;
        let end: usize = find(chars, pos, hi, sep);
        let field = Span { lo: pos, hi: end };
        out.push(field);
        proof {
            assert(cut(chars@, out@) =~= cut(chars@, before) + seq![field.of(chars@)]);
        }
        if end == hi {
            open = false;
        } else {
            proof {
                let after = chars@.subrange(end + 1, hi as int);
                assert(rest.take(end - pos) =~= field.of(chars@));
                assert(rest.skip(end - pos + 1) =~= after);
                assert(cut(chars@, out@) + fields_of(after, sep) =~= cut(chars@, before)
                    + fields_of(rest, sep));
            }
            pos = end + 1;
        }
    }
    out
}

/// Tells whether two strings hold the same characters.
pub fn same_text(a: &str, b: &str) -> (r: bool)
    ensures
        r == (a@ == b@),
{
    let x = a.as_bytes();
    let y = b.as_bytes();
    proof {
        encode_utf8_decode_utf8(a@);
        encode_utf8_decode_utf8(b@);
    }
    if x.len() != y.len() {
        return false;
    }
    let mut i: usize = 0;
    while i < x.len()
        invariant
            i <= x@.len() == y@.len(),
            x@ == encode_utf8(a@),
            y@ == encode_utf8(b@),
            forall|j: int| 0 <= j < i ==> x@[j] == y@[j],
        decreases x@.len() - i,
    {
        if x[i] != y[i] {
            return false;
        }
        i += 1;
    }
    proof {
        assert(x@ =~= y@);
    }
    true
}

/// Copies a span of a text into a string of its own.
pub fn copy_span(text: &str, span: Span) -> (r: String)
    requires
        span.fits(text@.len()),
    ensures
        r@ == span.of(text@),
{
    text.substring_char(span.lo, span.hi).to_owned()
}

/// What `first_match` returns: a place in `s`, and one at which `pat` stands
/// unless it is the end of `s`.
pub proof fn lemma_first_match(s: Seq<char>, pat: Seq<char>)
    requires
        pat.len() > 0,
    ensures
        first_match(s, pat) <= s.len(),
        first_match(s, pat) < s.len() ==> begins_with(s.skip(first_match(s, pat) as int), pat),
    decreases s.len(),
{
    if s.len() == 0 || s.len() < pat.len() {
    } else if begins_with(s, pat) {
        assert(s.skip(0) =~= s);
    } else {
        let rest = s.drop_first();
        lemma_first_match(rest, pat);
        let n = first_match(rest, pat) as int;
        if n < rest.len() {
            assert(s.skip(n + 1) =~= rest.skip(n));
        }
    }
}

/// Tells whether `pat` stands at place `at` of `chars`.
pub fn matches_at(chars: &[char], at: usize, pat: &[char]) -> (r: bool)
    requires
        at <= chars@.len(),
    ensures
        r == begins_with(chars@.skip(at as int), pat@),
{
    let n: usize = pat.len();
    let len: usize = chars.len();
    if len - at < n {
        return false;
    }
    let mut k: usize = 0;
    while k < n
        invariant
            k <= n == pat@.len(),
            at + n <= len == chars@.len(),
            forall|j: int| 0 <= j < k ==> chars@[at + j] == pat@[j],
        decreases n - k,
    {
        if chars[at + k] != pat[k] {
            proof {
                assert(chars@.skip(at as int).take(n as int)[k as int] == chars@[at + k]);
            }
            return false;
        }
        k += 1;
    }
    proof {
        assert(chars@.skip(at as int).take(n as int) =~= pat@);
    }
    true
}

/// Finds where `pat` first occurs in `chars` at or after `from`: returns that
/// place, or `chars.len()` where there is none.
pub fn find_text(chars: &[char], from: usize, pat: &[char]) -> (i: usize)
    requires
        from <= chars@.len(),
    ensures
        from <= i <= chars@.len(),
        i == from + first_match(chars@.skip(from as int), pat@),
{
    let len: usize = chars.len();
    let n: usize = pat.len();
    let mut i: usize = from;
    while len - i >= n && !matches_at(chars, i, pat)
        invariant
            from <= i <= len == chars@.len(),
            n == pat@.len(),
            first_match(chars@.skip(from as int), pat@) == (i - from) + first_match(
                chars@.skip(i as int),
                pat@,
            ),
        decreases len - i,
    {
        proof {
            if n == 0 {
                assert(chars@.skip(i as int).take(0) =~= pat@);
            }
            assert(chars@.skip(i as int).drop_first() =~= chars@.skip(i + 1));
        }
        i += 1;
    }
    if len - i < n {
        len
    } else {
        i
    }
}

/// Copies out of `text` what stands between the first `marker` and the next.
pub fn segment(text: &str, marker: &str) -> (r: Option<String>)
    requires
        marker@.len() > 0,
    ensures
        match r {
            Some(piece) => segment_after(text@, marker@) == Some(piece@),
            None => segment_after(text@, marker@) is None,
        },
{
    let chars = chars_of(text);
    let pat = chars_of(marker);
    let len: usize = chars.len();
    proof {
        assert(chars@.skip(0) =~= chars@);
        lemma_first_match(chars@, pat@);
    }
    let i: usize = find_text(chars.as_slice(), 0, pat.as_slice());
    if i >= len {
        return None;
    }
    let start: usize = i + pat.len();
    let end: usize = find_text(chars.as_slice(), start, pat.as_slice());
    proof {
        assert(chars@.skip(start as int).take(end - start) =~= chars@.subrange(
            start as int,
            end as int,
        ));
    }
    Some(copy_span(text, Span { lo: start, hi: end }))
}

/// Tells whether `text` begins with `prefix`.
pub fn starts_with(text: &str, prefix: &str) -> (r: bool)
    ensures
        r == begins_with(text@, prefix@),
{
    let chars = chars_of(text);
    let pat = chars_of(prefix);
    proof {
        assert(chars@.skip(0) =~= chars@);
    }
    matches_at(chars.as_slice(), 0, pat.as_slice())
}

/// What `index_of` returns: the least index that holds `c`.
pub proof fn lemma_index_of(s: Seq<char>, c: char)
    ensures
        index_of(s, c) <= s.len(),
        index_of(s, c) < s.len() ==> s[index_of(s, c) as int] == c,
        forall|i: int| 0 <= i < index_of(s, c) ==> s[i] != c,
    decreases s.len(),
{
    if s.len() == 0 || s[0] == c {
    } else {
        let rest = s.drop_first();
        lemma_index_of(rest, c);
        assert forall|i: int| 0 <= i < index_of(s, c) implies s[i] != c by {
            if i > 0 {
                assert(s[i] == rest[i - 1]);
            }
        }
    }
}

/// An index that holds `c` with no earlier one that does is what `index_of`
/// returns.
pub proof fn lemma_index_of_is(s: Seq<char>, c: char, p: int)
    requires
        0 <= p <= s.len(),
        p < s.len() ==> s[p] == c,
        forall|i: int| 0 <= i < p ==> s[i] != c,
    ensures
        index_of(s, c) == p,
{
    lemma_index_of(s, c);
}

/// What `trim_start` leaves: `s` from its first character that is not white
/// space. Returns where that character stands, or `s.len()`.
pub proof fn lemma_trim_start(s: Seq<char>) -> (a: int)
    ensures
        0 <= a <= s.len(),
        trim_start(s) == s.skip(a),
        forall|i: int| 0 <= i < a ==> is_space(s[i]),
        a < s.len() ==> !is_space(s[a]),
    decreases s.len(),
{
    if s.len() > 0 && is_space(s[0]) {
        let rest = s.drop_first();
        let b = lemma_trim_start(rest);
        assert(rest.skip(b) =~= s.skip(b + 1));
        assert forall|i: int| 0 <= i < b + 1 implies is_space(s[i]) by {
            if i > 0 {
                assert(s[i] == rest[i - 1]);
            }
        }
        b + 1
    } else {
        assert(s.skip(0) =~= s);
        0
    }
}

/// What `trim_end` leaves: `s` up to its last character that is not white
/// space. Returns the place after that character, or 0.
pub proof fn lemma_trim_end(s: Seq<char>) -> (b: int)
    ensures
        0 <= b <= s.len(),
        trim_end(s) == s.take(b),
        forall|i: int| b <= i < s.len() ==> is_space(s[i]),
        0 < b ==> !is_space(s[b - 1]),
    decreases s.len(),
{
    if s.len() > 0 && is_space(s.last()) {
        let rest = s.drop_last();
        let b = lemma_trim_end(rest);
        assert(rest.take(b) =~= s.take(b));
        assert forall|i: int| b <= i < s.len() implies is_space(s[i]) by {
            if i < rest.len() {
                assert(s[i] == rest[i]);
            }
        }
        b
    } else {
        assert(s.take(s.len() as int) =~= s);
        s.len() as int
    }
}

/// What `trimmed` leaves: the part of `s` from its first to its last
/// character that is not white space. Returns where that part begins and
/// ends.
pub proof fn lemma_trimmed(s: Seq<char>) -> (ends: (int, int))
    ensures
        0 <= ends.0 <= ends.1 <= s.len(),
        trimmed(s) == s.subrange(ends.0, ends.1),
        forall|i: int| 0 <= i < ends.0 ==> is_space(s[i]),
        forall|i: int| ends.1 <= i < s.len() ==> is_space(s[i]),
        ends.0 < ends.1 ==> !is_space(s[ends.0]) && !is_space(s[ends.1 - 1]),
{
    let a = lemma_trim_start(s);
    let rest = s.skip(a);
    let b = lemma_trim_end(rest);
    assert(rest.take(b) =~= s.subrange(a, a + b));
    assert forall|i: int| a + b <= i < s.len() implies is_space(s[i]) by {
        assert(s[i] == rest[i - a]);
    }
    if b > 0 {
        assert(rest[b - 1] == s[a + b - 1]);
        assert(rest[0] == s[a]);
    }
    (a, a + b)
}

} // verus!
