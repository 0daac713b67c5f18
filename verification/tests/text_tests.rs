use http_core::text::{
    chars_of, copy_span, fields, find, find_space, find_text, is_whitespace, lines, matches_at,
    same_text, segment, starts_with, trim, words, Span,
};

fn piece(chars: &[char], span: Span) -> String {
    chars[span.lo..span.hi].iter().collect()
}

fn pieces(chars: &[char], spans: &[Span]) -> Vec<String> {
    spans.iter().map(|span| piece(chars, *span)).collect()
}

fn whole(chars: &[char]) -> Span {
    Span { lo: 0, hi: chars.len() }
}

/// Texts made of a few characters that matter to the scanners, in every
/// order, up to a given length.
fn samples(alphabet: &[char], longest: usize) -> Vec<String> {
    let mut all = vec![String::new()];
    let mut last = vec![String::new()];
    for _ in 0..longest {
        let mut next = Vec::new();
        for text in &last {
            for c in alphabet {
                let mut longer = text.clone();
                longer.push(*c);
                next.push(longer);
            }
        }
        all.extend(next.iter().cloned());
        last = next;
    }
    all
}

#[test]
fn whitespace_is_what_std_calls_whitespace() {
    for code in 0..=0x10FFFFu32 {
        if let Some(c) = char::from_u32(code) {
            assert_eq!(is_whitespace(c), c.is_whitespace(), "U+{:04X}", code);
        }
    }
}

#[test]
fn chars_of_gives_every_character() {
    assert_eq!(chars_of(""), Vec::<char>::new());
    assert_eq!(chars_of("a\u{e9}\u{4e2d}\u{1F600}z"), vec!['a', '\u{e9}', '\u{4e2d}', '\u{1F600}', 'z']);
}

#[test]
fn same_text_compares_characters() {
    assert!(same_text("", ""));
    assert!(same_text("close", "close"));
    assert!(!same_text("close", "Close"));
    assert!(!same_text("close", "clos"));
    assert!(!same_text("clos", "close"));
    assert!(same_text("gr\u{fc}n", "gr\u{fc}n"));
    assert!(!same_text("gr\u{fc}n", "grun"));
}

#[test]
fn copy_span_counts_characters_not_bytes() {
    let text = "\u{e9}t\u{e9} 2024";
    assert_eq!(copy_span(text, Span { lo: 0, hi: 3 }), "\u{e9}t\u{e9}");
    assert_eq!(copy_span(text, Span { lo: 4, hi: 8 }), "2024");
    assert_eq!(copy_span(text, Span { lo: 2, hi: 2 }), "");
}

#[test]
fn find_gives_the_first_place_or_the_end() {
    let chars = chars_of("a:b:c");
    assert_eq!(find(&chars, 0, 5, ':'), 1);
    assert_eq!(find(&chars, 2, 5, ':'), 3);
    assert_eq!(find(&chars, 4, 5, ':'), 5);
    assert_eq!(find(&chars, 0, 1, ':'), 1);
    assert_eq!(find(&chars, 3, 3, ':'), 3);
    assert_eq!(find_space(&chars_of("ab\tc d"), 0, 6), 2);
    assert_eq!(find_space(&chars_of("ab\tc d"), 3, 6), 4);
    assert_eq!(find_space(&chars_of("abc"), 0, 3), 3);
}

#[test]
fn lines_are_the_lines_of_std() {
    for text in samples(&['a', '\r', '\n', ' '], 6) {
        let chars = chars_of(&text);
        let expected: Vec<String> = text.lines().map(str::to_string).collect();
        assert_eq!(pieces(&chars, &lines(&chars)), expected, "{:?}", text);
    }
}

#[test]
fn lines_of_a_header_block() {
    let chars = chars_of("GET / HTTP/1.1\r\nHost: x\r\nAccept: */*");
    assert_eq!(
        pieces(&chars, &lines(&chars)),
        vec!["GET / HTTP/1.1", "Host: x", "Accept: */*"]
    );
    let chars = chars_of("one\ntwo\r\n\r\nthree\r");
    assert_eq!(pieces(&chars, &lines(&chars)), vec!["one", "two", "", "three\r"]);
    assert!(lines(&chars_of("")).is_empty());
}

#[test]
fn words_are_the_words_of_std() {
    for text in samples(&['a', 'b', ' ', '\t', '\u{a0}'], 6) {
        let chars = chars_of(&text);
        let expected: Vec<String> = text.split_whitespace().map(str::to_string).collect();
        assert_eq!(pieces(&chars, &words(&chars, whole(&chars))), expected, "{:?}", text);
    }
}

#[test]
fn words_of_a_span_stay_in_the_span() {
    let chars = chars_of("one two  three four");
    let found = words(&chars, Span { lo: 2, hi: 12 });
    assert_eq!(pieces(&chars, &found), vec!["e", "two", "thr"]);
}

#[test]
fn fields_are_the_pieces_that_std_splits() {
    for text in samples(&['a', ',', ' '], 6) {
        let chars = chars_of(&text);
        let expected: Vec<String> = text.split(',').map(str::to_string).collect();
        assert_eq!(pieces(&chars, &fields(&chars, whole(&chars), ',')), expected, "{:?}", text);
    }
}

#[test]
fn trim_is_the_trim_of_std() {
    for text in samples(&['a', ' ', '\t', '\u{3000}', '\n'], 6) {
        let chars = chars_of(&text);
        let kept = trim(&chars, whole(&chars));
        assert_eq!(piece(&chars, kept), text.trim(), "{:?}", text);
    }
}

#[test]
fn trim_of_a_span_stays_in_the_span() {
    let chars = chars_of("  a  b  ");
    let kept = trim(&chars, Span { lo: 3, hi: 7 });
    assert_eq!((kept.lo, kept.hi), (5, 6));
    let none = trim(&chars, Span { lo: 3, hi: 5 });
    assert_eq!(none.lo, none.hi);
}

#[test]
fn find_text_gives_the_first_place_or_the_end() {
    let chars = chars_of("/files//files/x");
    let pat = chars_of("/files/");
    assert_eq!(find_text(&chars, 0, &pat), 0);
    assert_eq!(find_text(&chars, 1, &pat), 7);
    assert_eq!(find_text(&chars, 8, &pat), 15);
    assert_eq!(find_text(&chars, 15, &pat), 15);
    assert!(matches_at(&chars, 7, &pat));
    assert!(!matches_at(&chars, 6, &pat));
    assert!(!matches_at(&chars, 10, &pat));
}

#[test]
fn segment_is_the_second_piece_that_std_splits() {
    for text in samples(&['/', 'e', 'x'], 7) {
        let expected = text.split("/e/").nth(1).map(str::to_string);
        assert_eq!(segment(&text, "/e/"), expected, "{:?}", text);
    }
    for text in samples(&['a', 'b'], 7) {
        let expected = text.split("aa").nth(1).map(str::to_string);
        assert_eq!(segment(&text, "aa"), expected, "{:?}", text);
    }
}

#[test]
fn starts_with_is_the_starts_with_of_std() {
    for text in samples(&['/', 'e', 'x'], 5) {
        assert_eq!(starts_with(&text, "/e/"), text.starts_with("/e/"), "{:?}", text);
        assert_eq!(starts_with("/e/", &text), "/e/".starts_with(text.as_str()), "{:?}", text);
    }
}
