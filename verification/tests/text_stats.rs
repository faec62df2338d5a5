use tit::tools::text_stats::analyze;

#[test]
fn counts_simple_sentence() {
    let (chars, chars_no_spaces, words, lines, bytes) = analyze("A short sentence.");
    assert_eq!(chars, 17);
    assert_eq!(chars_no_spaces, 15);
    assert_eq!(words, 3);
    assert_eq!(lines, 1);
    assert_eq!(bytes, 17);
}

#[test]
fn empty_text_has_zero_counts() {
    let (chars, chars_no_spaces, words, lines, bytes) = analyze("");
    assert_eq!(chars, 0);
    assert_eq!(chars_no_spaces, 0);
    assert_eq!(words, 0);
    assert_eq!(lines, 0);
    assert_eq!(bytes, 0);
}

#[test]
fn counts_multiline_text() {
    let text = "first line\nsecond line\nthird line";
    let (_, _, words, lines, _) = analyze(text);
    assert_eq!(words, 6);
    assert_eq!(lines, 3);
}

#[test]
fn counts_unicode_characters() {
    let text = "שלום 🌍";
    let (chars, _, words, lines, bytes) = analyze(text);
    assert_eq!(chars, 6);
    assert_eq!(words, 2);
    assert_eq!(lines, 1);
    assert!(bytes > chars);
}

#[test]
fn trailing_newline_does_not_add_a_line() {
    assert_eq!(analyze("a\nb\n").3, 2);
    assert_eq!(analyze("\n").3, 1);
    assert_eq!(analyze("a\r\nb").3, 2);
}

#[test]
fn unicode_whitespace_separates_words() {
    let (_, no_spaces, words, _, _) = analyze("a\u{3000}b\u{a0}c");
    assert_eq!(words, 3);
    assert_eq!(no_spaces, 3);
}

#[test]
fn counts_stay_ordered() {
    let (chars, no_spaces, words, _, bytes) = analyze("  héllo   wörld \t");
    assert!(words <= no_spaces && no_spaces <= chars && chars <= bytes);
    assert_eq!((chars, no_spaces, words, bytes), (17, 10, 2, 19));
}
