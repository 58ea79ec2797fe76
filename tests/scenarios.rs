use istream::IStream;

const SAMPLE: &str = "string literal please 64 flame egg \nonly 1 more valid line";

#[test]
fn skip_then_string_token() {
    let mut s = IStream::from(SAMPLE);
    s.skip(1);
    assert_eq!(s.next::<String>(), Some(String::from("literal")));
}

#[test]
fn unparsable_token_is_consumed() {
    let mut s = IStream::from(SAMPLE);
    s.skip(1);
    assert_eq!(s.next::<String>(), Some(String::from("literal")));
    assert_eq!(s.next::<i32>(), None);
    assert_eq!(s.next::<i32>(), Some(64));
}

#[test]
fn line_valid_and_flush() {
    let mut s = IStream::from(SAMPLE);
    s.skip(1);
    assert_eq!(s.next::<String>(), Some(String::from("literal")));
    assert_eq!(s.next::<i32>(), None);
    assert_eq!(s.next::<i32>(), Some(64));
    assert_eq!(s.next_line(), Some(String::from("flame egg")));
    assert_eq!(s.next_valid::<i32>(), Some(1));
    assert_eq!(s.flush(), String::from("more valid line"));
    assert_eq!(s.flush(), String::new());
}

#[test]
fn custom_delimiter_ignoring_newlines() {
    let mut s = IStream::from(String::from(
        "using a new; delimiter\n and ignoring\n whitespaces",
    ));
    s.use_delim(';');
    s.ignore_endl(true);
    assert_eq!(s.next::<String>(), Some(String::from("using a new")));
    assert_eq!(
        s.next::<String>(),
        Some(String::from("delimiter\n and ignoring\n whitespaces"))
    );
    assert_eq!(s.next::<String>(), None);
}

#[test]
fn custom_delimiter_with_newline_boundaries() {
    let mut s = IStream::from("a b;c\nd;e");
    s.use_delim(';');
    assert_eq!(s.next_token(), Some(String::from("a b")));
    assert_eq!(s.next_token(), Some(String::from("c")));
    // the rest had every `;` removed after the first token
    assert_eq!(s.next_token(), Some(String::from("de")));
    assert_eq!(s.next_token(), None);
}

#[test]
fn whitespace_delimiter_splits_on_newline() {
    let mut s = IStream::from("one\ntwo three");
    assert_eq!(s.next_token(), Some(String::from("one")));
    assert_eq!(s.next_token(), Some(String::from("two")));
    assert_eq!(s.next_token(), Some(String::from("three")));
    assert_eq!(s.next_token(), None);
}

#[test]
fn ignored_newline_stays_in_token() {
    let mut s = IStream::from("one\ntwo three");
    s.ignore_endl(true);
    assert_eq!(s.next_token(), Some(String::from("one\ntwo")));
    assert_eq!(s.next_token(), Some(String::from("three")));
}

#[test]
fn skip_past_the_end() {
    let mut s = IStream::from("a b c");
    s.skip(10);
    assert_eq!(s.next_token(), None);
    assert_eq!(s.flush(), String::new());
}

#[test]
fn skip_zero_keeps_buffer() {
    let mut s = IStream::from("  a b");
    s.skip(0);
    assert_eq!(s.flush(), String::from("  a b"));
}

#[test]
fn leading_blanks_give_empty_token() {
    let mut s = IStream::from("  a");
    assert_eq!(s.next_token(), Some(String::new()));
    assert_eq!(s.next_token(), Some(String::from("a")));
}

#[test]
fn next_line_ignores_delimiter() {
    let mut s = IStream::from("x;y z\nrest");
    s.use_delim(';');
    s.ignore_endl(true);
    assert_eq!(s.next_line(), Some(String::from("x;y z")));
    assert_eq!(s.next_line(), Some(String::from("rest")));
    assert_eq!(s.next_line(), None);
}

#[test]
fn next_valid_runs_until_buffer_is_empty() {
    let mut s = IStream::from("x;   ");
    s.use_delim(';');
    assert_eq!(s.next_valid::<i32>(), None);
    assert_eq!(s.flush(), String::new());
}

#[test]
fn no_leading_newline_after_token() {
    let mut s = IStream::from("a;\nb");
    s.use_delim(';');
    assert_eq!(s.next::<String>(), Some(String::from("a")));
    assert_eq!(s.flush(), String::from("b"));
}

#[test]
fn no_leading_newline_after_line() {
    let mut s = IStream::from("a\n\nb");
    s.use_delim(';');
    assert_eq!(s.next_line(), Some(String::from("a")));
    assert_eq!(s.flush(), String::from("b"));
}

#[test]
fn next_valid_without_any_number() {
    let mut s = IStream::from("a b c");
    assert_eq!(s.next_valid::<u8>(), None);
    assert_eq!(s.flush(), String::new());
}

#[test]
fn interactive_stream_fed_by_lines() {
    let mut s = IStream::new();
    assert!(s.needs_input());
    assert_eq!(s.next::<i32>(), None);
    s.feed_line("1 2\n");
    assert!(!s.needs_input());
    assert_eq!(s.next::<i32>(), Some(1));
    assert_eq!(s.next::<i32>(), Some(2));
    assert!(s.needs_input());
    s.feed_line("last line\n");
    assert_eq!(s.next_line(), Some(String::from("last line")));
    assert!(s.needs_input());
}

#[test]
fn literal_stream_never_needs_input() {
    let mut s = IStream::from("z");
    assert!(!s.needs_input());
    assert_eq!(s.next_token(), Some(String::from("z")));
    assert!(!s.needs_input());
    assert_eq!(s.next_token(), None);
    assert!(!s.needs_input());
}
