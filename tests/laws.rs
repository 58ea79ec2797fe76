use istream::text::{trim, trim_by};
use istream::IStream;

fn chars(s: &str) -> Vec<char> {
    s.chars().collect()
}

#[test]
fn trim_is_idempotent() {
    for text in ["", "   ", " \t a b \n", "x", "\u{3000}wide\u{A0}", "a  b"] {
        let once = trim(&chars(text));
        let twice = trim(&once);
        assert_eq!(once, twice);
    }
    assert_eq!(trim(&chars(" \t a b \n")), chars("a b"));
}

#[test]
fn delimiter_trim_is_idempotent() {
    let once = trim_by(&chars(";a;;b ;"), ';');
    assert_eq!(once, chars("ab "));
    assert_eq!(trim_by(&once, ';'), once);
}

#[test]
fn every_extraction_shortens_the_buffer() {
    // A newline right after a custom delimiter must not stall extraction.
    let mut s = IStream::from(";\n\n;\n");
    s.use_delim(';');
    let mut calls = 0;
    while s.next_token().is_some() {
        calls += 1;
        assert!(calls <= 5);
    }
    // the first token is empty; what follows it is only newlines and `;`
    assert_eq!(calls, 1);

    let mut s = IStream::from("\n\nx");
    s.use_delim(';');
    assert_eq!(s.next_token(), Some(String::new()));
    assert_eq!(s.next_token(), Some(String::from("x")));
    assert_eq!(s.next_token(), None);

    let mut s = IStream::from("\n\n\n5");
    s.use_delim(';');
    assert_eq!(s.next_valid::<i32>(), Some(5));

    let mut s = IStream::from("\n\n");
    s.use_delim(';');
    assert_eq!(s.next_line(), Some(String::new()));
    assert_eq!(s.next_line(), None);
}

#[test]
fn exhausted_stream_stays_exhausted() {
    let mut s = IStream::from("a");
    assert_eq!(s.next_token(), Some(String::from("a")));
    for _ in 0..3 {
        assert_eq!(s.next_token(), None);
        assert_eq!(s.next::<i32>(), None);
        assert_eq!(s.next_valid::<i32>(), None);
        assert_eq!(s.next_line(), None);
        s.skip(2);
        assert_eq!(s.flush(), String::new());
        assert!(!s.needs_input());
    }
}

#[test]
fn custom_delimiter_is_removed_everywhere() {
    let mut s = IStream::from("a;b;;c d;e");
    s.use_delim(';');
    assert_eq!(s.next_token(), Some(String::from("a")));
    assert_eq!(s.flush(), String::from("bc de"));
}

#[test]
fn blank_delimiter_trims_edges_only() {
    let mut s = IStream::from("a  b c  ");
    assert_eq!(s.next_token(), Some(String::from("a")));
    assert_eq!(s.flush(), String::from("b c"));
}

#[test]
fn tab_delimiter_is_removed_everywhere() {
    let mut s = IStream::from("a\tb\t\tc d");
    s.use_delim('\t');
    assert_eq!(s.next_token(), Some(String::from("a")));
    assert_eq!(s.flush(), String::from("bc d"));
}
