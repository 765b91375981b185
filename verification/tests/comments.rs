use rsass::parser::span::Span;
use rsass::parser::util::comment;
use rsass::sass::{Quotes, SassString, StringPart};

/// Parses all of `input` as a comment.
fn check_comment(input: &[u8]) -> SassString {
    let span = Span { data: input, file: 0 };
    let (end, value) = comment(&span, 0).unwrap();
    assert_eq!(end, input.len());
    value
}

fn raw(s: &str) -> SassString {
    SassString {
        parts: vec![StringPart::Raw(s.as_bytes().to_vec())],
        quotes: Quotes::NoQuotes,
    }
}

#[test]
fn comment_simple() {
    assert_eq!(check_comment(b"/* hello */"), raw(" hello "));
}

#[test]
fn comment_with_stars() {
    assert_eq!(check_comment(b"/**** hello ****/"), raw("*** hello ***"))
}

#[test]
fn comment_with_stars2() {
    assert_eq!(
        check_comment(b"/* / * / * / * hello * \\ * \\ * \\ */"),
        raw(" / * / * / * hello * \\ * \\ * \\ ")
    )
}
