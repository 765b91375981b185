use rsass::css::{nested_selector, Selector, SelectorPart};
use rsass::parser::css::selectors::selector;
use rsass::parser::imports::{exposed_names, forward2};
use rsass::sass::{Expose, Item, UseAs};
use rsass::parser::span::Span;
use rsass::parser::util::{comment, opt_spacelike, semi_or_end, spacelike};
use rsass::sass::{Quotes, SassString, StringPart};

#[test]
fn opt_spacelike_settles() {
    let s = b"  // note\n  x";
    let (j, _) = opt_spacelike(s, 0).unwrap();
    assert_eq!(j, 12);
    assert_eq!(opt_spacelike(s, j).unwrap().0, j);
    assert!(spacelike(s, j).is_none());
}

#[test]
fn opt_spacelike_takes_nothing() {
    assert_eq!(opt_spacelike(b"x", 0).unwrap().0, 0);
    assert!(spacelike(b"x", 0).is_none());
}

#[test]
fn statement_end_after_semicolon() {
    assert_eq!(semi_or_end(b"  ; x", 0).unwrap().0, 3);
}

#[test]
fn statement_end_leaves_brace() {
    assert_eq!(semi_or_end(b" }", 0).unwrap().0, 1);
}

#[test]
fn statement_end_at_end() {
    assert_eq!(semi_or_end(b"  ", 0).unwrap().0, 2);
}

#[test]
fn statement_end_refused() {
    assert!(semi_or_end(b" x", 0).is_none());
}

#[test]
fn plain_comment() {
    let s = b"/* plain text */ rest";
    let span = Span { data: s, file: 0 };
    let (j, c) = comment(&span, 0).unwrap();
    assert_eq!(j, 16);
    assert_eq!(
        c,
        SassString { parts: vec![StringPart::Raw(b" plain text ".to_vec())], quotes: Quotes::NoQuotes }
    );
}

#[test]
fn empty_comment() {
    let span = Span { data: b"/**/", file: 0 };
    let (j, c) = comment(&span, 0).unwrap();
    assert_eq!(j, 4);
    assert_eq!(c, SassString { parts: vec![], quotes: Quotes::NoQuotes });
}

#[test]
fn unclosed_comment() {
    let span = Span { data: b"/* open", file: 0 };
    assert!(comment(&span, 0).is_none());
}

#[test]
fn comment_line_breaks() {
    let span = Span { data: b"/*a\r\nb*/", file: 0 };
    let (_, c) = comment(&span, 0).unwrap();
    assert_eq!(
        c,
        SassString { parts: vec![StringPart::Raw(b"a\nb".to_vec())], quotes: Quotes::NoQuotes }
    );
}

#[test]
fn selector_drops_trailing_space() {
    let span = Span { data: b"a b  {", file: 0 };
    let (j, sel) = selector(&span, 0).unwrap();
    assert_eq!(j, 5);
    assert_eq!(sel.0.len(), 3);
    assert!(matches!(sel.0[1], SelectorPart::Descendant));
    assert!(!matches!(sel.0[2], SelectorPart::Descendant));
}

#[test]
fn selector_space_and_comment_is_one_descendant() {
    let span = Span { data: b"a /* c */ b", file: 0 };
    let (_, sel) = selector(&span, 0).unwrap();
    assert_eq!(sel.0.len(), 3);
    assert!(matches!(sel.0[1], SelectorPart::Descendant));
}

#[test]
fn backref_stands_for_parent() {
    let sel = Selector(vec![SelectorPart::BackRef]);
    assert_eq!(nested_selector(&sel, b"a.b"), b"a.b".to_vec());
}

#[test]
fn nested_without_backref() {
    let sel = Selector(vec![SelectorPart::Simple(b"c".to_vec())]);
    assert_eq!(nested_selector(&sel, b"a"), b"a c".to_vec());
}

#[test]
fn exposed_names_once_each() {
    let (j, (funs, vars)) = exposed_names(b"a, b, a, $c, $c;", 0).unwrap();
    assert_eq!(j, 15);
    assert_eq!(funs, vec![b"a".to_vec(), b"b".to_vec()]);
    assert_eq!(vars, vec![b"c".to_vec()]);
}

#[test]
fn comment_utf8_text() {
    let s = "/* h\u{e9}llo */".as_bytes();
    let span = Span { data: s, file: 0 };
    let (j, c) = comment(&span, 0).unwrap();
    assert_eq!(j, s.len());
    assert_eq!(
        c,
        SassString {
            parts: vec![StringPart::Raw(" h\u{e9}llo ".as_bytes().to_vec())],
            quotes: Quotes::NoQuotes
        }
    );
}

#[test]
fn forward_clause_order_does_not_matter() {
    let a = b"\"a\" as p-* show b;";
    let b = b"\"a\" show b as p-*;";
    let ra = forward2(&Span { data: a, file: 0 }, 0).unwrap();
    let rb = forward2(&Span { data: b, file: 0 }, 0).unwrap();
    assert_eq!(ra, rb);
    assert_eq!(ra.0, a.len());
    match ra.1 {
        Item::Forward(_, as_n, expose, with, _) => {
            assert_eq!(as_n, UseAs::Prefix(b"p-".to_vec()));
            assert_eq!(expose, Expose::Show(vec![b"b".to_vec()], vec![]));
            assert!(with.is_empty());
        },
        _ => panic!("not a forward"),
    }
}
