use rsass::eval::Scope;
use rsass::output::cssbuf::CssBuf;
use rsass::output::transform::{handle_body, handle_parsed, Context, Parsed};
use rsass::error::{Error, Invalid};
use rsass::sass::{Callable, Item, SourcePos, Value};
use std::rc::Rc;

fn context() -> Context {
    Context {
        scope: Scope::new(),
        head: Vec::new(),
        messages: Vec::new(),
        mixins: Vec::new(),
        contents: Vec::new(),
        files: Vec::new(),
        fwd_vars: Vec::new(),
        fwd_mixins: Vec::new(),
        functions: Vec::new(),
        limit: 100,
        modules: Vec::new(),
    }
}

fn run(items: Vec<Item>) -> Result<Vec<u8>, Error> {
    let mut cx = context();
    let mut rule = None;
    let mut buf = CssBuf::new();
    handle_parsed(Parsed::Scss(items), &mut cx, &mut rule, &mut buf, &Vec::new(), 100)?;
    Ok(buf.bytes)
}

fn decl(start: usize) -> Callable {
    Callable {
        args: Vec::new(),
        body: Vec::new(),
        decl: SourcePos { file: 0, start: start + 10, end: start + 20 },
        decl_at: start,
    }
}

#[test]
fn reserved_function_name() {
    let items = vec![Item::FunctionDeclaration(b"calc".to_vec(), Rc::new(decl(3)))];
    assert_eq!(
        run(items),
        Err(Error::Invalid(Invalid::FunctionName, SourcePos { file: 0, start: 3, end: 23 }))
    );
}

#[test]
fn plain_css_is_copied() {
    let mut cx = context();
    let mut rule = None;
    let mut buf = CssBuf::new();
    handle_parsed(Parsed::Css(b"a{b:c}".to_vec()), &mut cx, &mut rule, &mut buf, &Vec::new(), 1)
        .unwrap();
    assert_eq!(buf.bytes, b"a{b:c}".to_vec());
}

#[test]
fn declared_mixin_is_kept() {
    let items = vec![Item::MixinDeclaration(b"m".to_vec(), Rc::new(decl(0)))];
    let mut cx = context();
    let mut rule = None;
    let mut buf = CssBuf::new();
    handle_parsed(Parsed::Scss(items), &mut cx, &mut rule, &mut buf, &Vec::new(), 1).unwrap();
    assert_eq!(cx.mixins.len(), 1);
    assert_eq!(cx.mixins[0].name, b"m".to_vec());
}

#[test]
fn failing_return_changes_nothing() {
    let mut cx = context();
    cx.scope.define(b"x".to_vec(), rsass::value::CssValue::Null);
    let mut rule = None;
    let mut buf = CssBuf::new();
    buf.add(b"a{}");
    let pos = SourcePos { file: 0, start: 1, end: 2 };
    let r = handle_body(&vec![Item::Return(Value::Null, pos)], &mut cx, &mut rule, &mut buf, &Vec::new(), 10);
    assert_eq!(r, Err(Error::Invalid(Invalid::AtRule, pos)));
    assert_eq!(buf.bytes, b"a{}".to_vec());
    assert_eq!(cx.scope.frames.len(), 1);
    assert_eq!(cx.scope.frames[0].len(), 1);
    assert!(rule.is_none());
}

fn comment(t: &str) -> Item {
    Item::Comment(rsass::sass::SassString {
        parts: vec![rsass::sass::StringPart::Raw(t.as_bytes().to_vec())],
        quotes: rsass::sass::Quotes::NoQuotes,
    })
}

#[test]
fn parsed_stylesheet_is_its_body() {
    let items = || vec![comment("/* a */"), comment("/* b */")];
    let mut cx1 = context();
    let mut rule1 = None;
    let mut buf1 = CssBuf::new();
    let r1 = handle_parsed(Parsed::Scss(items()), &mut cx1, &mut rule1, &mut buf1, &Vec::new(), 10);
    let mut cx2 = context();
    let mut rule2 = None;
    let mut buf2 = CssBuf::new();
    let r2 = handle_body(&items(), &mut cx2, &mut rule2, &mut buf2, &Vec::new(), 10);
    assert_eq!(r1, r2);
    assert_eq!(buf1.bytes, buf2.bytes);
    assert!(!buf1.bytes.is_empty());
}

#[test]
fn body_stops_at_first_error() {
    let pos = SourcePos { file: 0, start: 1, end: 2 };
    let items = vec![comment("/* a */"), Item::Return(Value::Null, pos), comment("/* b */")];
    let mut cx = context();
    let mut rule = None;
    let mut buf = CssBuf::new();
    let r = handle_body(&items, &mut cx, &mut rule, &mut buf, &Vec::new(), 10);
    assert_eq!(r, Err(Error::Invalid(Invalid::AtRule, pos)));
    let out = String::from_utf8(buf.bytes).unwrap();
    assert!(out.contains("/* a */"));
    assert!(!out.contains("/* b */"));
}
