use rsass::compile::{compile_scss, render_error};

/// Compiles `input`, as the file `input.scss`: the css, or the error as text.
fn compile(input: &str) -> Result<String, String> {
    match compile_scss(input.as_bytes(), 100_000) {
        Ok(c) => Ok(String::from_utf8(c.css).unwrap()),
        Err(e) => Err(String::from_utf8(render_error(&e, b"input.scss", input.as_bytes())).unwrap()),
    }
}

fn ok(input: &str) -> String {
    compile(input).unwrap()
}

fn err(input: &str) -> String {
    compile(input).unwrap_err()
}

#[test]
fn too_high() {
    assert_eq!(
        err("a {b: fade-out(red, 1.001)}\n"),
        "Error: $amount: Expected 1.001 to be within 0 and 1.\n  ,\n1 | a {b: fade-out(red, 1.001)}\n  |       ^^^^^^^^^^^^^^^^^^^^\n  '\n  input.scss 1:7  root stylesheet",
    );
}

#[test]
fn too_low() {
    assert_eq!(
        err("a {b: fade-out(red, -0.001)}\n"),
        "Error: $amount: Expected -0.001 to be within 0 and 1.\n  ,\n1 | a {b: fade-out(red, -0.001)}\n  |       ^^^^^^^^^^^^^^^^^^^^^\n  '\n  input.scss 1:7  root stylesheet",
    );
}

#[test]
fn too_few_args() {
    assert_eq!(
        err("a {b: fade-out(red)}\n"),
        "Error: Missing argument $amount.\n  ,--> input.scss\n1 | a {b: fade-out(red)}\n  |       ^^^^^^^^^^^^^ invocation\n  '\n  ,--> sass:color\n1 | @function fade-out($color, $amount) {\n  |           ========================= declaration\n  '\n  input.scss 1:7  root stylesheet",
    );
}

#[test]
fn too_many_args() {
    assert_eq!(
        err("a {b: fade-out(red, 0.1, 2)}\n"),
        "Error: Only 2 arguments allowed, but 3 were passed.\n  ,--> input.scss\n1 | a {b: fade-out(red, 0.1, 2)}\n  |       ^^^^^^^^^^^^^^^^^^^^^ invocation\n  '\n  ,--> sass:color\n1 | @function fade-out($color, $amount) {\n  |           ========================= declaration\n  '\n  input.scss 1:7  root stylesheet",
    );
}

#[test]
fn fade_out_alpha() {
    assert_eq!(
        err("a {b: fade-out(red, blue)}\n"),
        "Error: $amount: blue is not a number.\n  ,\n1 | a {b: fade-out(red, blue)}\n  |       ^^^^^^^^^^^^^^^^^^^\n  '\n  input.scss 1:7  root stylesheet",
    );
}

#[test]
fn color() {
    assert_eq!(
        err("a {b: fade-out(1, 0.1)}\n"),
        "Error: $color: 1 is not a color.\n  ,\n1 | a {b: fade-out(1, 0.1)}\n  |       ^^^^^^^^^^^^^^^^\n  '\n  input.scss 1:7  root stylesheet",
    );
}

#[test]
fn max() {
    assert_eq!(
        ok("a {b: fade-out(rgba(red, 0.5), 1)}\n"),
        "a {\n  b: rgba(255, 0, 0, 0);\n}\n"
    );
}

#[test]
fn max_remaining() {
    assert_eq!(
        ok("a {b: fade-out(rgba(red, 0.5), 0.5)}\n"),
        "a {\n  b: rgba(255, 0, 0, 0);\n}\n"
    );
}

#[test]
fn middle() {
    assert_eq!(
        ok("a {b: fade-out(rgba(red, 0.5), 0.14)}\n"),
        "a {\n  b: rgba(255, 0, 0, 0.36);\n}\n"
    );
}

#[test]
fn min() {
    assert_eq!(
        ok("a {b: fade-out(rgba(red, 0.5), 0)}\n"),
        "a {\n  b: rgba(255, 0, 0, 0.5);\n}\n"
    );
}

#[test]
fn named() {
    assert_eq!(
        ok("a {b: fade-out($color: rgba(red, 0.5), $amount: 0.14)}\n"),
        "a {\n  b: rgba(255, 0, 0, 0.36);\n}\n"
    );
}

#[test]
fn transparentize() {
    assert_eq!(
        ok("a {b: transparentize($color: rgba(red, 0.5), $amount: 0.14)}\n"),
        "a {\n  b: rgba(255, 0, 0, 0.36);\n}\n"
    );
}

#[test]
fn selector_interpolation_in_string_test() {
    assert_eq!(
        ok("foo[val=\"bar #{\"foo\" + \" bar\"} baz\"] {a: b}\n"),
        "foo[val=\"bar foo bar baz\"] {\n  a: b;\n}\n"
    );
}

#[test]
fn t01_inline_test() {
    assert_eq!(
        ok(".result {\n  output: gamma, \"'\"delta\"'\";\n  output: #{gamma, \"'\"delta\"'\"};\n  output: \"[#{gamma, \"'\"delta\"'\"}]\";\n  output: \"#{gamma, \"'\"delta\"'\"}\";\n  output: '#{gamma, \"'\"delta\"'\"}';\n  output: \"['#{gamma, \"'\"delta\"'\"}']\";\n}\n"),
        ".result {\n  output: gamma, \"'\" delta \"'\";\n  output: gamma, ' delta ';\n  output: \"[gamma, ' delta ']\";\n  output: \"gamma, ' delta '\";\n  output: \"gamma, ' delta '\";\n  output: \"['gamma, ' delta '']\";\n}\n"
    );
}
