use rsass::compile::{compile_scss, render_error};

/// Compiles `input`, as the file `input.scss`: the css, or the error as text.
fn compile(input: &str) -> Result<String, String> {
    match compile_scss(input.as_bytes(), 100_000) {
        Ok(c) => Ok(String::from_utf8(c.css).unwrap()),
        Err(e) => Err(String::from_utf8(render_error(&e, b"input.scss", input.as_bytes())).unwrap()),
    }
}

fn ok(input: &str) -> String {
    compile(input).unwrap()
}

fn err(input: &str) -> String {
    compile(input).unwrap_err()
}

fn messages(input: &str) -> Vec<String> {
    let c = compile_scss(input.as_bytes(), 100_000).unwrap();
    c.messages.into_iter().map(|m| String::from_utf8(m).unwrap()).collect()
}

#[test]
fn variable_read_after_write() {
    assert_eq!(ok("$a: 1px;\na {b: $a}\n"), "a {\n  b: 1px;\n}\n");
}

#[test]
fn variable_overwritten() {
    assert_eq!(ok("$a: 1px;\n$a: 2px;\na {b: $a}\n"), "a {\n  b: 2px;\n}\n");
}

#[test]
fn variable_other_kept() {
    assert_eq!(ok("$a: 1px;\n$b: 2px;\na {b: $a}\n"), "a {\n  b: 1px;\n}\n");
}

#[test]
fn variable_global_flag() {
    assert_eq!(ok("$x: 1;\na {$x: 2 !global}\nb {c: $x}\n"), "b {\n  c: 2;\n}\n");
}

#[test]
fn variable_default_keeps_value() {
    assert_eq!(ok("$a: 1;\n$a: 2 !default;\nb {c: $a}\n"), "b {\n  c: 1;\n}\n");
}

#[test]
fn variable_default_sets_new() {
    assert_eq!(ok("$a: 2 !default;\nb {c: $a}\n"), "b {\n  c: 2;\n}\n");
}

#[test]
fn variable_local_ends_with_block() {
    assert!(err("a {$y: 1; b: $y}\nc {d: $y}\n").starts_with("Error: Undefined variable.\n"));
}

#[test]
fn undefined_variable() {
    assert_eq!(
        err("a {b: $c}\n"),
        "Error: Undefined variable.\n  ,\n1 | a {b: $c}\n  |       ^^\n  '\n  input.scss 1:7  root stylesheet",
    );
}

#[test]
fn nested_rule() {
    assert_eq!(ok("a {\n  b {c: d}\n}\n"), "a b {\n  c: d;\n}\n");
}

#[test]
fn backref_alone() {
    assert_eq!(ok("a {\n  & {c: d}\n}\n"), "a {\n  c: d;\n}\n");
}

#[test]
fn backref_with_suffix() {
    assert_eq!(ok("a {\n  &:hover {c: d}\n}\n"), "a:hover {\n  c: d;\n}\n");
}

#[test]
fn nested_selectors_in_order() {
    assert_eq!(ok("a, b {\n  c, d {e: f}\n}\n"), "a c, a d, b c, b d {\n  e: f;\n}\n");
}

#[test]
fn child_combinator() {
    assert_eq!(ok("a > b {c: d}\n"), "a > b {\n  c: d;\n}\n");
}

#[test]
fn two_rules_separated() {
    assert_eq!(ok("a {b: c}\nd {e: f}\n"), "a {\n  b: c;\n}\n\nd {\n  e: f;\n}\n");
}

#[test]
fn empty_rule_left_out() {
    assert_eq!(ok("a {}\nb {c: d}\n"), "b {\n  c: d;\n}\n");
}

#[test]
fn if_true_branch() {
    assert_eq!(ok("@if true {a {b: c}} @else {a {b: d}}\n"), "a {\n  b: c;\n}\n");
}

#[test]
fn if_false_branch() {
    assert_eq!(ok("@if false {a {b: c}} @else {a {b: d}}\n"), "a {\n  b: d;\n}\n");
}

#[test]
fn if_null_is_false() {
    assert_eq!(ok("@if null {a {b: c}} @else {a {b: d}}\n"), "a {\n  b: d;\n}\n");
}

#[test]
fn each_over_list() {
    assert_eq!(
        ok("@each $i in x, y {\n  .#{$i} {c: $i}\n}\n"),
        ".x {\n  c: x;\n}\n\n.y {\n  c: y;\n}\n"
    );
}

#[test]
fn for_through() {
    assert_eq!(
        ok("a {\n  @for $i from 1 through 3 {b: $i}\n}\n"),
        "a {\n  b: 1;\n  b: 2;\n  b: 3;\n}\n"
    );
}

#[test]
fn for_to() {
    assert_eq!(ok("a {\n  @for $i from 1 to 3 {b: $i}\n}\n"), "a {\n  b: 1;\n  b: 2;\n}\n");
}

#[test]
fn while_until_false() {
    assert_eq!(
        ok("$go: true;\na {\n  @while $go {\n    b: c;\n    $go: false;\n  }\n}\n"),
        "a {\n  b: c;\n}\n"
    );
}

#[test]
fn while_without_end() {
    let e = compile_scss(b"@while true {}\n", 50);
    assert!(e.is_err());
}

#[test]
fn interpolation_of_sum() {
    assert_eq!(ok("a {b: #{1 + 2}}\n"), "a {\n  b: 3;\n}\n");
}

#[test]
fn interpolation_unquotes_strings() {
    assert_eq!(ok("a {b: #{\"x\"}}\n"), "a {\n  b: x;\n}\n");
}

#[test]
fn sum_with_units() {
    assert_eq!(ok("a {b: 1px + 2px}\n"), "a {\n  b: 3px;\n}\n");
}

#[test]
fn string_plus_keeps_quotes() {
    assert_eq!(ok("a {b: \"x\" + y}\n"), "a {\n  b: \"xy\";\n}\n");
}

#[test]
fn quoted_string_with_double_quote() {
    assert_eq!(ok("a {b: 'x\"y'}\n"), "a {\n  b: 'x\"y';\n}\n");
}

#[test]
fn fade_in_undoes_fade_out() {
    assert_eq!(
        ok("a {b: fade-in(fade-out(rgba(red, 0.5), 0.2), 0.2)}\n"),
        "a {\n  b: rgba(255, 0, 0, 0.5);\n}\n"
    );
}

#[test]
fn opacify_is_fade_in() {
    assert_eq!(ok("a {b: opacify(rgba(red, 0.5), 0.5)}\n"), "a {\n  b: red;\n}\n");
}

#[test]
fn namespace_property() {
    assert_eq!(
        ok("a {\n  font: {\n    family: x;\n    size: 1px;\n  }\n}\n"),
        "a {\n  font-family: x;\n  font-size: 1px;\n}\n"
    );
}

#[test]
fn media_inside_rule() {
    assert_eq!(
        ok("a {\n  @media screen {b: c}\n}\n"),
        "@media screen {\n  a {\n    b: c;\n  }\n}\n"
    );
}

#[test]
fn at_root_leaves_parent() {
    assert_eq!(ok("a {\n  @at-root b {c: d}\n}\n"), "b {\n  c: d;\n}\n");
}

#[test]
fn comment_kept() {
    assert_eq!(ok("/* hi */\n"), "/* hi */\n");
}

#[test]
fn comment_in_rule() {
    assert_eq!(ok("a {\n  /* hi */\n  b: c;\n}\n"), "a {\n  /* hi */\n  b: c;\n}\n");
}

#[test]
fn line_comment_dropped() {
    assert_eq!(ok("// hi\na {b: c}\n"), "a {\n  b: c;\n}\n");
}

#[test]
fn import_css_url() {
    assert_eq!(ok("@import url(foo.css);\n"), "@import url(foo.css);\n");
}

#[test]
fn import_missing_file() {
    assert!(err("@import \"foo\";\n").starts_with("Error: Can't find stylesheet to import.\n"));
}

#[test]
fn use_builtin_module() {
    assert_eq!(ok("@use \"sass:math\";\na {b: c}\n"), "a {\n  b: c;\n}\n");
}

#[test]
fn use_missing_module() {
    assert!(err("@use \"foo\";\n").starts_with("Error: Can't find stylesheet to import.\n"));
}

#[test]
fn global_property_refused() {
    assert!(err("a: b;\n").starts_with("Error: Global property not allowed"));
}

#[test]
fn error_directive() {
    assert!(err("@error \"bad\";\n").starts_with("Error: \"bad\"\n"));
}

#[test]
fn undefined_mixin() {
    assert!(err("a {@include foo;}\n").starts_with("Error: Undefined mixin.\n"));
}

#[test]
fn mixin_without_arguments() {
    assert_eq!(ok("@mixin m {b: c}\na {@include m;}\n"), "a {\n  b: c;\n}\n");
}

#[test]
fn mixin_with_arguments() {
    assert_eq!(
        ok("@mixin m($x, $y: 2px) {b: $x; c: $y}\na {@include m(1px);}\n"),
        "a {\n  b: 1px;\n  c: 2px;\n}\n"
    );
}

#[test]
fn mixin_named_argument() {
    assert_eq!(
        ok("@mixin m($x, $y: 2px) {b: $x; c: $y}\na {@include m($y: 3px, $x: 1px);}\n"),
        "a {\n  b: 1px;\n  c: 3px;\n}\n"
    );
}

#[test]
fn mixin_default_uses_earlier_argument() {
    assert_eq!(
        ok("@mixin m($x, $y: $x) {b: $y}\na {@include m(5px);}\n"),
        "a {\n  b: 5px;\n}\n"
    );
}

#[test]
fn mixin_missing_argument() {
    assert!(err("@mixin m($x) {b: $x}\na {@include m;}\n")
        .starts_with("Error: Missing argument $x.\n"));
}

#[test]
fn mixin_too_many_arguments() {
    assert!(err("@mixin m($x) {b: $x}\na {@include m(1, 2);}\n")
        .starts_with("Error: Only 1 argument allowed, but 2 were passed.\n"));
}

#[test]
fn mixin_unknown_named_argument() {
    assert!(err("@mixin m($x) {b: $x}\na {@include m(1, $y: 2);}\n")
        .starts_with("Error: No argument named $y.\n"));
}

#[test]
fn mixin_nested_rule() {
    assert_eq!(ok("@mixin m {c {d: e}}\na {@include m;}\n"), "a c {\n  d: e;\n}\n");
}

#[test]
fn mixin_content_block() {
    assert_eq!(
        ok("@mixin m {b {@content;}}\na {@include m {c: d;}}\n"),
        "a b {\n  c: d;\n}\n"
    );
}

#[test]
fn mixin_content_sees_caller_variables() {
    assert_eq!(
        ok("@mixin m($v: 1) {@content;}\na {\n  $v: 2;\n  @include m {b: $v;}\n}\n"),
        "a {\n  b: 2;\n}\n"
    );
}

#[test]
fn mixin_body_does_not_see_caller_locals() {
    assert!(err("@mixin m {b: $v}\na {\n  $v: 2;\n  @include m;\n}\n")
        .starts_with("Error: Undefined variable.\n"));
}

#[test]
fn mixin_sets_global() {
    assert_eq!(
        ok("$g: 1;\n@mixin m {$g: 2 !global;}\n@include m;\na {b: $g}\n"),
        "a {\n  b: 2;\n}\n"
    );
}

#[test]
fn content_without_block() {
    assert_eq!(ok("@mixin m {b: c; @content;}\na {@include m;}\n"), "a {\n  b: c;\n}\n");
}

#[test]
fn mixin_declared_later_wins() {
    assert_eq!(
        ok("@mixin m {b: 1}\n@mixin m {b: 2}\na {@include m;}\n"),
        "a {\n  b: 2;\n}\n"
    );
}

#[test]
fn mixin_recursion_stops() {
    assert!(compile_scss(b"@mixin m {@include m;}\na {@include m;}\n", 50).is_err());
}

#[test]
fn parse_error() {
    assert_eq!(err("a {\n"), "Error: Parse error.");
}

#[test]
fn debug_message() {
    assert_eq!(messages("@debug 1px + 2px;\n"), vec!["DEBUG: 3px".to_string()]);
}

#[test]
fn warn_message() {
    assert_eq!(messages("@warn x;\n"), vec!["WARNING: x".to_string()]);
}

#[test]
fn local_mixin_used_in_its_rule() {
    assert_eq!(ok("a {\n  @mixin m {b: c}\n  @include m;\n}\n"), "a {\n  b: c;\n}\n");
}

#[test]
fn local_mixin_ends_with_its_rule() {
    assert!(err("a {\n  @mixin m {b: c}\n}\nd {@include m;}\n")
        .starts_with("Error: Undefined mixin.\n"));
}

#[test]
fn mixin_in_mixin_refused() {
    assert!(err("@mixin m {\n  @mixin n {b: c}\n}\n")
        .starts_with("Error: Mixins may not contain mixin declarations.\n"));
}

#[test]
fn mixin_in_control_refused() {
    assert!(err("@if true {\n  @mixin n {b: c}\n}\n")
        .starts_with("Error: Mixins may not be declared in control directives.\n"));
}

#[test]
fn use_in_rule_refused() {
    assert!(err("a {\n  @use \"sass:math\";\n}\n")
        .starts_with("Error: This at-rule is not allowed here.\n"));
}

#[test]
fn content_outside_mixin_does_nothing() {
    assert_eq!(ok("a {\n  @content;\n  b: c;\n}\n"), "a {\n  b: c;\n}\n");
}

#[test]
fn first_refused_item_decides_check() {
    let e = err("a {\n  b: c;\n  @use \"sass:math\";\n  @forward \"x\";\n}\n");
    assert!(e.starts_with("Error: This at-rule is not allowed here.\n"));
    assert!(e.contains("3 |"));
    assert!(!e.contains("4 |"));
}

#[test]
fn function_returns_value() {
    assert_eq!(ok("@function f() {@return 1}\na {b: f()}\n"), "a {\n  b: 1;\n}\n");
}

#[test]
fn function_with_arguments() {
    assert_eq!(
        ok("@function join($a, $b: z) {@return $a + $b}\na {b: join(x); c: join(x, y)}\n"),
        "a {\n  b: xz;\n  c: xy;\n}\n"
    );
}

#[test]
fn function_with_local_variable_and_if() {
    assert_eq!(
        ok("@function pick($c) {\n  $r: no;\n  @if $c {\n    $r: yes;\n  }\n  @return $r;\n}\na {b: pick(true); c: pick(false)}\n"),
        "a {\n  b: yes;\n  c: no;\n}\n"
    );
}

#[test]
fn function_sees_global_variables() {
    assert_eq!(
        ok("$g: red;\n@function f() {@return $g}\na {b: f()}\n"),
        "a {\n  b: red;\n}\n"
    );
}

#[test]
fn function_without_return_refused() {
    assert_eq!(err("@function f() {$a: 1;}\na {b: f()}\n"), "Error: Function finished without @return.");
}

#[test]
fn function_error_directive() {
    assert!(err("@function f() {@error \"no\";}\na {b: f()}\n").starts_with("Error: \"no\"\n"));
}

#[test]
fn function_recursion_is_bounded() {
    let input = "@function f() {@return f()}\na {b: f()}\n";
    let e = compile_scss(input.as_bytes(), 20).unwrap_err();
    let text = String::from_utf8(render_error(&e, b"input.scss", input.as_bytes())).unwrap();
    assert_eq!(text, "Error: Too deeply nested function calls.");
}

#[test]
fn function_with_reserved_name_refused() {
    assert!(err("@function calc($a) {@return $a}\n").starts_with("Error: Invalid function name.\n"));
}

#[test]
fn undeclared_function_is_plain_css() {
    assert_eq!(ok("a {b: f(1)}\n"), "a {\n  b: f(1);\n}\n");
}

#[test]
fn return_outside_function_refused() {
    assert!(err("@return 1;\n").starts_with("Error: This at-rule is not allowed here.\n"));
}

#[test]
fn mixin_error_is_placed_at_call() {
    let e = err("@mixin m {b: $v}\n\na {\n  @include m;\n}\n");
    assert!(e.starts_with("Error: Undefined variable.\n"));
    assert!(e.contains("4 |"));
    assert!(!e.contains("1 |"));
}
