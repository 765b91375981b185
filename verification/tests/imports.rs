use rsass::compile::{compile_files, render_error, render_error_files};

/// Compiles `input` with the given stylesheets to import: the css, or the error.
fn compile_with(input: &str, files: &[(&str, &str)]) -> Result<String, String> {
    let files: Vec<(Vec<u8>, Vec<u8>)> = files
        .iter()
        .map(|(n, t)| (n.as_bytes().to_vec(), t.as_bytes().to_vec()))
        .collect();
    match compile_files(input.as_bytes(), &files, 1000) {
        Ok(c) => Ok(String::from_utf8(c.css).unwrap()),
        Err(e) => Err(String::from_utf8(render_error(&e, b"input.scss", input.as_bytes())).unwrap()),
    }
}

#[test]
fn import_partial() {
    assert_eq!(
        compile_with("@import \"colors\";\na {b: $c}\n", &[("_colors.scss", "$c: red;\n")]),
        Ok("a {\n  b: red;\n}\n".to_string())
    );
}

#[test]
fn import_with_extension_added() {
    assert_eq!(
        compile_with("@import \"base\";\n", &[("base.scss", "a {b: c}\n")]),
        Ok("a {\n  b: c;\n}\n".to_string())
    );
}

#[test]
fn import_exact_name() {
    assert_eq!(
        compile_with("@import \"base.scss\";\n", &[("base.scss", "a {b: c}\n")]),
        Ok("a {\n  b: c;\n}\n".to_string())
    );
}

#[test]
fn import_partial_in_directory() {
    assert_eq!(
        compile_with("@import \"lib/util\";\n", &[("lib/_util.scss", "a {b: c}\n")]),
        Ok("a {\n  b: c;\n}\n".to_string())
    );
}

#[test]
fn import_inside_rule() {
    assert_eq!(
        compile_with("a {\n  @import \"props\";\n}\n", &[("_props.scss", "b: c;\n")]),
        Ok("a {\n  b: c;\n}\n".to_string())
    );
}

#[test]
fn import_mixin_from_file() {
    assert_eq!(
        compile_with("@import \"mix\";\na {@include m;}\n", &[("_mix.scss", "@mixin m {b: c}\n")]),
        Ok("a {\n  b: c;\n}\n".to_string())
    );
}

#[test]
fn import_missing_stylesheet() {
    let r = compile_with("@import \"nothing\";\n", &[]);
    assert!(r.unwrap_err().contains("Can't find stylesheet to import."));
}

#[test]
fn import_unparsable_stylesheet() {
    let r = compile_with("@import \"bad\";\n", &[("_bad.scss", "a {\n")]);
    assert!(r.unwrap_err().contains("Parse error."));
}

#[test]
fn unused_unparsable_stylesheet() {
    assert_eq!(
        compile_with("a {b: c}\n", &[("_bad.scss", "a {\n")]),
        Ok("a {\n  b: c;\n}\n".to_string())
    );
}

#[test]
fn import_css_stays() {
    assert_eq!(
        compile_with("@import \"x.css\";\n", &[]),
        Ok("@import \"x.css\";\n".to_string())
    );
}

#[test]
fn import_of_itself_stops() {
    let r = compile_with("@import \"loop\";\n", &[("_loop.scss", "@import \"loop\";\n")]);
    assert!(r.unwrap_err().contains("Too deeply nested imports."));
}

#[test]
fn error_shown_in_its_file() {
    let files = vec![(b"_p.scss".to_vec(), b"a {b: $x}\n".to_vec())];
    let input = b"@import \"p\";\n";
    let e = compile_files(input, &files, 100).unwrap_err();
    let text = String::from_utf8(render_error_files(&e, b"input.scss", input, &files)).unwrap();
    assert_eq!(
        text,
        "Error: Undefined variable.\n  ,\n1 | a {b: $x}\n  |       ^^\n  '\n  _p.scss 1:7  root stylesheet"
    );
}

#[test]
fn use_star_makes_variables_available() {
    assert_eq!(
        compile_with("@use \"colors\" as *;\na {b: $c}\n", &[("_colors.scss", "$c: red;\n")]),
        Ok("a {\n  b: red;\n}\n".to_string())
    );
}

#[test]
fn use_prefix_renames_variables() {
    assert_eq!(
        compile_with("@use \"colors\" as k-*;\na {b: $k-c}\n", &[("_colors.scss", "$c: red;\n")]),
        Ok("a {\n  b: red;\n}\n".to_string())
    );
}

#[test]
fn use_star_makes_mixins_available() {
    assert_eq!(
        compile_with("@use \"mix\" as *;\na {@include m;}\n", &[("_mix.scss", "@mixin m {b: c}\n")]),
        Ok("a {\n  b: c;\n}\n".to_string())
    );
}

#[test]
fn use_writes_module_css() {
    assert_eq!(
        compile_with("@use \"base\";\nb {c: d}\n", &[("base.scss", "a {b: c}\n")]),
        Ok("a {\n  b: c;\n}\n\nb {\n  c: d;\n}\n".to_string())
    );
}

#[test]
fn use_namespace_keeps_plain_name_free() {
    let r = compile_with("@use \"colors\";\na {b: $c}\n", &[("_colors.scss", "$c: red;\n")]);
    assert!(r.is_err());
}

#[test]
fn use_with_configures_default() {
    assert_eq!(
        compile_with(
            "@use \"colors\" with ($c: blue) as *;\na {b: $c}\n",
            &[("_colors.scss", "$c: red !default;\n")]
        ),
        Ok("a {\n  b: blue;\n}\n".to_string())
    );
}

#[test]
fn use_with_same_variable_twice_refused() {
    let r = compile_with(
        "@use \"colors\" with ($c: blue, $c: green);\n",
        &[("_colors.scss", "$c: red !default;\n")],
    );
    assert!(r.unwrap_err().contains("The same variable may only be configured once."));
}

#[test]
fn use_builtin_module_configured_refused() {
    let r = compile_with("@use \"sass:math\" with ($a: 1);\n", &[]);
    assert!(r.unwrap_err().contains("Built-in modules can't be configured."));
}

#[test]
fn use_module_does_not_see_caller_variables() {
    let r = compile_with(
        "$d: red;\n@use \"colors\" as *;\n",
        &[("_colors.scss", "a {b: $d}\n")],
    );
    assert!(r.is_err());
}

#[test]
fn forward_passes_members_on() {
    assert_eq!(
        compile_with(
            "@use \"lib\" as *;\na {b: $c}\n",
            &[("_lib.scss", "@forward \"colors\";\n"), ("_colors.scss", "$c: red;\n")]
        ),
        Ok("a {\n  b: red;\n}\n".to_string())
    );
}

#[test]
fn forward_prefix_renames_members() {
    assert_eq!(
        compile_with(
            "@use \"lib\" as *;\na {b: $p-c}\n",
            &[("_lib.scss", "@forward \"colors\" as p-*;\n"), ("_colors.scss", "$c: red;\n")]
        ),
        Ok("a {\n  b: red;\n}\n".to_string())
    );
}

#[test]
fn forward_hide_keeps_member_back() {
    let r = compile_with(
        "@use \"lib\" as *;\na {b: $c}\n",
        &[("_lib.scss", "@forward \"colors\" hide $c;\n"), ("_colors.scss", "$c: red;\n$e: blue;\n")],
    );
    assert!(r.is_err());
}

#[test]
fn forward_show_passes_named_member() {
    assert_eq!(
        compile_with(
            "@use \"lib\" as *;\na {b: $e}\n",
            &[("_lib.scss", "@forward \"colors\" show $e;\n"), ("_colors.scss", "$c: red;\n$e: blue;\n")]
        ),
        Ok("a {\n  b: blue;\n}\n".to_string())
    );
}

#[test]
fn forward_missing_module() {
    let r = compile_with("@forward \"nothing\";\n", &[]);
    assert!(r.unwrap_err().contains("Module nothing not found"));
}

#[test]
fn use_star_makes_functions_available() {
    assert_eq!(
        compile_with("@use \"fns\" as *;\na {b: two()}\n", &[("_fns.scss", "@function two() {@return 2}\n")]),
        Ok("a {\n  b: 2;\n}\n".to_string())
    );
}

#[test]
fn module_loaded_once() {
    assert_eq!(
        compile_with("@use \"base\";\n@use \"base\" as b;\n", &[("base.scss", "a {b: c}\n")]),
        Ok("a {\n  b: c;\n}\n".to_string())
    );
}

#[test]
fn loaded_module_members_reused() {
    assert_eq!(
        compile_with(
            "@use \"colors\" as *;\n@use \"colors\" as k-*;\na {b: $k-c; c: $c}\n",
            &[("_colors.scss", "$c: red;\n")]
        ),
        Ok("a {\n  b: red;\n  c: red;\n}\n".to_string())
    );
}
