//! Parsing the statements of a stylesheet.
use crate::parser::imports::{forward2, import2, parsed_item, spec_forward2, spec_import2, spec_use2, use2};
use crate::parser::span::Span;
use crate::parser::strings::{raw_text, spec_raw_text};
use crate::parser::util::{
    comment, lemma_space_end, lemma_spacelike_end, semi_or_end, skip_ws, space_end, spacelike_end,
    spec_comment, spec_semi_or_end,
};
use crate::parser::value::{
    call_args, comma_list, is_name_char, kw, name, space_list, spec_call_args, spec_comma_list,
    spec_name, spec_space_list, spec_sum, spec_unquoted, sum, unquoted,
};
use crate::parser::{at, byte_at, has_tag, tag_at, PResult};
use crate::sass::{
    args_view, items_view, lemma_body_items_view, lemma_sstring_view, names_view, CallArg,
    CallArgV, Callable, CallableV, FormalArg, FormalArgV, Item, ItemV, Quotes, SassString,
    SassStringV, SourcePos, StringPart, StringPartV, Value, ValueV,
};
use std::rc::Rc;
use vstd::prelude::*;

verus! {

/// The word `k` stands at `i`, not followed by a name byte.
pub open spec fn keyword_at(s: Seq<u8>, i: int, k: Seq<u8>) -> bool {
    has_tag(s, i, k) && !(i + k.len() < s.len() && is_name_char(s[i + k.len()]))
}

fn keyword_at_exec(s: &[u8], i: usize, k: &str) -> (r: bool)
    ensures
        r == keyword_at(s@, i as int, kw(k)),
{
    let t = k.as_bytes();
    if i > s.len() || t.len() > s.len() - i || !tag_at(s, i, t) {
        return false;
    }
    let e = i + t.len();
    if e < s.len() {
        let b = s[e];
        !((65u8 <= b && b <= 90u8) || (97u8 <= b && b <= 122u8) || b == 95u8 || b >= 128u8 || (
        48u8 <= b && b <= 57u8) || b == 45u8)
    } else {
        true
    }
}

/// The flags after the value of a variable declaration.
pub open spec fn spec_flags(s: Seq<u8>, i: int, def: bool, glob: bool) -> (int, bool, bool)
    decreases s.len() - i,
{
    if !(0 <= i <= s.len()) {
        (i, def, glob)
    } else {
        let j = spacelike_end(s, i);
        if has_tag(s, j, kw("!default")) && i < j + kw("!default").len() <= s.len() {
            spec_flags(s, j + kw("!default").len(), true, glob)
        } else if has_tag(s, j, kw("!global")) && i < j + kw("!global").len() <= s.len() {
            spec_flags(s, j + kw("!global").len(), def, true)
        } else {
            (i, def, glob)
        }
    }
}

/// A variable declaration at `i`: `$name: value`, flags, and the end of
/// the statement.
pub open spec fn spec_var_decl(s: Seq<u8>, f: usize, i: int) -> Option<(int, ItemV)> {
    match spec_name(s, i + 1) {
        None => None,
        Some((a, n)) => {
            let b = spacelike_end(s, a);
            if !at(s, b, 58u8) {
                None
            } else {
                match spec_comma_list(s, f, spacelike_end(s, b + 1)) {
                    None => None,
                    Some((d, v)) => {
                        let (e, def, glob) = spec_flags(s, d, false, false);
                        match spec_semi_or_end(s, e) {
                            Some(g) => Some(
                                (
                                    g,
                                    ItemV::VariableDeclaration {
                                        name: n,
                                        val: v,
                                        default: def,
                                        global: glob,
                                        pos: SourcePos { file: f, start: i as usize, end: d as usize },
                                    },
                                ),
                            ),
                            None => None,
                        }
                    },
                }
            }
        },
    }
}

/// A custom property at `i`: `--name:` and its value as raw text.
pub open spec fn spec_custom_prop(s: Seq<u8>, f: usize, i: int) -> Option<(int, ItemV)> {
    match spec_unquoted(s, f, i) {
        None => None,
        Some((a, n)) => {
            let b = spacelike_end(s, a);
            if !at(s, b, 58u8) {
                None
            } else {
                let (c, v) = spec_raw_text(s, f, space_end(s, b + 1));
                match spec_semi_or_end(s, c) {
                    Some(g) => Some((g, ItemV::CustomProperty(n, ValueV::Literal(v)))),
                    None => None,
                }
            }
        },
    }
}

/// A statement of one value (`@debug`, `@warn`, `@error`, `@return`)
/// after its keyword: a value and the end of the statement.
pub open spec fn spec_message_stmt(s: Seq<u8>, f: usize, i: int, at_pos: int, kind: u8) -> Option<
    (int, ItemV),
> {
    match spec_comma_list(s, f, spacelike_end(s, i)) {
        None => None,
        Some((d, v)) => match spec_semi_or_end(s, d) {
            Some(g) => Some(
                (
                    g,
                    if kind == 0 {
                        ItemV::Debug(v)
                    } else if kind == 1 {
                        ItemV::Warn(v)
                    } else if kind == 2 {
                        ItemV::Error(
                            v,
                            SourcePos { file: f, start: at_pos as usize, end: d as usize },
                        )
                    } else {
                        ItemV::Return(
                            v,
                            SourcePos { file: f, start: at_pos as usize, end: d as usize },
                        )
                    },
                ),
            ),
            None => None,
        },
    }
}

/// The loop variables of `@each`: `$a, $b, ...`.
pub open spec fn spec_each_names(s: Seq<u8>, i: int, acc: Seq<Seq<u8>>) -> Option<
    (int, Seq<Seq<u8>>),
>
    decreases s.len() - i,
{
    if !(0 <= i < s.len()) || s[i] != 36u8 {
        None
    } else {
        match spec_name(s, i + 1) {
            None => None,
            Some((j, n)) => {
                let k = spacelike_end(s, j);
                if at(s, k, 44u8) {
                    let m = spacelike_end(s, k + 1);
                    if i < m <= s.len() {
                        spec_each_names(s, m, acc.push(n))
                    } else {
                        None
                    }
                } else {
                    Some((k, acc.push(n)))
                }
            },
        }
    }
}

/// Items of a body from `i`, after `acc`, up to a `}` or the end.
pub open spec fn spec_body(s: Seq<u8>, f: usize, i: int, acc: Seq<ItemV>) -> Option<
    (int, Seq<ItemV>),
>
    decreases s.len() - i, 10nat,
{
    if !(0 <= i <= s.len()) {
        None
    } else {
        let j = spacelike_end(s, i);
        if j >= s.len() || at(s, j, 125u8) {
            Some((j, acc))
        } else if i <= j {
            match spec_item(s, f, j) {
                Some((k, it)) => if j < k <= s.len() {
                    spec_body(s, f, k, acc.push(it))
                } else {
                    None
                },
                None => None,
            }
        } else {
            None
        }
    }
}

/// A block: `{`, items, and `}`.
pub open spec fn spec_block(s: Seq<u8>, f: usize, i: int) -> Option<(int, Seq<ItemV>)>
    decreases s.len() - i, 11nat,
{
    if at(s, i, 123u8) {
        match spec_body(s, f, i + 1, seq![]) {
            Some((k, items)) => if at(s, k, 125u8) {
                Some((k + 1, items))
            } else {
                None
            },
            None => None,
        }
    } else {
        None
    }
}

/// The rest of an `@if` after its keyword: the condition, the block, and
/// any `@else if` or `@else`.
pub open spec fn spec_if_rest(s: Seq<u8>, f: usize, i: int) -> Option<(int, ItemV)>
    decreases s.len() - i, 6nat,
{
    if !(0 <= i <= s.len()) {
        None
    } else {
        match spec_comma_list(s, f, spacelike_end(s, i)) {
            None => None,
            Some((b, cond)) => {
                let c = spacelike_end(s, b);
                if !(i < c <= s.len()) {
                    None
                } else {
                    match spec_block(s, f, c) {
                        None => None,
                        Some((d, then_items)) => {
                            let e = spacelike_end(s, d);
                            if keyword_at(s, e, kw("@else")) {
                                let g = spacelike_end(s, e + kw("@else").len());
                                if keyword_at(s, g, kw("if")) && i < g + kw("if").len() <= s.len() {
                                    match spec_if_rest(s, f, g + kw("if").len()) {
                                        Some((h, elif)) => Some(
                                            (h, ItemV::IfStatement(cond, then_items, seq![elif])),
                                        ),
                                        None => None,
                                    }
                                } else if i < g <= s.len() {
                                    match spec_block(s, f, g) {
                                        Some((h, else_items)) => Some(
                                            (h, ItemV::IfStatement(cond, then_items, else_items)),
                                        ),
                                        None => None,
                                    }
                                } else {
                                    None
                                }
                            } else {
                                Some((d, ItemV::IfStatement(cond, then_items, seq![])))
                            }
                        },
                    }
                }
            },
        }
    }
}

/// The rest of an `@each` after its keyword.
pub open spec fn spec_each_rest(s: Seq<u8>, f: usize, i: int) -> Option<(int, ItemV)>
    decreases s.len() - i, 6nat,
{
    match spec_each_names(s, spacelike_end(s, i), seq![]) {
        None => None,
        Some((b, names)) => if keyword_at(s, b, kw("in")) {
            match spec_comma_list(s, f, spacelike_end(s, b + kw("in").len())) {
                None => None,
                Some((d, v)) => {
                    let e = spacelike_end(s, d);
                    if 0 <= i < e <= s.len() {
                        match spec_block(s, f, e) {
                            Some((g, body)) => Some((g, ItemV::Each(names, v, body))),
                            None => None,
                        }
                    } else {
                        None
                    }
                },
            }
        } else {
            None
        },
    }
}

/// The rest of a `@for` after its keyword:
/// `$name from a through b` (or `to b`) and a block.
pub open spec fn spec_for_rest(s: Seq<u8>, f: usize, i: int) -> Option<(int, ItemV)>
    decreases s.len() - i, 6nat,
{
    let a = spacelike_end(s, i);
    if !at(s, a, 36u8) {
        None
    } else {
        match spec_name(s, a + 1) {
            None => None,
            Some((b, n)) => {
                let c = spacelike_end(s, b);
                if !keyword_at(s, c, kw("from")) {
                    None
                } else {
                    match spec_sum(s, f, spacelike_end(s, c + kw("from").len())) {
                        None => None,
                        Some((e, from)) => {
                            let g = spacelike_end(s, e);
                            let (h, inclusive) = if keyword_at(s, g, kw("through")) {
                                (g + kw("through").len(), true)
                            } else if keyword_at(s, g, kw("to")) {
                                (g + kw("to").len(), false)
                            } else {
                                (-1, false)
                            };
                            if h < 0 {
                                None
                            } else {
                                match spec_sum(s, f, spacelike_end(s, h)) {
                                    None => None,
                                    Some((m, to)) => {
                                        let p = spacelike_end(s, m);
                                        if 0 <= i < p <= s.len() {
                                            match spec_block(s, f, p) {
                                                Some((q, body)) => Some(
                                                    (
                                                        q,
                                                        ItemV::For {
                                                            name: n,
                                                            from,
                                                            to,
                                                            inclusive,
                                                            body,
                                                        },
                                                    ),
                                                ),
                                                None => None,
                                            }
                                        } else {
                                            None
                                        }
                                    },
                                }
                            }
                        },
                    }
                }
            },
        }
    }
}

/// The rest of a `@while` after its keyword.
pub open spec fn spec_while_rest(s: Seq<u8>, f: usize, i: int) -> Option<(int, ItemV)>
    decreases s.len() - i, 6nat,
{
    match spec_comma_list(s, f, spacelike_end(s, i)) {
        None => None,
        Some((b, cond)) => {
            let c = spacelike_end(s, b);
            if 0 <= i < c <= s.len() {
                match spec_block(s, f, c) {
                    Some((d, body)) => Some((d, ItemV::While(cond, body))),
                    None => None,
                }
            } else {
                None
            }
        },
    }
}

/// The rest of `@at-root` after its keyword: optional selectors and a
/// block.
pub open spec fn spec_at_root_rest(s: Seq<u8>, f: usize, i: int) -> Option<(int, ItemV)>
    decreases s.len() - i, 6nat,
{
    let (b, sel) = spec_raw_text(s, f, spacelike_end(s, i));
    if 0 <= i < b <= s.len() && at(s, b, 123u8) {
        match spec_block(s, f, b) {
            Some((d, body)) => Some((d, ItemV::AtRoot(sel, body))),
            None => None,
        }
    } else {
        None
    }
}

/// Any other at-rule at `i`: its name, arguments as raw text, then a
/// block or the end of the statement.
pub open spec fn spec_at_rule(s: Seq<u8>, f: usize, i: int) -> Option<(int, ItemV)>
    decreases s.len() - i, 6nat,
{
    match spec_name(s, i + 1) {
        None => None,
        Some((a, n)) => {
            let (c, text) = spec_raw_text(s, f, spacelike_end(s, a));
            let args = if text.parts.len() > 0 {
                ValueV::Literal(text)
            } else {
                ValueV::Null
            };
            let name = SassStringV { parts: seq![StringPartV::Raw(n)], quotes: Quotes::NoQuotes };
            let pos = SourcePos { file: f, start: i as usize, end: c as usize };
            if at(s, c, 123u8) {
                if 0 <= i < c <= s.len() {
                    match spec_block(s, f, c) {
                        Some((d, body)) => Some(
                            (d, ItemV::AtRule { name, args, body: Some(body), pos }),
                        ),
                        None => None,
                    }
                } else {
                    None
                }
            } else {
                match spec_semi_or_end(s, c) {
                    Some(d) => Some((d, ItemV::AtRule { name, args, body: None, pos })),
                    None => None,
                }
            }
        },
    }
}

/// One formal argument of a mixin: `$name`, and `: default` if it has
/// one, with the space after it.
pub open spec fn spec_formal_arg(s: Seq<u8>, f: usize, i: int) -> Option<(int, FormalArgV)> {
    if at(s, i, 36u8) {
        match spec_name(s, i + 1) {
            None => None,
            Some((a, n)) => {
                let b = spacelike_end(s, a);
                if at(s, b, 58u8) {
                    match spec_space_list(s, f, spacelike_end(s, b + 1)) {
                        Some((c, v)) => Some(
                            (spacelike_end(s, c), FormalArgV { name: n, default: Some(v) }),
                        ),
                        None => None,
                    }
                } else {
                    Some((b, FormalArgV { name: n, default: None }))
                }
            },
        }
    } else {
        None
    }
}

/// The formal arguments of a mixin after `(`, with those read so far in
/// `acc`, separated by commas, up to and with `)`.
pub open spec fn spec_formal_args(s: Seq<u8>, f: usize, i: int, acc: Seq<FormalArgV>) -> Option<
    (int, Seq<FormalArgV>),
>
    decreases s.len() - i,
{
    if !(0 <= i <= s.len()) {
        None
    } else {
        let a = spacelike_end(s, i);
        if at(s, a, 41u8) {
            Some((a + 1, acc))
        } else {
            match spec_formal_arg(s, f, a) {
                None => None,
                Some((b, fa)) => if i <= b < s.len() && s[b] == 44u8 {
                    spec_formal_args(s, f, b + 1, acc.push(fa))
                } else if at(s, b, 41u8) {
                    Some((b + 1, acc.push(fa)))
                } else {
                    None
                },
            }
        }
    }
}

/// The block of a mixin declaration, or with `func` of a function
/// declaration, at `c`, after its name and formal arguments, which span
/// `a` to `c`; the `@` is at `at_i`.
pub open spec fn spec_mixin_body(
    s: Seq<u8>,
    f: usize,
    at_i: int,
    i: int,
    a: int,
    c: int,
    n: Seq<u8>,
    fargs: Seq<FormalArgV>,
    func: bool,
) -> Option<(int, ItemV)>
    decreases s.len() - i, 5nat,
{
    let d = spacelike_end(s, c);
    if 0 <= i < d <= s.len() {
        match spec_block(s, f, d) {
            Some((e, body)) => {
                let cl = CallableV {
                    args: fargs,
                    body,
                    decl: SourcePos { file: f, start: a as usize, end: c as usize },
                    decl_at: at_i as usize,
                };
                Some(
                    (
                        e,
                        if func {
                            ItemV::FunctionDeclaration(n, cl)
                        } else {
                            ItemV::MixinDeclaration(n, cl)
                        },
                    ),
                )
            },
            None => None,
        }
    } else {
        None
    }
}

/// The rest of `@mixin`, or with `func` of `@function`, after its
/// keyword: the name, formal arguments in parentheses if there are any,
/// and a block.
pub open spec fn spec_mixin_rest(s: Seq<u8>, f: usize, at_i: int, i: int, func: bool) -> Option<(int, ItemV)>
    decreases s.len() - i, 6nat,
{
    let a = spacelike_end(s, i);
    match spec_name(s, a) {
        None => None,
        Some((b, n)) => if at(s, b, 40u8) {
            match spec_formal_args(s, f, b + 1, seq![]) {
                None => None,
                Some((c, fargs)) => spec_mixin_body(s, f, at_i, i, a, c, n, fargs, func),
            }
        } else {
            spec_mixin_body(s, f, at_i, i, a, b, n, seq![], func)
        },
    }
}

/// The end of `@include` at `c`, after its name and arguments: a
/// content block, or the end of the statement.
pub open spec fn spec_include_end(
    s: Seq<u8>,
    f: usize,
    at_i: int,
    i: int,
    c: int,
    n: Seq<u8>,
    args: Seq<CallArgV>,
) -> Option<(int, ItemV)>
    decreases s.len() - i, 5nat,
{
    let pos = SourcePos { file: f, start: at_i as usize, end: c as usize };
    let d = spacelike_end(s, c);
    if at(s, d, 123u8) && 0 <= i < d <= s.len() {
        match spec_block(s, f, d) {
            Some((e, body)) => Some(
                (
                    e,
                    ItemV::MixinCall(
                        n,
                        args,
                        Some(CallableV { args: seq![], body, decl: pos, decl_at: at_i as usize }),
                        pos,
                    ),
                ),
            ),
            None => None,
        }
    } else {
        match spec_semi_or_end(s, c) {
            Some(e) => Some((e, ItemV::MixinCall(n, args, None, pos))),
            None => None,
        }
    }
}

/// The rest of `@include` after its keyword: the name, arguments in
/// parentheses if there are any, and a content block or the end of the
/// statement.
pub open spec fn spec_include_rest(s: Seq<u8>, f: usize, at_i: int, i: int) -> Option<(int, ItemV)>
    decreases s.len() - i, 6nat,
{
    let a = spacelike_end(s, i);
    match spec_name(s, a) {
        None => None,
        Some((b, n)) => if at(s, b, 40u8) {
            match spec_call_args(s, f, b + 1, seq![]) {
                None => None,
                Some((c, args)) => spec_include_end(s, f, at_i, i, c, n, args),
            }
        } else {
            spec_include_end(s, f, at_i, i, b, n, seq![])
        },
    }
}

/// A statement that starts with `@` at `i`.
pub open spec fn spec_at_item(s: Seq<u8>, f: usize, i: int) -> Option<(int, ItemV)>
    decreases s.len() - i, 8nat,
{
    let k = i + 1;
    if keyword_at(s, k, kw("if")) {
        spec_if_rest(s, f, k + kw("if").len())
    } else if keyword_at(s, k, kw("each")) {
        spec_each_rest(s, f, k + kw("each").len())
    } else if keyword_at(s, k, kw("for")) {
        spec_for_rest(s, f, k + kw("for").len())
    } else if keyword_at(s, k, kw("while")) {
        spec_while_rest(s, f, k + kw("while").len())
    } else if keyword_at(s, k, kw("debug")) {
        spec_message_stmt(s, f, k + kw("debug").len(), i, 0)
    } else if keyword_at(s, k, kw("warn")) {
        spec_message_stmt(s, f, k + kw("warn").len(), i, 1)
    } else if keyword_at(s, k, kw("error")) {
        spec_message_stmt(s, f, k + kw("error").len(), i, 2)
    } else if keyword_at(s, k, kw("import")) {
        spec_import2(s, f, spacelike_end(s, k + kw("import").len()))
    } else if keyword_at(s, k, kw("use")) {
        spec_use2(s, f, spacelike_end(s, k + kw("use").len()))
    } else if keyword_at(s, k, kw("forward")) {
        spec_forward2(s, f, spacelike_end(s, k + kw("forward").len()))
    } else if keyword_at(s, k, kw("at-root")) {
        spec_at_root_rest(s, f, k + kw("at-root").len())
    } else if keyword_at(s, k, kw("mixin")) {
        spec_mixin_rest(s, f, i, k + kw("mixin").len(), false)
    } else if keyword_at(s, k, kw("include")) {
        spec_include_rest(s, f, i, k + kw("include").len())
    } else if keyword_at(s, k, kw("content")) {
        let e = k + kw("content").len();
        match spec_semi_or_end(s, e) {
            Some(d) => Some(
                (d, ItemV::Content(seq![], SourcePos { file: f, start: i as usize, end: e as usize })),
            ),
            None => None,
        }
    } else if keyword_at(s, k, kw("function")) {
        spec_mixin_rest(s, f, i, k + kw("function").len(), true)
    } else if keyword_at(s, k, kw("return")) {
        spec_message_stmt(s, f, k + kw("return").len(), i, 3)
    } else if keyword_at(s, k, kw("else")) {
        None
    } else {
        spec_at_rule(s, f, i)
    }
}

/// A property at `i`: `name: value` and the end of the statement; or a
/// namespace rule: `name:`, space, an optional value, and a block.
pub open spec fn spec_property(s: Seq<u8>, f: usize, i: int) -> Option<(int, ItemV)>
    decreases s.len() - i, 7nat,
{
    match spec_unquoted(s, f, i) {
        None => None,
        Some((a, n)) => {
            let b = spacelike_end(s, a);
            if !at(s, b, 58u8) {
                None
            } else {
                let d = spacelike_end(s, b + 1);
                let spaced = d > b + 1;
                if at(s, d, 123u8) {
                    if 0 <= i < d <= s.len() {
                        match spec_block(s, f, d) {
                            Some((g, body)) => Some((g, ItemV::NamespaceRule(n, ValueV::Null, body))),
                            None => None,
                        }
                    } else {
                        None
                    }
                } else {
                    match spec_comma_list(s, f, d) {
                        None => None,
                        Some((e, v)) => {
                            let g = spacelike_end(s, e);
                            if at(s, g, 123u8) {
                                if spaced && 0 <= i < g <= s.len() {
                                    match spec_block(s, f, g) {
                                        Some((h, body)) => Some(
                                            (h, ItemV::NamespaceRule(n, v, body)),
                                        ),
                                        None => None,
                                    }
                                } else {
                                    None
                                }
                            } else {
                                match spec_semi_or_end(s, e) {
                                    Some(h) => Some((h, ItemV::Property(n, v))),
                                    None => None,
                                }
                            }
                        },
                    }
                }
            }
        },
    }
}

/// A rule at `i`: selectors as raw text, and a block.
pub open spec fn spec_rule(s: Seq<u8>, f: usize, i: int) -> Option<(int, ItemV)>
    decreases s.len() - i, 7nat,
{
    let (j, sel) = spec_raw_text(s, f, i);
    if sel.parts.len() > 0 && at(s, j, 123u8) && 0 <= i < j <= s.len() {
        match spec_block(s, f, j) {
            Some((k, body)) => Some((k, ItemV::Rule(sel, body))),
            None => None,
        }
    } else {
        None
    }
}

/// One statement at `i`.
pub open spec fn spec_item(s: Seq<u8>, f: usize, i: int) -> Option<(int, ItemV)>
    decreases s.len() - i, 9nat,
{
    if !(0 <= i < s.len()) {
        None
    } else if has_tag(s, i, kw("/*")) {
        match spec_comment(s, f, i) {
            Some((j, c)) => Some((j, ItemV::Comment(c))),
            None => None,
        }
    } else if at(s, i, 36u8) {
        spec_var_decl(s, f, i)
    } else if at(s, i, 64u8) {
        spec_at_item(s, f, i)
    } else if has_tag(s, i, kw("--")) {
        spec_custom_prop(s, f, i)
    } else {
        match spec_property(s, f, i) {
            Some(r) => Some(r),
            None => spec_rule(s, f, i),
        }
    }
}

/// A whole stylesheet: its items, when all of the input parses.
pub open spec fn spec_stylesheet(s: Seq<u8>, f: usize) -> Option<Seq<ItemV>> {
    match spec_body(s, f, 0, seq![]) {
        Some((k, items)) => if k == s.len() {
            Some(items)
        } else {
            None
        },
        None => None,
    }
}


// ---------------------------------------------------------------------
// The parsers
// ---------------------------------------------------------------------

pub open spec fn parsed_items(res: PResult<Vec<Item>>, sp: Option<(int, Seq<ItemV>)>) -> bool {
    match res {
        Some((j, v)) => sp == Some((j as int, items_view(v@))),
        None => sp is None,
    }
}

fn flags(input: &[u8], pos: usize, def: bool, glob: bool) -> (res: (usize, bool, bool))
    requires
        pos <= input.len(),
    ensures
        spec_flags(input@, pos as int, def, glob) == (res.0 as int, res.1, res.2),
        pos <= res.0 <= input.len(),
    decreases input.len() - pos,
{
    let j = skip_ws(input, pos);
    let d = "!default".as_bytes();
    let g = "!global".as_bytes();
    if d.len() <= input.len() - j && tag_at(input, j, d) && pos < j + d.len() {
        flags(input, j + d.len(), true, glob)
    } else if g.len() <= input.len() - j && tag_at(input, j, g) && pos < j + g.len() {
        flags(input, j + g.len(), def, true)
    } else {
        (pos, def, glob)
    }
}

fn var_decl(input: &Span, pos: usize) -> (res: PResult<Item>)
    requires
        pos < input.data.len(),
    ensures
        parsed_item(res, spec_var_decl(input.data@, input.file, pos as int)),
        res matches Some((j, _)) ==> pos < j <= input.data.len(),
{
    let s = input.data;
    match name(s, pos + 1) {
        None => None,
        Some((a, n)) => {
            let b = skip_ws(s, a);
            if !byte_at(s, b, 58u8) {
                return None;
            }
            proof {
                lemma_spacelike_end(s@, b + 1);
            }
            match comma_list(input, skip_ws(s, b + 1)) {
                None => None,
                Some((d, v)) => {
                    let (e, def, glob) = flags(s, d, false, false);
                    match semi_or_end(s, e) {
                        Some((g, _)) => Some(
                            (
                                g,
                                Item::VariableDeclaration {
                                    name: n,
                                    val: v,
                                    default: def,
                                    global: glob,
                                    pos: SourcePos { file: input.file, start: pos, end: d },
                                },
                            ),
                        ),
                        None => None,
                    }
                },
            }
        },
    }
}

fn custom_prop(input: &Span, pos: usize) -> (res: PResult<Item>)
    requires
        pos <= input.data.len(),
    ensures
        parsed_item(res, spec_custom_prop(input.data@, input.file, pos as int)),
        res matches Some((j, _)) ==> pos < j <= input.data.len(),
{
    let s = input.data;
    match unquoted(input, pos) {
        None => None,
        Some((a, n)) => {
            let b = skip_ws(s, a);
            if !byte_at(s, b, 58u8) {
                return None;
            }
            let c0 = match crate::parser::util::ignore_space(s, b + 1) {
                Some((c0, _)) => c0,
                None => b + 1,
            };
            proof {
                lemma_space_end(s@, b + 1);
            }
            let (c, v) = raw_text(input, c0);
            match semi_or_end(s, c) {
                Some((g, _)) => Some((g, Item::CustomProperty(n, Value::Literal(v)))),
                None => None,
            }
        },
    }
}

fn message_stmt(input: &Span, i: usize, at_pos: usize, kind: u8) -> (res: PResult<Item>)
    requires
        i <= input.data.len(),
        at_pos < i,
    ensures
        parsed_item(res, spec_message_stmt(input.data@, input.file, i as int, at_pos as int, kind)),
        res matches Some((j, _)) ==> i < j <= input.data.len(),
{
    let s = input.data;
    match comma_list(input, skip_ws(s, i)) {
        None => None,
        Some((d, v)) => {
            proof {
                lemma_spacelike_end(s@, i as int);
            }
            match semi_or_end(s, d) {
                Some((g, _)) => Some(
                    (
                        g,
                        if kind == 0 {
                            Item::Debug(v)
                        } else if kind == 1 {
                            Item::Warn(v)
                        } else if kind == 2 {
                            Item::Error(v, SourcePos { file: input.file, start: at_pos, end: d })
                        } else {
                            Item::Return(v, SourcePos { file: input.file, start: at_pos, end: d })
                        },
                    ),
                ),
                None => None,
            }
        },
    }
}

fn each_names(input: &[u8], pos: usize, acc: Vec<Vec<u8>>) -> (res: PResult<Vec<Vec<u8>>>)
    requires
        pos <= input.len(),
    ensures
        match res {
            Some((j, v)) => spec_each_names(input@, pos as int, names_view(acc@)) == Some(
                (j as int, names_view(v@)),
            ),
            None => spec_each_names(input@, pos as int, names_view(acc@)) is None,
        },
        res matches Some((j, _)) ==> pos < j <= input.len(),
    decreases input.len() - pos,
{
    if pos >= input.len() || input[pos] != 36u8 {
        return None;
    }
    match name(input, pos + 1) {
        None => None,
        Some((j, n)) => {
            let k = skip_ws(input, j);
            let mut acc = acc;
            let ghost a0 = names_view(acc@);
            let ghost nv = n@;
            acc.push(n);
            proof {
                assert(names_view(acc@) =~= a0.push(nv));
            }
            if byte_at(input, k, 44u8) {
                proof {
                    lemma_spacelike_end(input@, k + 1);
                }
                let m = skip_ws(input, k + 1);
                each_names(input, m, acc)
            } else {
                Some((k, acc))
            }
        },
    }
}

fn body(input: &Span, pos: usize, acc: Vec<Item>) -> (res: PResult<Vec<Item>>)
    requires
        pos <= input.data.len(),
    ensures
        parsed_items(res, spec_body(input.data@, input.file, pos as int, items_view(acc@))),
        res matches Some((j, _)) ==> pos <= j <= input.data.len(),
    decreases input.data.len() - pos, 10nat,
{
    let s = input.data;
    let j = skip_ws(s, pos);
    if j >= s.len() || s[j] == 125u8 {
        return Some((j, acc));
    }
    match item(input, j) {
        Some((k, it)) => {
            let mut acc = acc;
            let ghost a0 = items_view(acc@);
            let ghost iv = it.view();
            acc.push(it);
            proof {
                assert(items_view(acc@) =~= a0.push(iv));
            }
            body(input, k, acc)
        },
        None => None,
    }
}

fn block(input: &Span, pos: usize) -> (res: PResult<Vec<Item>>)
    requires
        pos <= input.data.len(),
    ensures
        parsed_items(res, spec_block(input.data@, input.file, pos as int)),
        res matches Some((j, _)) ==> pos < j <= input.data.len(),
    decreases input.data.len() - pos, 11nat,
{
    if !byte_at(input.data, pos, 123u8) {
        return None;
    }
    let e: Vec<Item> = Vec::new();
    proof {
        assert(items_view(e@) =~= Seq::<ItemV>::empty());
    }
    match body(input, pos + 1, e) {
        Some((k, items)) => {
            if byte_at(input.data, k, 125u8) {
                Some((k + 1, items))
            } else {
                None
            }
        },
        None => None,
    }
}

fn if_rest(input: &Span, pos: usize) -> (res: PResult<Item>)
    requires
        pos <= input.data.len(),
    ensures
        parsed_item(res, spec_if_rest(input.data@, input.file, pos as int)),
        res matches Some((j, _)) ==> pos < j <= input.data.len(),
    decreases input.data.len() - pos, 6nat,
{
    let s = input.data;
    let (b, cond) = match comma_list(input, skip_ws(s, pos)) {
        None => {
            return None;
        },
        Some(r) => r,
    };
    proof {
        lemma_spacelike_end(s@, pos as int);
    }
    let c = skip_ws(s, b);
    let (d, then_items) = match block(input, c) {
        None => {
            return None;
        },
        Some(r) => r,
    };
    let e = skip_ws(s, d);
    if keyword_at_exec(s, e, "@else") {
        let g0 = e + "@else".len();
        proof {
            lemma_spacelike_end(s@, g0 as int);
        }
        let g = skip_ws(s, g0);
        if keyword_at_exec(s, g, "if") && pos < g + "if".len() {
            match if_rest(input, g + "if".len()) {
                Some((h, elif)) => {
                    let mut else_items: Vec<Item> = Vec::new();
                    let ghost ev = elif.view();
                    else_items.push(elif);
                    let it = Item::IfStatement(cond, then_items, else_items);
                    proof {
                        lemma_body_items_view(then_items);
                        lemma_body_items_view(else_items);
                        assert(items_view(else_items@) =~= seq![ev]);
                    }
                    Some((h, it))
                },
                None => None,
            }
        } else {
            match block(input, g) {
                Some((h, else_items)) => {
                    let it = Item::IfStatement(cond, then_items, else_items);
                    proof {
                        lemma_body_items_view(then_items);
                        lemma_body_items_view(else_items);
                    }
                    Some((h, it))
                },
                None => None,
            }
        }
    } else {
        let else_items: Vec<Item> = Vec::new();
        let it = Item::IfStatement(cond, then_items, else_items);
        proof {
            lemma_body_items_view(then_items);
            lemma_body_items_view(else_items);
            assert(items_view(else_items@) =~= Seq::<ItemV>::empty());
        }
        Some((d, it))
    }
}

fn each_rest(input: &Span, pos: usize) -> (res: PResult<Item>)
    requires
        pos <= input.data.len(),
    ensures
        parsed_item(res, spec_each_rest(input.data@, input.file, pos as int)),
        res matches Some((j, _)) ==> pos < j <= input.data.len(),
    decreases input.data.len() - pos, 6nat,
{
    let s = input.data;
    let e0: Vec<Vec<u8>> = Vec::new();
    proof {
        assert(names_view(e0@) =~= Seq::<Seq<u8>>::empty());
        lemma_spacelike_end(s@, pos as int);
    }
    let (b, names) = match each_names(s, skip_ws(s, pos), e0) {
        None => {
            return None;
        },
        Some(r) => r,
    };
    if !keyword_at_exec(s, b, "in") {
        return None;
    }
    let c0 = b + "in".len();
    proof {
        lemma_spacelike_end(s@, c0 as int);
    }
    let (d, v) = match comma_list(input, skip_ws(s, c0)) {
        None => {
            return None;
        },
        Some(r) => r,
    };
    let e = skip_ws(s, d);
    match block(input, e) {
        Some((g, body)) => {
            let it = Item::Each(names, v, body);
            proof {
                lemma_body_items_view(body);
            }
            Some((g, it))
        },
        None => None,
    }
}

fn for_rest(input: &Span, pos: usize) -> (res: PResult<Item>)
    requires
        pos <= input.data.len(),
    ensures
        parsed_item(res, spec_for_rest(input.data@, input.file, pos as int)),
        res matches Some((j, _)) ==> pos < j <= input.data.len(),
    decreases input.data.len() - pos, 6nat,
{
    let s = input.data;
    let a = skip_ws(s, pos);
    if !byte_at(s, a, 36u8) {
        return None;
    }
    let (b, n) = match name(s, a + 1) {
        None => {
            return None;
        },
        Some(r) => r,
    };
    let c = skip_ws(s, b);
    if !keyword_at_exec(s, c, "from") {
        return None;
    }
    let c1 = c + "from".len();
    proof {
        lemma_spacelike_end(s@, c1 as int);
    }
    let (e, from) = match sum(input, skip_ws(s, c1)) {
        None => {
            return None;
        },
        Some(r) => r,
    };
    let g = skip_ws(s, e);
    let (h, inclusive) = if keyword_at_exec(s, g, "through") {
        (g + "through".len(), true)
    } else if keyword_at_exec(s, g, "to") {
        (g + "to".len(), false)
    } else {
        return None;
    };
    proof {
        lemma_spacelike_end(s@, h as int);
    }
    let (m, to) = match sum(input, skip_ws(s, h)) {
        None => {
            return None;
        },
        Some(r) => r,
    };
    let p = skip_ws(s, m);
    match block(input, p) {
        Some((q, body)) => {
            let it = Item::For { name: n, from, to, inclusive, body };
            proof {
                lemma_body_items_view(body);
            }
            Some((q, it))
        },
        None => None,
    }
}

fn while_rest(input: &Span, pos: usize) -> (res: PResult<Item>)
    requires
        pos <= input.data.len(),
    ensures
        parsed_item(res, spec_while_rest(input.data@, input.file, pos as int)),
        res matches Some((j, _)) ==> pos < j <= input.data.len(),
    decreases input.data.len() - pos, 6nat,
{
    let s = input.data;
    proof {
        lemma_spacelike_end(s@, pos as int);
    }
    let (b, cond) = match comma_list(input, skip_ws(s, pos)) {
        None => {
            return None;
        },
        Some(r) => r,
    };
    let c = skip_ws(s, b);
    match block(input, c) {
        Some((d, body)) => {
            let it = Item::While(cond, body);
            proof {
                lemma_body_items_view(body);
            }
            Some((d, it))
        },
        None => None,
    }
}

fn at_root_rest(input: &Span, pos: usize) -> (res: PResult<Item>)
    requires
        pos <= input.data.len(),
    ensures
        parsed_item(res, spec_at_root_rest(input.data@, input.file, pos as int)),
        res matches Some((j, _)) ==> pos < j <= input.data.len(),
    decreases input.data.len() - pos, 6nat,
{
    let s = input.data;
    proof {
        lemma_spacelike_end(s@, pos as int);
    }
    let (b, sel) = raw_text(input, skip_ws(s, pos));
    if pos < b && byte_at(s, b, 123u8) {
        match block(input, b) {
            Some((d, body)) => {
                let it = Item::AtRoot(sel, body);
                proof {
                    lemma_body_items_view(body);
                }
                Some((d, it))
            },
            None => None,
        }
    } else {
        None
    }
}

fn at_rule(input: &Span, pos: usize) -> (res: PResult<Item>)
    requires
        pos < input.data.len(),
    ensures
        parsed_item(res, spec_at_rule(input.data@, input.file, pos as int)),
        res matches Some((j, _)) ==> pos < j <= input.data.len(),
    decreases input.data.len() - pos, 6nat,
{
    let s = input.data;
    let (a, n) = match name(s, pos + 1) {
        None => {
            return None;
        },
        Some(r) => r,
    };
    proof {
        lemma_spacelike_end(s@, a as int);
    }
    let (c, text) = raw_text(input, skip_ws(s, a));
    let args = if text.parts.len() > 0 {
        Value::Literal(text)
    } else {
        Value::Null
    };
    let ghost nv = n@;
    let mut ps: Vec<StringPart> = Vec::new();
    ps.push(StringPart::Raw(n));
    let name = SassString { parts: ps, quotes: Quotes::NoQuotes };
    proof {
        lemma_sstring_view(&name);
        assert(crate::sass::parts_view(ps@) =~= seq![StringPartV::Raw(nv)]);
    }
    let pos_s = SourcePos { file: input.file, start: pos, end: c };
    if byte_at(s, c, 123u8) {
        match block(input, c) {
            Some((d, body)) => {
                let it = Item::AtRule { name, args, body: Some(body), pos: pos_s };
                proof {
                    lemma_body_items_view(body);
                }
                Some((d, it))
            },
            None => None,
        }
    } else {
        match semi_or_end(s, c) {
            Some((d, _)) => Some((d, Item::AtRule { name, args, body: None, pos: pos_s })),
            None => None,
        }
    }
}

/// The views of formal arguments.
pub open spec fn formals_view(v: Seq<FormalArg>) -> Seq<FormalArgV> {
    Seq::new(v.len(), |i: int| v[i].view())
}

fn formal_arg(input: &Span, pos: usize) -> (res: PResult<FormalArg>)
    requires
        pos <= input.data.len(),
    ensures
        match res {
            Some((j, fa)) => spec_formal_arg(input.data@, input.file, pos as int) == Some(
                (j as int, fa.view()),
            ) && pos < j <= input.data.len(),
            None => spec_formal_arg(input.data@, input.file, pos as int) is None,
        },
{
    let s = input.data;
    if !byte_at(s, pos, 36u8) {
        return None;
    }
    let (a, n) = match name(s, pos + 1) {
        None => {
            return None;
        },
        Some(x) => x,
    };
    proof {
        lemma_spacelike_end(s@, a as int);
    }
    let b = skip_ws(s, a);
    if byte_at(s, b, 58u8) {
        proof {
            lemma_spacelike_end(s@, b + 1);
        }
        match space_list(input, skip_ws(s, b + 1)) {
            Some((c, v)) => {
                proof {
                    lemma_spacelike_end(s@, c as int);
                }
                Some((skip_ws(s, c), FormalArg { name: n, default: Some(v) }))
            },
            None => None,
        }
    } else {
        Some((b, FormalArg { name: n, default: None }))
    }
}

fn formal_args(input: &Span, pos: usize, acc: Vec<FormalArg>) -> (res: PResult<Vec<FormalArg>>)
    requires
        pos <= input.data.len(),
    ensures
        match res {
            Some((j, v)) => spec_formal_args(input.data@, input.file, pos as int, formals_view(acc@))
                == Some((j as int, formals_view(v@))) && pos < j <= input.data.len(),
            None => spec_formal_args(input.data@, input.file, pos as int, formals_view(acc@)) is None,
        },
    decreases input.data.len() - pos,
{
    let s = input.data;
    proof {
        lemma_spacelike_end(s@, pos as int);
    }
    let a = skip_ws(s, pos);
    if byte_at(s, a, 41u8) {
        return Some((a + 1, acc));
    }
    match formal_arg(input, a) {
        None => None,
        Some((b, fa)) => {
            let ghost a0 = formals_view(acc@);
            let ghost fv = fa.view();
            let mut acc = acc;
            acc.push(fa);
            proof {
                assert(formals_view(acc@) =~= a0.push(fv));
            }
            if b < s.len() && s[b] == 44u8 {
                formal_args(input, b + 1, acc)
            } else if byte_at(s, b, 41u8) {
                Some((b + 1, acc))
            } else {
                None
            }
        },
    }
}

fn mixin_body(
    input: &Span,
    at_i: usize,
    i: usize,
    a: usize,
    c: usize,
    n: Vec<u8>,
    fargs: Vec<FormalArg>,
    func: bool,
) -> (res: PResult<Item>)
    requires
        at_i < i <= a < c <= input.data.len(),
    ensures
        parsed_item(
            res,
            spec_mixin_body(
                input.data@,
                input.file,
                at_i as int,
                i as int,
                a as int,
                c as int,
                n@,
                formals_view(fargs@),
                func,
            ),
        ),
        res matches Some((j, _)) ==> i < j <= input.data.len(),
    decreases input.data.len() - i, 5nat,
{
    let s = input.data;
    proof {
        lemma_spacelike_end(s@, c as int);
    }
    let d = skip_ws(s, c);
    match block(input, d) {
        Some((e, body)) => {
            let decl = SourcePos { file: input.file, start: a, end: c };
            let cl = Callable { args: fargs, body, decl, decl_at: at_i };
            let it = if func {
                Item::FunctionDeclaration(n, Rc::new(cl))
            } else {
                Item::MixinDeclaration(n, Rc::new(cl))
            };
            proof {
                lemma_body_items_view(body);
                assert(cl.view().args =~= formals_view(fargs@));
                assert(cl.view().body =~= items_view(body@));
            }
            Some((e, it))
        },
        None => None,
    }
}

fn mixin_rest(input: &Span, at_i: usize, i: usize, func: bool) -> (res: PResult<Item>)
    requires
        at_i < i <= input.data.len(),
    ensures
        parsed_item(res, spec_mixin_rest(input.data@, input.file, at_i as int, i as int, func)),
        res matches Some((j, _)) ==> i < j <= input.data.len(),
    decreases input.data.len() - i, 6nat,
{
    let s = input.data;
    proof {
        lemma_spacelike_end(s@, i as int);
    }
    let a = skip_ws(s, i);
    let (b, n) = match name(s, a) {
        None => {
            return None;
        },
        Some(x) => x,
    };
    if byte_at(s, b, 40u8) {
        let e: Vec<FormalArg> = Vec::new();
        proof {
            assert(formals_view(e@) =~= Seq::<FormalArgV>::empty());
        }
        match formal_args(input, b + 1, e) {
            None => None,
            Some((c, fargs)) => mixin_body(input, at_i, i, a, c, n, fargs, func),
        }
    } else {
        let e: Vec<FormalArg> = Vec::new();
        proof {
            assert(formals_view(e@) =~= Seq::<FormalArgV>::empty());
        }
        mixin_body(input, at_i, i, a, b, n, e, func)
    }
}

fn include_end(
    input: &Span,
    at_i: usize,
    i: usize,
    c: usize,
    n: Vec<u8>,
    args: Vec<CallArg>,
) -> (res: PResult<Item>)
    requires
        at_i < i < c <= input.data.len(),
    ensures
        parsed_item(
            res,
            spec_include_end(
                input.data@,
                input.file,
                at_i as int,
                i as int,
                c as int,
                n@,
                args_view(args@),
            ),
        ),
        res matches Some((j, _)) ==> i < j <= input.data.len(),
    decreases input.data.len() - i, 5nat,
{
    let s = input.data;
    let pos = SourcePos { file: input.file, start: at_i, end: c };
    proof {
        lemma_spacelike_end(s@, c as int);
    }
    let d = skip_ws(s, c);
    if byte_at(s, d, 123u8) {
        match block(input, d) {
            Some((e, body)) => {
                let cl = Callable { args: Vec::new(), body, decl: pos, decl_at: at_i };
                let it = Item::MixinCall(n, args, Some(Rc::new(cl)), pos);
                proof {
                    lemma_body_items_view(body);
                    assert(cl.view().args =~= Seq::<FormalArgV>::empty());
                    assert(cl.view().body =~= items_view(body@));
                    assert(it.view()->MixinCall_1 =~= args_view(args@));
                }
                Some((e, it))
            },
            None => None,
        }
    } else {
        match semi_or_end(s, c) {
            Some((e, _)) => {
                let it = Item::MixinCall(n, args, None, pos);
                proof {
                    assert(it.view()->MixinCall_1 =~= args_view(args@));
                }
                Some((e, it))
            },
            None => None,
        }
    }
}

fn include_rest(input: &Span, at_i: usize, i: usize) -> (res: PResult<Item>)
    requires
        at_i < i <= input.data.len(),
    ensures
        parsed_item(res, spec_include_rest(input.data@, input.file, at_i as int, i as int)),
        res matches Some((j, _)) ==> i < j <= input.data.len(),
    decreases input.data.len() - i, 6nat,
{
    let s = input.data;
    proof {
        lemma_spacelike_end(s@, i as int);
    }
    let a = skip_ws(s, i);
    let (b, n) = match name(s, a) {
        None => {
            return None;
        },
        Some(x) => x,
    };
    if byte_at(s, b, 40u8) {
        let e: Vec<CallArg> = Vec::new();
        proof {
            assert(args_view(e@) =~= Seq::<CallArgV>::empty());
        }
        match call_args(input, b + 1, e) {
            None => None,
            Some((c, args)) => include_end(input, at_i, i, c, n, args),
        }
    } else {
        let e: Vec<CallArg> = Vec::new();
        proof {
            assert(args_view(e@) =~= Seq::<CallArgV>::empty());
        }
        include_end(input, at_i, i, b, n, e)
    }
}

fn at_item(input: &Span, pos: usize) -> (res: PResult<Item>)
    requires
        pos < input.data.len(),
    ensures
        parsed_item(res, spec_at_item(input.data@, input.file, pos as int)),
        res matches Some((j, _)) ==> pos < j <= input.data.len(),
    decreases input.data.len() - pos, 8nat,
{
    let s = input.data;
    let k = pos + 1;
    if keyword_at_exec(s, k, "if") {
        if_rest(input, k + "if".len())
    } else if keyword_at_exec(s, k, "each") {
        each_rest(input, k + "each".len())
    } else if keyword_at_exec(s, k, "for") {
        for_rest(input, k + "for".len())
    } else if keyword_at_exec(s, k, "while") {
        while_rest(input, k + "while".len())
    } else if keyword_at_exec(s, k, "debug") {
        message_stmt(input, k + "debug".len(), pos, 0)
    } else if keyword_at_exec(s, k, "warn") {
        message_stmt(input, k + "warn".len(), pos, 1)
    } else if keyword_at_exec(s, k, "error") {
        message_stmt(input, k + "error".len(), pos, 2)
    } else if keyword_at_exec(s, k, "import") {
        let e = k + "import".len();
        proof {
            lemma_spacelike_end(s@, e as int);
        }
        import2(input, skip_ws(s, e))
    } else if keyword_at_exec(s, k, "use") {
        let e = k + "use".len();
        proof {
            lemma_spacelike_end(s@, e as int);
        }
        use2(input, skip_ws(s, e))
    } else if keyword_at_exec(s, k, "forward") {
        let e = k + "forward".len();
        proof {
            lemma_spacelike_end(s@, e as int);
        }
        forward2(input, skip_ws(s, e))
    } else if keyword_at_exec(s, k, "at-root") {
        at_root_rest(input, k + "at-root".len())
    } else if keyword_at_exec(s, k, "mixin") {
        mixin_rest(input, pos, k + "mixin".len(), false)
    } else if keyword_at_exec(s, k, "include") {
        include_rest(input, pos, k + "include".len())
    } else if keyword_at_exec(s, k, "content") {
        let e = k + "content".len();
        match semi_or_end(s, e) {
            Some((d, _)) => {
                let it = Item::Content(Vec::new(), SourcePos { file: input.file, start: pos, end: e });
                proof {
                    assert(it.view()->Content_0 =~= Seq::<CallArgV>::empty());
                }
                Some((d, it))
            },
            None => None,
        }
    } else if keyword_at_exec(s, k, "function") {
        mixin_rest(input, pos, k + "function".len(), true)
    } else if keyword_at_exec(s, k, "return") {
        message_stmt(input, k + "return".len(), pos, 3)
    } else if keyword_at_exec(s, k, "else") {
        None
    } else {
        at_rule(input, pos)
    }
}

fn property(input: &Span, pos: usize) -> (res: PResult<Item>)
    requires
        pos <= input.data.len(),
    ensures
        parsed_item(res, spec_property(input.data@, input.file, pos as int)),
        res matches Some((j, _)) ==> pos < j <= input.data.len(),
    decreases input.data.len() - pos, 7nat,
{
    let s = input.data;
    let (a, n) = match unquoted(input, pos) {
        None => {
            return None;
        },
        Some(r) => r,
    };
    let b = skip_ws(s, a);
    if !byte_at(s, b, 58u8) {
        return None;
    }
    proof {
        lemma_spacelike_end(s@, b + 1);
    }
    let d = skip_ws(s, b + 1);
    let spaced = d > b + 1;
    if byte_at(s, d, 123u8) {
        return match block(input, d) {
            Some((g, body)) => {
                let it = Item::NamespaceRule(n, Value::Null, body);
                proof {
                    lemma_body_items_view(body);
                }
                Some((g, it))
            },
            None => None,
        };
    }
    let (e, v) = match comma_list(input, d) {
        None => {
            return None;
        },
        Some(r) => r,
    };
    let g = skip_ws(s, e);
    if byte_at(s, g, 123u8) {
        if spaced {
            match block(input, g) {
                Some((h, body)) => {
                    let it = Item::NamespaceRule(n, v, body);
                    proof {
                        lemma_body_items_view(body);
                    }
                    Some((h, it))
                },
                None => None,
            }
        } else {
            None
        }
    } else {
        match semi_or_end(s, e) {
            Some((h, _)) => Some((h, Item::Property(n, v))),
            None => None,
        }
    }
}

fn rule(input: &Span, pos: usize) -> (res: PResult<Item>)
    requires
        pos <= input.data.len(),
    ensures
        parsed_item(res, spec_rule(input.data@, input.file, pos as int)),
        res matches Some((j, _)) ==> pos < j <= input.data.len(),
    decreases input.data.len() - pos, 7nat,
{
    let s = input.data;
    let (j, sel) = raw_text(input, pos);
    if sel.parts.len() > 0 && byte_at(s, j, 123u8) && pos < j {
        match block(input, j) {
            Some((k, body)) => {
                let it = Item::Rule(sel, body);
                proof {
                    lemma_body_items_view(body);
                }
                Some((k, it))
            },
            None => None,
        }
    } else {
        None
    }
}

fn item(input: &Span, pos: usize) -> (res: PResult<Item>)
    requires
        pos <= input.data.len(),
    ensures
        parsed_item(res, spec_item(input.data@, input.file, pos as int)),
        res matches Some((j, _)) ==> pos < j <= input.data.len(),
    decreases input.data.len() - pos, 9nat,
{
    let s = input.data;
    if pos >= s.len() {
        return None;
    }
    if tag_at(s, pos, "/*".as_bytes()) {
        return match comment(input, pos) {
            Some((j, c)) => Some((j, Item::Comment(c))),
            None => None,
        };
    }
    if s[pos] == 36u8 {
        return var_decl(input, pos);
    }
    if s[pos] == 64u8 {
        return at_item(input, pos);
    }
    if tag_at(s, pos, "--".as_bytes()) {
        return custom_prop(input, pos);
    }
    match property(input, pos) {
        Some(r) => Some(r),
        None => rule(input, pos),
    }
}

/// Parses a whole stylesheet.
pub fn sassfile(input: &Span) -> (res: Option<Vec<Item>>)
    ensures
        match res {
            Some(v) => spec_stylesheet(input.data@, input.file) == Some(items_view(v@)),
            None => spec_stylesheet(input.data@, input.file) is None,
        },
{
    let e: Vec<Item> = Vec::new();
    proof {
        assert(items_view(e@) =~= Seq::<ItemV>::empty());
    }
    match body(input, 0, e) {
        Some((k, items)) => {
            if k == input.data.len() {
                Some(items)
            } else {
                None
            }
        },
        None => None,
    }
}

} // verus!
