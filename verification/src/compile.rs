//! Compiling a stylesheet to css, and writing an error as text with the
//! source lines it points at.
use crate::error::{Decl, DeclV, Error, ErrorV, Invalid, InvalidV};
use crate::eval::{frame_view, str_bytes, Scope};
use crate::css::texts_view;
use crate::output::cssbuf::{BufV, CssBuf, Rule};
use crate::output::transform::{
    contents_view, files_view, handle_parsed, mixins_view, modules_view, ModuleV, FileV, SourceFile, spec_handle_body, world, Context, ContentV, MixinV,
    Parsed, WorldV,
};
use crate::parser::items::{sassfile, spec_stylesheet};
use crate::parser::span::Span;
use crate::parser::util::{lemma_line_end, line_end};
use crate::parser::value::kw;
use crate::sass::{items_view, Item, SourcePos};
use crate::value::{dec_digits, dec_digits_exec, push_bytes, push_str};
use std::rc::Rc;
use vstd::prelude::*;
use vstd::slice::slice_to_vec;

verus! {

// ---------------------------------------------------------------------
// Compiling
// ---------------------------------------------------------------------

/// The css of a stylesheet and the messages of its `@debug` and `@warn`.
#[derive(Debug)]
pub struct Compiled {
    pub css: Vec<u8>,
    pub messages: Vec<Vec<u8>>,
}

/// The state before the first item: an empty global scope and no output.
pub open spec fn initial_world(limit: nat) -> WorldV {
    WorldV {
        scope: seq![seq![]],
        head: seq![],
        msgs: seq![],
        mixins: seq![],
        contents: seq![],
        files: seq![],
        fwd_vars: seq![],
        fwd_mixins: seq![],
        functions: seq![],
        limit,
        modules: seq![],
        rule: None,
        buf: BufV { bytes: seq![], indent: 0, pending: false },
    }
}

/// The imports that go first, each on a line of its own.
pub open spec fn head_text(h: Seq<Seq<u8>>, n: int) -> Seq<u8>
    decreases n,
{
    if n <= 0 || n > h.len() {
        seq![]
    } else {
        head_text(h, n - 1) + kw("@import ") + h[n - 1] + kw(";\n")
    }
}

/// The css of a finished transformation: the imports, an empty line if
/// both they and the rest are there, and the rest.
pub open spec fn css_of(w: WorldV) -> Seq<u8> {
    let h = head_text(w.head, w.head.len() as int);
    if h.len() > 0 && w.buf.bytes.len() > 0 {
        h + seq![10u8] + w.buf.bytes
    } else {
        h + w.buf.bytes
    }
}

/// The state before the first item, with the stylesheets that `@import`
/// can load.
pub open spec fn initial_world_with(fs: Seq<FileV>, limit: nat) -> WorldV {
    WorldV {
        scope: seq![seq![]],
        head: seq![],
        msgs: seq![],
        mixins: seq![],
        contents: seq![],
        files: fs,
        fwd_vars: seq![],
        fwd_mixins: seq![],
        functions: seq![],
        limit,
        modules: seq![],
        rule: None,
        buf: BufV { bytes: seq![], indent: 0, pending: false },
    }
}

/// The table of stylesheets `fs` holds the given files, each under its
/// name, with the items of its text where that parses as file `k + 1`.
pub open spec fn loaded(files: Seq<(Vec<u8>, Vec<u8>)>, fs: Seq<FileV>) -> bool {
    &&& fs.len() == files.len()
    &&& forall|k: int| 0 <= k < files.len() ==> #[trigger] file_loaded(files[k], k, fs[k])
}

/// The entry `f` of the table of stylesheets holds the given file `g`,
/// the `k`th: its name, and the items of its text where that parses as
/// file `k + 1`.
pub open spec fn file_loaded(g: (Vec<u8>, Vec<u8>), k: int, f: FileV) -> bool {
    &&& f.0 == g.0@
    &&& match spec_stylesheet(g.1@, (k + 1) as usize) {
        None => f.1 is None,
        Some(iv) => f.1 matches Some(its) && items_view(its@) == iv,
    }
}

/// The css of a finished transformation, or its error.
pub open spec fn compiled(r: Result<Compiled, Error>, res: Result<WorldV, ErrorV>) -> bool {
    match r {
        Ok(c) => res matches Ok(w) && c.css@ == css_of(w) && texts_view(c.messages@) == w.msgs,
        Err(e) => res == Err::<WorldV, ErrorV>(e.view()),
    }
}

/// Parses the stylesheets that `@import` can load: the `k`th given file
/// is file `k + 1`.
fn load_files(files: &Vec<(Vec<u8>, Vec<u8>)>) -> (r: Vec<SourceFile>)
    requires
        files.len() < usize::MAX,
    ensures
        loaded(files@, files_view(r@)),
{
    let mut r: Vec<SourceFile> = Vec::new();
    let mut i: usize = 0;
    while i < files.len()
        invariant
            i <= files.len(),
            files.len() < usize::MAX,
            r.len() == i,
            forall|k: int| 0 <= k < i ==> #[trigger] file_loaded(files@[k], k, files_view(r@)[k]),
        decreases files.len() - i,
    {
        let span = Span { data: files[i].1.as_slice(), file: i + 1 };
        let items = match sassfile(&span) {
            None => None,
            Some(v) => Some(Rc::new(v)),
        };
        let ghost r0 = r@;
        r.push(SourceFile { name: slice_to_vec(files[i].0.as_slice()), items });
        proof {
            assert forall|k: int| 0 <= k < i + 1 implies #[trigger] file_loaded(
                files@[k],
                k,
                files_view(r@)[k],
            ) by {
                if k < i {
                    assert(r@[k] == r0[k]);
                    assert(files_view(r@)[k] == files_view(r0)[k]);
                } else {
                    assert(span.data@ == files@[k].1@);
                }
            }
        }
        i += 1;
    }
    r
}

/// Compiles a stylesheet, with the stylesheets that `@import` can load,
/// each given by its name and its text: the input is file 0, and the
/// `k`th given file is file `k + 1`. The input is parsed, and its items
/// are handled from an empty global scope; `fuel` bounds the iterations
/// of `@while` and the nesting of mixin calls, content blocks and
/// imports. Input that does not parse is an error.
pub fn compile_files(input: &[u8], files: &Vec<(Vec<u8>, Vec<u8>)>, fuel: usize) -> (r: Result<
    Compiled,
    Error,
>)
    requires
        files.len() < usize::MAX,
    ensures
        spec_stylesheet(input@, 0) is None ==> (r matches Err(e) && e.view() == ErrorV::S(
            kw("Parse error."),
        )),
        spec_stylesheet(input@, 0) matches Some(iv) ==> exists|items: Seq<Item>, fs: Seq<FileV>|
            #![auto]
            items_view(items) == iv && loaded(files@, fs) && compiled(
                r,
                spec_handle_body(items, initial_world_with(fs, fuel as nat), seq![], fuel as nat, items.len() as int),
            ),
{
    let span = Span { data: input, file: 0 };
    let items = match sassfile(&span) {
        None => {
            return Err(Error::S(str_bytes("Parse error.")));
        },
        Some(items) => items,
    };
    let ghost iseq = items@;
    let table = load_files(files);
    let ghost fs = files_view(table@);
    let mut cx = Context {
        scope: Scope::new(),
        head: Vec::new(),
        messages: Vec::new(),
        mixins: Vec::new(),
        contents: Vec::new(),
        files: table,
        fwd_vars: Vec::new(),
        fwd_mixins: Vec::new(),
        functions: Vec::new(),
        limit: fuel,
        modules: Vec::new(),
    };
    let mut rule: Option<Rule> = None;
    let mut buf = CssBuf::new();
    let sels: Vec<Vec<u8>> = Vec::new();
    proof {
        assert(texts_view(cx.head@) =~= Seq::<Seq<u8>>::empty());
        assert(texts_view(cx.messages@) =~= Seq::<Seq<u8>>::empty());
        assert(texts_view(sels@) =~= Seq::<Seq<u8>>::empty());
        assert(mixins_view(cx.mixins@) =~= Seq::<MixinV>::empty());
        assert(contents_view(cx.contents@) =~= Seq::<ContentV>::empty());
        assert(mixins_view(cx.fwd_mixins@) =~= Seq::<MixinV>::empty());
        assert(frame_view(cx.fwd_vars@) =~= Seq::<(Seq<u8>, crate::value::CssValueV)>::empty());
        assert(mixins_view(cx.functions@) =~= Seq::<MixinV>::empty());
        assert(modules_view(cx.modules@) =~= Seq::<ModuleV>::empty());
        assert(world(cx, rule, buf) == initial_world_with(fs, fuel as nat));
    }
    let ghost res = spec_handle_body(iseq, initial_world_with(fs, fuel as nat), seq![], fuel as nat, iseq.len() as int);
    match handle_parsed(Parsed::Scss(items), &mut cx, &mut rule, &mut buf, &sels, fuel) {
        Err(e) => {
            let r = Err(e);
            proof {
                assert(compiled(r, res));
                assert(items_view(iseq) == spec_stylesheet(input@, 0).unwrap());
                assert(loaded(files@, fs));
            }
            return r;
        },
        Ok(()) => {},
    }
    let ghost w_end = world(cx, rule, buf);
    assert(res == Ok::<WorldV, ErrorV>(w_end));
    let mut css: Vec<u8> = Vec::new();
    let mut i: usize = 0;
    while i < cx.head.len()
        invariant
            i <= cx.head.len(),
            css@ == head_text(texts_view(cx.head@), i as int),
        decreases cx.head.len() - i,
    {
        push_str(&mut css, "@import ");
        push_bytes(&mut css, cx.head[i].as_slice());
        push_str(&mut css, ";\n");
        i += 1;
        proof {
            assert(css@ =~= head_text(texts_view(cx.head@), i as int));
        }
    }
    if css.len() > 0 && buf.bytes.len() > 0 {
        css.push(10u8);
    }
    push_bytes(&mut css, buf.bytes.as_slice());
    assert(css@ == css_of(w_end));
    assert(texts_view(cx.messages@) == w_end.msgs);
    let r = Ok(Compiled { css, messages: cx.messages });
    proof {
        assert(compiled(r, res));
        assert(items_view(iseq) == spec_stylesheet(input@, 0).unwrap());
        assert(loaded(files@, fs));
    }
    r
}

/// Compiles a stylesheet that imports no other stylesheet: see
/// `compile_files`.
pub fn compile_scss(input: &[u8], fuel: usize) -> (r: Result<Compiled, Error>)
    ensures
        spec_stylesheet(input@, 0) is None ==> (r matches Err(e) && e.view() == ErrorV::S(
            kw("Parse error."),
        )),
        spec_stylesheet(input@, 0) matches Some(iv) ==> exists|items: Seq<Item>|
            #![auto]
            items_view(items) == iv && compiled(
                r,
                spec_handle_body(items, initial_world(fuel as nat), seq![], fuel as nat, items.len() as int),
            ),
{
    let files: Vec<(Vec<u8>, Vec<u8>)> = Vec::new();
    let r = compile_files(input, &files, fuel);
    proof {
        if let Some(iv) = spec_stylesheet(input@, 0) {
            let (items, fs) = choose|items: Seq<Item>, fs: Seq<FileV>|
                #![auto]
                items_view(items) == iv && loaded(files@, fs) && compiled(
                    r,
                    spec_handle_body(
                        items,
                        initial_world_with(fs, fuel as nat),
                        seq![],
                        fuel as nat,
                        items.len() as int,
                    ),
                );
            assert(fs =~= Seq::<FileV>::empty());
            assert(initial_world_with(fs, fuel as nat) == initial_world(fuel as nat));
        }
    }
    r
}

// ---------------------------------------------------------------------
// Error text
// ---------------------------------------------------------------------

/// The start of the line that holds `i`.
pub open spec fn line_start(s: Seq<u8>, i: int) -> int
    decreases i,
{
    if i <= 0 {
        0
    } else if i - 1 < s.len() && s[i - 1] == 10u8 {
        i
    } else {
        line_start(s, i - 1)
    }
}

/// The number, from 1, of the line that holds `i`.
pub open spec fn line_number(s: Seq<u8>, i: int) -> nat
    decreases i,
{
    if i <= 0 {
        1
    } else if i - 1 < s.len() && s[i - 1] == 10u8 {
        line_number(s, i - 1) + 1
    } else {
        line_number(s, i - 1)
    }
}

/// `n` copies of the byte `b`.
pub open spec fn repeat(b: u8, n: nat) -> Seq<u8> {
    Seq::new(n, |i: int| b)
}

/// A source line with a span of it marked: a head line (`,` and the
/// `header`), the line with its number, the marks under the span (with a
/// label after them, if there is one), and a closing line. The gutter is
/// `g` wide.
pub open spec fn snippet_text(
    num: Seq<u8>,
    g: nat,
    line: Seq<u8>,
    col: nat,
    len: nat,
    mark: u8,
    label: Seq<u8>,
    header: Seq<u8>,
) -> Seq<u8> {
    repeat(32u8, g + 1) + seq![44u8] + header + seq![10u8] + num + kw(" | ") + line + seq![10u8]
        + repeat(32u8, g + 1) + kw("| ") + repeat(32u8, col) + repeat(mark, len) + (if label.len()
        > 0 {
        seq![32u8] + label
    } else {
        seq![]
    }) + seq![10u8] + repeat(32u8, g + 1) + seq![39u8]
}

/// The marked part of a span in its line: from its start to its end or
/// the end of the line, and at least one byte.
pub open spec fn mark_len(start: int, end: int, le: int) -> nat {
    let e = if end < le {
        end
    } else {
        le
    };
    if e - start >= 1 {
        (e - start) as nat
    } else {
        1
    }
}

/// A span of the source marked in its line, with a gutter `g` wide.
pub open spec fn source_snippet(
    src: Seq<u8>,
    pos: SourcePos,
    g: nat,
    mark: u8,
    label: Seq<u8>,
    header: Seq<u8>,
) -> Seq<u8> {
    let i = if pos.start <= src.len() {
        pos.start as int
    } else {
        src.len() as int
    };
    let ls = line_start(src, i);
    let le = line_end(src, i);
    snippet_text(
        dec_digits(line_number(src, i)),
        g,
        src.subrange(ls, le),
        (i - ls) as nat,
        mark_len(i, pos.end as int, le),
        mark,
        label,
        header,
    )
}

/// The position of a span as `line:column`.
pub open spec fn line_col(src: Seq<u8>, pos: SourcePos) -> Seq<u8> {
    let i = if pos.start <= src.len() {
        pos.start as int
    } else {
        src.len() as int
    };
    dec_digits(line_number(src, i)) + seq![58u8] + dec_digits((i - line_start(src, i) + 1) as nat)
}

/// What an invalid item is said to be.
pub open spec fn invalid_text(k: InvalidV) -> Seq<u8> {
    match k {
        InvalidV::AtRule => kw("This at-rule is not allowed here."),
        InvalidV::MixinInMixin => kw("Mixins may not contain mixin declarations."),
        InvalidV::MixinInControl => kw("Mixins may not be declared in control directives."),
        InvalidV::FunctionInMixin => kw("Mixins may not contain function declarations."),
        InvalidV::FunctionInControl => kw("Functions may not be declared in control directives."),
        InvalidV::FunctionName => kw("Invalid function name."),
        InvalidV::AtError(m) => m,
    }
}

/// An error as text for the source `src` of the file `name`: the
/// message, the marked source of where it happened (and of what was
/// called, where that is known), and the place.
pub open spec fn error_text(e: ErrorV, name: Seq<u8>, src: Seq<u8>) -> Seq<u8> {
    match e {
        ErrorV::S(m) => kw("Error: ") + m,
        ErrorV::At(m, pos) => kw("Error: ") + m + seq![10u8] + plain_snippet(src, pos) + trailer(
            name,
            src,
            pos,
        ),
        ErrorV::Invalid(k, pos) => kw("Error: ") + invalid_text(k) + seq![10u8] + plain_snippet(
            src,
            pos,
        ) + trailer(name, src, pos),
        ErrorV::BadCall(m, pos, None) => kw("Error: ") + m + seq![10u8] + plain_snippet(src, pos)
            + trailer(name, src, pos),
        ErrorV::BadCall(m, pos, Some(d)) => {
            let g = gutter(src, pos);
            kw("Error: ") + m + seq![10u8] + source_snippet(
                src,
                pos,
                g,
                94u8,
                kw("invocation"),
                kw("--> ") + name,
            ) + seq![10u8] + match d {
                DeclV::File(dp) => source_snippet(src, dp, g, 61u8, kw("declaration"), kw("--> ") + name),
                DeclV::Builtin(module, line, a, b) => snippet_text(
                    seq![49u8],
                    g,
                    line,
                    a as nat,
                    if b > a {
                        (b - a) as nat
                    } else {
                        1
                    },
                    61u8,
                    kw("declaration"),
                    kw("--> ") + module,
                ),
            } + trailer(name, src, pos)
        },
    }
}

/// The width of the gutter for a span: the digits of its line number.
pub open spec fn gutter(src: Seq<u8>, pos: SourcePos) -> nat {
    let i = if pos.start <= src.len() {
        pos.start as int
    } else {
        src.len() as int
    };
    dec_digits(line_number(src, i)).len()
}

pub open spec fn plain_snippet(src: Seq<u8>, pos: SourcePos) -> Seq<u8> {
    source_snippet(src, pos, gutter(src, pos), 94u8, seq![], seq![])
}

/// The last line of an error: the file and the place.
pub open spec fn trailer(name: Seq<u8>, src: Seq<u8>, pos: SourcePos) -> Seq<u8> {
    seq![10u8, 32u8, 32u8] + name + seq![32u8] + line_col(src, pos) + kw("  root stylesheet")
}


fn line_start_exec(src: &[u8], i: usize) -> (r: usize)
    requires
        i <= src.len(),
    ensures
        r == line_start(src@, i as int),
        r <= i,
{
    let mut k = i;
    while k > 0 && src[k - 1] != 10u8
        invariant
            k <= i,
            i <= src.len(),
            line_start(src@, i as int) == line_start(src@, k as int),
        decreases k,
    {
        k -= 1;
    }
    k
}

fn line_number_exec(src: &[u8], i: usize) -> (r: u128)
    requires
        i <= src.len(),
    ensures
        r == line_number(src@, i as int),
{
    let mut k = i;
    let mut n: u128 = 1;
    while k > 0
        invariant
            k <= i,
            i <= src.len(),
            n <= i - k + 1,
            line_number(src@, i as int) == line_number(src@, k as int) + n - 1,
        decreases k,
    {
        if src[k - 1] == 10u8 {
            n += 1;
        }
        k -= 1;
    }
    n
}

fn line_end_exec(src: &[u8], i: usize) -> (r: usize)
    requires
        i <= src.len(),
    ensures
        r == line_end(src@, i as int),
        i <= r <= src.len(),
{
    let mut k = i;
    while k < src.len() && src[k] != 10u8
        invariant
            i <= k <= src.len(),
            line_end(src@, i as int) == line_end(src@, k as int),
        decreases src.len() - k,
    {
        k += 1;
    }
    k
}

fn push_repeat(out: &mut Vec<u8>, b: u8, n: usize)
    ensures
        final(out)@ == old(out)@ + repeat(b, n as nat),
{
    let ghost o0 = out@;
    let mut i: usize = 0;
    while i < n
        invariant
            i <= n,
            out@ == o0 + repeat(b, i as nat),
        decreases n - i,
    {
        out.push(b);
        i += 1;
        proof {
            assert(out@ =~= o0 + repeat(b, i as nat));
        }
    }
}

fn write_snippet(
    out: &mut Vec<u8>,
    num: &[u8],
    g: usize,
    line: &[u8],
    col: usize,
    len: usize,
    mark: u8,
    label: &[u8],
    header: &[u8],
)
    ensures
        final(out)@ == old(out)@ + snippet_text(
            num@,
            g as nat,
            line@,
            col as nat,
            len as nat,
            mark,
            label@,
            header@,
        ),
{
    let ghost o0 = out@;
    push_repeat(out, 32u8, g);
    out.push(32u8);
    out.push(44u8);
    push_bytes(out, header);
    out.push(10u8);
    push_bytes(out, num);
    push_str(out, " | ");
    push_bytes(out, line);
    out.push(10u8);
    push_repeat(out, 32u8, g);
    out.push(32u8);
    push_str(out, "| ");
    push_repeat(out, 32u8, col);
    push_repeat(out, mark, len);
    if label.len() > 0 {
        out.push(32u8);
        push_bytes(out, label);
    }
    out.push(10u8);
    push_repeat(out, 32u8, g);
    out.push(32u8);
    out.push(39u8);
    proof {
        assert(repeat(32u8, g as nat) + seq![32u8] =~= repeat(32u8, (g + 1) as nat));
        assert(out@ =~= o0 + snippet_text(
            num@,
            g as nat,
            line@,
            col as nat,
            len as nat,
            mark,
            label@,
            header@,
        ));
    }
}

fn write_source_snippet(
    out: &mut Vec<u8>,
    src: &[u8],
    pos: SourcePos,
    g: usize,
    mark: u8,
    label: &[u8],
    header: &[u8],
)
    ensures
        final(out)@ == old(out)@ + source_snippet(src@, pos, g as nat, mark, label@, header@),
{
    let i = if pos.start <= src.len() {
        pos.start
    } else {
        src.len()
    };
    let ls = line_start_exec(src, i);
    let le = line_end_exec(src, i);
    let num = dec_digits_exec(line_number_exec(src, i));
    let e = if pos.end < le {
        pos.end
    } else {
        le
    };
    let len: usize = if e >= i && e - i >= 1 {
        e - i
    } else {
        1
    };
    let text = crate::parser::value::bytes_between(src, ls, le);
    write_snippet(out, num.as_slice(), g, text.as_slice(), i - ls, len, mark, label, header);
}

fn gutter_exec(src: &[u8], pos: SourcePos) -> (g: usize)
    ensures
        g == gutter(src@, pos),
{
    let i = if pos.start <= src.len() {
        pos.start
    } else {
        src.len()
    };
    let num = dec_digits_exec(line_number_exec(src, i));
    num.len()
}

fn write_trailer(out: &mut Vec<u8>, name: &[u8], src: &[u8], pos: SourcePos)
    ensures
        final(out)@ == old(out)@ + trailer(name@, src@, pos),
{
    let ghost o0 = out@;
    let i = if pos.start <= src.len() {
        pos.start
    } else {
        src.len()
    };
    let ls = line_start_exec(src, i);
    out.push(10u8);
    out.push(32u8);
    out.push(32u8);
    push_bytes(out, name);
    out.push(32u8);
    let num = dec_digits_exec(line_number_exec(src, i));
    push_bytes(out, num.as_slice());
    out.push(58u8);
    let col = dec_digits_exec(((i - ls) as u128) + 1);
    push_bytes(out, col.as_slice());
    push_str(out, "  root stylesheet");
    proof {
        assert(out@ =~= o0 + trailer(name@, src@, pos));
    }
}

fn invalid_text_exec(k: &Invalid) -> (r: Vec<u8>)
    ensures
        r@ == invalid_text(k.view()),
{
    match k {
        Invalid::AtRule => str_bytes("This at-rule is not allowed here."),
        Invalid::MixinInMixin => str_bytes("Mixins may not contain mixin declarations."),
        Invalid::MixinInControl => str_bytes("Mixins may not be declared in control directives."),
        Invalid::FunctionInMixin => str_bytes("Mixins may not contain function declarations."),
        Invalid::FunctionInControl => str_bytes(
            "Functions may not be declared in control directives.",
        ),
        Invalid::FunctionName => str_bytes("Invalid function name."),
        Invalid::AtError(m) => slice_to_vec(m.as_slice()),
    }
}

/// Writes an error as text, for the source `src` of the file `name`.
pub fn render_error(e: &Error, name: &[u8], src: &[u8]) -> (r: Vec<u8>)
    ensures
        r@ == error_text(e.view(), name@, src@),
{
    let mut out = str_bytes("Error: ");
    match e {
        Error::S(m) => {
            push_bytes(&mut out, m.as_slice());
        },
        Error::At(m, pos) => {
            push_bytes(&mut out, m.as_slice());
            out.push(10u8);
            let g = gutter_exec(src, *pos);
            write_source_snippet(&mut out, src, *pos, g, 94u8, &[], &[]);
            write_trailer(&mut out, name, src, *pos);
        },
        Error::Invalid(k, pos) => {
            let t = invalid_text_exec(k);
            push_bytes(&mut out, t.as_slice());
            out.push(10u8);
            let g = gutter_exec(src, *pos);
            write_source_snippet(&mut out, src, *pos, g, 94u8, &[], &[]);
            write_trailer(&mut out, name, src, *pos);
        },
        Error::BadCall(m, pos, None) => {
            push_bytes(&mut out, m.as_slice());
            out.push(10u8);
            let g = gutter_exec(src, *pos);
            write_source_snippet(&mut out, src, *pos, g, 94u8, &[], &[]);
            write_trailer(&mut out, name, src, *pos);
        },
        Error::BadCall(m, pos, Some(d)) => {
            push_bytes(&mut out, m.as_slice());
            out.push(10u8);
            let g = gutter_exec(src, *pos);
            let mut header = str_bytes("--> ");
            push_bytes(&mut header, name);
            write_source_snippet(
                &mut out,
                src,
                *pos,
                g,
                94u8,
                "invocation".as_bytes(),
                header.as_slice(),
            );
            out.push(10u8);
            match d {
                Decl::File(dp) => {
                    write_source_snippet(
                        &mut out,
                        src,
                        *dp,
                        g,
                        61u8,
                        "declaration".as_bytes(),
                        header.as_slice(),
                    );
                },
                Decl::Builtin(module, line, a, b) => {
                    let mut mh = str_bytes("--> ");
                    push_bytes(&mut mh, module.as_slice());
                    let len: usize = if *b > *a {
                        *b - *a
                    } else {
                        1
                    };
                    let mut one: Vec<u8> = Vec::new();
                    one.push(49u8);
                    assert(one@ =~= seq![49u8]);
                    write_snippet(
                        &mut out,
                        one.as_slice(),
                        g,
                        line.as_slice(),
                        *a,
                        len,
                        61u8,
                        "declaration".as_bytes(),
                        mh.as_slice(),
                    );
                },
            }
            write_trailer(&mut out, name, src, *pos);
        },
    }
    out
}

/// The file that an error happened in: that of its position, and for an
/// error without one, the input.
pub open spec fn error_file(e: ErrorV) -> usize {
    match e {
        ErrorV::S(_) => 0,
        ErrorV::At(_, p) => p.file,
        ErrorV::Invalid(_, p) => p.file,
        ErrorV::BadCall(_, p, _) => p.file,
    }
}

/// An error as text, with the name and source of the file it happened
/// in: file 0 is the input, and file `k + 1` the `k`th of `files`, as
/// `compile_files` numbers them.
pub fn render_error_files(
    e: &Error,
    name: &[u8],
    src: &[u8],
    files: &Vec<(Vec<u8>, Vec<u8>)>,
) -> (r: Vec<u8>)
    ensures
        r@ == if 0 < error_file(e.view()) <= files.len() {
            error_text(
                e.view(),
                files@[error_file(e.view()) - 1].0@,
                files@[error_file(e.view()) - 1].1@,
            )
        } else {
            error_text(e.view(), name@, src@)
        },
{
    let f = match e {
        Error::S(_) => 0,
        Error::At(_, p) => p.file,
        Error::Invalid(_, p) => p.file,
        Error::BadCall(_, p, _) => p.file,
    };
    if 0 < f && f <= files.len() {
        render_error(e, files[f - 1].0.as_slice(), files[f - 1].1.as_slice())
    } else {
        render_error(e, name, src)
    }
}

} // verus!
