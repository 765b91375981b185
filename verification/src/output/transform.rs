//! The transformation of parsed items into css: `handle_parsed`,
//! `handle_body`, `handle_item`, and the checks of what a body may hold.
use crate::css::{
    clone_texts, inside, inside_exec, join_texts, join_texts_exec, texts_view, with_backref,
    with_backref_exec, PartV, Selectors,
};
use crate::error::{Decl, DeclV, Error, ErrorV, Invalid, InvalidV};
use crate::eval::{
    bind_callable, clone_css, eval, eval_args, eval_parts, frame_view, frames_view, local_get,
    scope_define, scope_get, frame_find, frame_find_exec,
    scope_restore, spec_bind_callable, spec_eval, spec_eval_args, spec_eval_parts, is_true, opt_css_view,
    spec_set_variable, str_bytes, vres, FrameV, Scope, ScopeV, Var,
};
use crate::output::cssbuf::{
    buf_add, buf_separate, buf_sub, push_spaces, rule_text, rule_text_exec, spaces, BodyItem,
    BodyItemV, BufV, CssBuf, Rule, RuleV,
};
use crate::parser::css::selectors::{parsed_selectors, selectors, spec_selectors};
use crate::parser::span::Span;
use crate::parser::value::kw;
use crate::parser::{bytes_eq, has_tag, tag_at};
use crate::sass::{args_view, names_view, parts_view, CallArg, Callable, Configure, Expose, ExposeV, Item, UseAs, Quotes, SassString, SourcePos, StringPart, Value, ValueV};
use std::rc::Rc;
use crate::value::{format_value, format_value_exec, push_bytes, push_str, CssValue, CssValueV};
use crate::sass::NumberV;
use vstd::prelude::*;
use vstd::slice::{slice_subrange, slice_to_vec};
use vstd::string::StringSliceAdditionalSpecFns;

verus! {

/// What a body belongs to.
#[derive(Clone, Copy, PartialEq, Eq, Structural, Debug)]
pub enum BodyContext {
    Mixin,
    Function,
    Control,
    Rule,
    NsRule,
}

/// The at-rules of plain css.
pub open spec fn is_css_at_rule(n: Seq<u8>) -> bool {
    n == kw("charset") || n == kw("color-profile") || n == kw("counter-style") || n == kw(
        "document",
    ) || n == kw("font-face") || n == kw("font-feature-values") || n == kw("import") || n == kw(
        "keyframes",
    ) || n == kw("layer") || n == kw("media") || n == kw("namespace") || n == kw("page") || n
        == kw("property") || n == kw("scroll-timeline") || n == kw("supports") || n == kw(
        "viewport",
    )
}

/// Whether `n` is one of the at-rules of plain css.
pub fn is_css_at_rule_exec(n: &[u8]) -> (r: bool)
    ensures
        r == is_css_at_rule(n@),
{
    bytes_eq(n, "charset".as_bytes()) || bytes_eq(n, "color-profile".as_bytes()) || bytes_eq(
        n,
        "counter-style".as_bytes(),
    ) || bytes_eq(n, "document".as_bytes()) || bytes_eq(n, "font-face".as_bytes()) || bytes_eq(
        n,
        "font-feature-values".as_bytes(),
    ) || bytes_eq(n, "import".as_bytes()) || bytes_eq(n, "keyframes".as_bytes()) || bytes_eq(
        n,
        "layer".as_bytes(),
    ) || bytes_eq(n, "media".as_bytes()) || bytes_eq(n, "namespace".as_bytes()) || bytes_eq(
        n,
        "page".as_bytes(),
    ) || bytes_eq(n, "property".as_bytes()) || bytes_eq(n, "scroll-timeline".as_bytes())
        || bytes_eq(n, "supports".as_bytes()) || bytes_eq(n, "viewport".as_bytes())
}

/// The text of a string that is exactly one literal part.
pub open spec fn single_raw(s: &SassString) -> Option<Seq<u8>> {
    if s.parts.len() == 1 && s.parts@[0] is Raw {
        Some(s.parts@[0]->Raw_0@)
    } else {
        None
    }
}

/// The error, if any, that an item gives in a body of the given context.
pub open spec fn check_item(item: &Item, context: BodyContext) -> Option<Error> {
    match item {
        Item::Forward(_, _, _, _, pos) => Some(Invalid::AtRule.at(*pos)),
        Item::Use(_, _, _, pos) => Some(Invalid::AtRule.at(*pos)),
        Item::MixinDeclaration(_, decl) => {
            let pos = decl.decl.back_to(decl.decl_at);
            match context {
                BodyContext::Mixin => Some(Invalid::MixinInMixin.at(pos)),
                BodyContext::Control => Some(Invalid::MixinInControl.at(pos)),
                BodyContext::Rule => None,
                _ => Some(Invalid::AtRule.at(pos)),
            }
        },
        Item::FunctionDeclaration(_, body) => {
            let pos = body.decl.back_to(body.decl_at);
            match context {
                BodyContext::Mixin => Some(Invalid::FunctionInMixin.at(pos)),
                BodyContext::Control => Some(Invalid::FunctionInControl.at(pos)),
                BodyContext::Rule => None,
                _ => Some(Invalid::AtRule.at(pos)),
            }
        },
        Item::Return(_, pos) => if context != BodyContext::Function {
            Some(Invalid::AtRule.at(*pos))
        } else {
            None
        },
        Item::AtRule { name, pos, .. } => if context != BodyContext::Rule {
            if !(single_raw(name) matches Some(n) && is_css_at_rule(n)) {
                Some(Invalid::AtRule.at(*pos))
            } else {
                None
            }
        } else {
            None
        },
        _ => None,
    }
}

/// A body passes the checks when each of its items does; otherwise the
/// error is that of the first item that does not.
pub open spec fn spec_check_body(body: Seq<Item>, context: BodyContext) -> Result<(), Error>
    decreases body.len(),
{
    if body.len() == 0 {
        Ok(())
    } else {
        match check_item(&body[0], context) {
            Some(e) => Err(e),
            None => spec_check_body(body.drop_first(), context),
        }
    }
}

fn check_item_exec(item: &Item, context: BodyContext) -> (r: Option<Error>)
    ensures
        r == check_item(item, context),
{
    match item {
        Item::Forward(_, _, _, _, pos) => Some(Error::Invalid(Invalid::AtRule, *pos)),
        Item::Use(_, _, _, pos) => Some(Error::Invalid(Invalid::AtRule, *pos)),
        Item::MixinDeclaration(_, decl) => {
            let pos = crate::sass::SourcePos {
                file: decl.decl.file,
                start: decl.decl_at,
                end: decl.decl.end,
            };
            match context {
                BodyContext::Mixin => Some(Error::Invalid(Invalid::MixinInMixin, pos)),
                BodyContext::Control => Some(Error::Invalid(Invalid::MixinInControl, pos)),
                BodyContext::Rule => None,
                _ => Some(Error::Invalid(Invalid::AtRule, pos)),
            }
        },
        Item::FunctionDeclaration(_, body) => {
            let pos = crate::sass::SourcePos {
                file: body.decl.file,
                start: body.decl_at,
                end: body.decl.end,
            };
            match context {
                BodyContext::Mixin => Some(Error::Invalid(Invalid::FunctionInMixin, pos)),
                BodyContext::Control => Some(Error::Invalid(Invalid::FunctionInControl, pos)),
                BodyContext::Rule => None,
                _ => Some(Error::Invalid(Invalid::AtRule, pos)),
            }
        },
        Item::Return(_, pos) => if context != BodyContext::Function {
            Some(Error::Invalid(Invalid::AtRule, *pos))
        } else {
            None
        },
        Item::AtRule { name, pos, .. } => if context != BodyContext::Rule {
            let css = if name.parts.len() == 1 {
                match &name.parts[0] {
                    StringPart::Raw(n) => is_css_at_rule_exec(n.as_slice()),
                    _ => false,
                }
            } else {
                false
            };
            if !css {
                Some(Error::Invalid(Invalid::AtRule, *pos))
            } else {
                None
            }
        } else {
            None
        },
        _ => None,
    }
}

/// Checks that a body holds only what may stand in the given context.
pub fn check_body(body: &[Item], context: BodyContext) -> (res: Result<(), Error>)
    ensures
        res == spec_check_body(body@, context),
{
    let mut i: usize = 0;
    proof {
        assert(body@.skip(0) =~= body@);
    }
    while i < body.len()
        invariant
            i <= body.len(),
            spec_check_body(body@, context) == spec_check_body(body@.skip(i as int), context),
        decreases body.len() - i,
    {
        proof {
            assert(body@.skip(i as int)[0] == body@[i as int]);
            assert(body@.skip(i as int).drop_first() =~= body@.skip(i + 1));
        }
        match check_item_exec(&body[i], context) {
            Some(e) => {
                return Err(e);
            },
            None => {},
        }
        i = i + 1;
    }
    proof {
        assert(body@.skip(i as int).len() == 0);
    }
    Ok(())
}


// ---------------------------------------------------------------------
// The state of the transformation
// ---------------------------------------------------------------------

/// The indentation level one deeper than `n`; the largest level a
/// machine word holds stays as it is.
pub open spec fn deeper(n: usize) -> usize {
    if n < usize::MAX {
        (n + 1) as usize
    } else {
        n
    }
}

/// A declared mixin: its name and its declaration.
#[derive(Debug)]
pub struct MixinDef {
    pub name: Vec<u8>,
    pub decl: Rc<Callable>,
}

/// A mixin call that is being handled: its content block, if it has one,
/// and the frames of the caller above the global frame, in which that
/// block runs.
#[derive(Debug)]
pub struct ContentCall {
    pub block: Option<Rc<Callable>>,
    pub frames: Vec<Vec<Var>>,
}

/// A module that has been loaded: its url, and its members, each by its
/// own name: its variables, its mixins and its functions.
#[derive(Debug)]
pub struct ModuleEntry {
    pub url: Vec<u8>,
    pub vars: Vec<Var>,
    pub mixins: Vec<MixinDef>,
    pub functions: Vec<MixinDef>,
}

/// A stylesheet that `@import` can load: its name, and its items, or
/// nothing where its text does not parse.
#[derive(Debug)]
pub struct SourceFile {
    pub name: Vec<u8>,
    pub items: Option<Rc<Vec<Item>>>,
}

/// What the transformation keeps besides the css text and the rule
/// being built: the variables, the imports that go first in the output,
/// the messages of `@debug` and `@warn`, the declared mixins, the mixin
/// calls being handled, the innermost last, the stylesheets that
/// `@import`, `@use` and `@forward` can load, the variables and mixins
/// that the module being handled forwards, the declared functions, and
/// how deeply function calls may nest.
#[derive(Debug)]
pub struct Context {
    pub scope: Scope,
    pub head: Vec<Vec<u8>>,
    pub messages: Vec<Vec<u8>>,
    pub mixins: Vec<MixinDef>,
    pub contents: Vec<ContentCall>,
    pub files: Vec<SourceFile>,
    pub fwd_vars: Vec<Var>,
    pub fwd_mixins: Vec<MixinDef>,
    pub functions: Vec<MixinDef>,
    pub limit: usize,
    pub modules: Vec<ModuleEntry>,
}

/// A declared mixin: its name and its declaration.
pub type MixinV = (Seq<u8>, Rc<Callable>);

/// A loaded module: its url, variables, mixins and functions.
pub type ModuleV = (Seq<u8>, FrameV, Seq<MixinV>, Seq<MixinV>);

pub open spec fn module_view(m: ModuleEntry) -> ModuleV {
    (m.url@, frame_view(m.vars@), mixins_view(m.mixins@), mixins_view(m.functions@))
}

pub open spec fn modules_view(ms: Seq<ModuleEntry>) -> Seq<ModuleV> {
    Seq::new(ms.len(), |i: int| module_view(ms[i]))
}

/// A mixin call being handled: its content block and the caller's frames.
pub type ContentV = (Option<Rc<Callable>>, Seq<FrameV>);

/// A stylesheet that `@import` can load: its name and its items, if it
/// parsed.
pub type FileV = (Seq<u8>, Option<Rc<Vec<Item>>>);

/// Everything that handling an item reads and changes.
pub struct WorldV {
    pub scope: ScopeV,
    pub head: Seq<Seq<u8>>,
    pub msgs: Seq<Seq<u8>>,
    pub mixins: Seq<MixinV>,
    pub contents: Seq<ContentV>,
    pub files: Seq<FileV>,
    pub fwd_vars: FrameV,
    pub fwd_mixins: Seq<MixinV>,
    pub functions: Seq<MixinV>,
    pub limit: nat,
    pub modules: Seq<ModuleV>,
    pub rule: Option<RuleV>,
    pub buf: BufV,
}

pub open spec fn files_view(fs: Seq<SourceFile>) -> Seq<FileV> {
    Seq::new(fs.len(), |i: int| (fs[i].name@, fs[i].items))
}

pub open spec fn mixins_view(ms: Seq<MixinDef>) -> Seq<MixinV> {
    Seq::new(ms.len(), |i: int| (ms[i].name@, ms[i].decl))
}

pub open spec fn contents_view(cs: Seq<ContentCall>) -> Seq<ContentV> {
    Seq::new(cs.len(), |i: int| (cs[i].block, frames_view(cs[i].frames@)))
}

pub open spec fn opt_rule_view(r: Option<Rule>) -> Option<RuleV> {
    match r {
        Some(x) => Some(x.view()),
        None => None,
    }
}

pub open spec fn world(cx: Context, rule: Option<Rule>, buf: CssBuf) -> WorldV {
    WorldV {
        scope: cx.scope.view(),
        head: texts_view(cx.head@),
        msgs: texts_view(cx.messages@),
        mixins: mixins_view(cx.mixins@),
        contents: contents_view(cx.contents@),
        files: files_view(cx.files@),
        fwd_vars: frame_view(cx.fwd_vars@),
        fwd_mixins: mixins_view(cx.fwd_mixins@),
        functions: mixins_view(cx.functions@),
        limit: cx.limit as nat,
        modules: modules_view(cx.modules@),
        rule: opt_rule_view(rule),
        buf: buf.view(),
    }
}

pub open spec fn with_buf(w: WorldV, b: BufV) -> WorldV {
    WorldV {
        scope: w.scope,
        head: w.head,
        msgs: w.msgs,
        mixins: w.mixins,
        contents: w.contents,
        files: w.files,
        fwd_vars: w.fwd_vars,
        fwd_mixins: w.fwd_mixins,
        functions: w.functions,
        limit: w.limit,
        modules: w.modules,
        rule: w.rule,
        buf: b,
    }
}

pub open spec fn with_rule(w: WorldV, r: Option<RuleV>) -> WorldV {
    WorldV {
        scope: w.scope,
        head: w.head,
        msgs: w.msgs,
        mixins: w.mixins,
        contents: w.contents,
        files: w.files,
        fwd_vars: w.fwd_vars,
        fwd_mixins: w.fwd_mixins,
        functions: w.functions,
        limit: w.limit,
        modules: w.modules,
        rule: r,
        buf: w.buf,
    }
}

pub open spec fn with_scope(w: WorldV, sc: ScopeV) -> WorldV {
    WorldV {
        scope: sc,
        head: w.head,
        msgs: w.msgs,
        mixins: w.mixins,
        contents: w.contents,
        files: w.files,
        fwd_vars: w.fwd_vars,
        fwd_mixins: w.fwd_mixins,
        functions: w.functions,
        limit: w.limit,
        modules: w.modules,
        rule: w.rule,
        buf: w.buf,
    }
}

pub open spec fn with_msg(w: WorldV, m: Seq<u8>) -> WorldV {
    WorldV {
        scope: w.scope,
        head: w.head,
        msgs: w.msgs.push(m),
        mixins: w.mixins,
        contents: w.contents,
        files: w.files,
        fwd_vars: w.fwd_vars,
        fwd_mixins: w.fwd_mixins,
        functions: w.functions,
        limit: w.limit,
        modules: w.modules,
        rule: w.rule,
        buf: w.buf,
    }
}

pub open spec fn with_import(w: WorldV, t: Seq<u8>) -> WorldV {
    WorldV {
        scope: w.scope,
        head: w.head.push(t),
        msgs: w.msgs,
        mixins: w.mixins,
        contents: w.contents,
        files: w.files,
        fwd_vars: w.fwd_vars,
        fwd_mixins: w.fwd_mixins,
        functions: w.functions,
        limit: w.limit,
        modules: w.modules,
        rule: w.rule,
        buf: w.buf,
    }
}

pub open spec fn with_mixin(w: WorldV, n: Seq<u8>, c: Rc<Callable>) -> WorldV {
    WorldV {
        scope: w.scope,
        head: w.head,
        msgs: w.msgs,
        mixins: w.mixins.push((n, c)),
        contents: w.contents,
        files: w.files,
        fwd_vars: w.fwd_vars,
        fwd_mixins: w.fwd_mixins,
        functions: w.functions,
        limit: w.limit,
        modules: w.modules,
        rule: w.rule,
        buf: w.buf,
    }
}

pub open spec fn with_function(w: WorldV, n: Seq<u8>, c: Rc<Callable>) -> WorldV {
    WorldV {
        scope: w.scope,
        head: w.head,
        msgs: w.msgs,
        mixins: w.mixins,
        contents: w.contents,
        files: w.files,
        fwd_vars: w.fwd_vars,
        fwd_mixins: w.fwd_mixins,
        functions: w.functions.push((n, c)),
        limit: w.limit,
        modules: w.modules,
        rule: w.rule,
        buf: w.buf,
    }
}

pub open spec fn with_modules(w: WorldV, ms: Seq<ModuleV>) -> WorldV {
    WorldV {
        scope: w.scope,
        head: w.head,
        msgs: w.msgs,
        mixins: w.mixins,
        contents: w.contents,
        files: w.files,
        fwd_vars: w.fwd_vars,
        fwd_mixins: w.fwd_mixins,
        functions: w.functions,
        limit: w.limit,
        modules: ms,
        rule: w.rule,
        buf: w.buf,
    }
}

pub open spec fn with_mixins(w: WorldV, ms: Seq<MixinV>) -> WorldV {
    WorldV {
        scope: w.scope,
        head: w.head,
        msgs: w.msgs,
        mixins: ms,
        contents: w.contents,
        files: w.files,
        fwd_vars: w.fwd_vars,
        fwd_mixins: w.fwd_mixins,
        functions: w.functions,
        limit: w.limit,
        modules: w.modules,
        rule: w.rule,
        buf: w.buf,
    }
}

/// The mixins declared before a block, once the block is left: those
/// that the block declared go with it.
pub open spec fn first_mixins(ms: Seq<MixinV>, n: nat) -> Seq<MixinV> {
    if n <= ms.len() {
        ms.take(n as int)
    } else {
        ms
    }
}

/// The mixin named `n` that was declared last.
pub open spec fn find_mixin(ms: Seq<MixinV>, n: Seq<u8>) -> Option<Rc<Callable>>
    decreases ms.len(),
{
    if ms.len() == 0 {
        None
    } else if ms.last().0 == n {
        Some(ms.last().1)
    } else {
        find_mixin(ms.drop_last(), n)
    }
}

/// What a mixin call does before the body of the mixin runs: the mixin
/// is looked up, the arguments are evaluated and bound in a frame over
/// the global one, and the call, with its content block and the caller's
/// frames above the global one, is pushed.
pub open spec fn spec_mixin_enter(
    name: Vec<u8>,
    args: Vec<CallArg>,
    content: Option<Rc<Callable>>,
    pos: SourcePos,
    w: WorldV,
) -> Result<(Rc<Callable>, WorldV), ErrorV> {
    match find_mixin(w.mixins, name@) {
        None => Err(ErrorV::BadCall(kw("Undefined mixin."), pos, None)),
        Some(m) => match spec_eval_args(args_view(args@), w.scope, w.functions, w.limit, args.len() as int) {
            Err(e) => Err(e),
            Ok(avs) => match spec_bind_callable(m.args@, avs, w.scope[0], pos, DeclV::File(m.decl), w.functions, w.limit) {
                Err(e) => Err(e),
                Ok(fr) => Ok(
                    (
                        m,
                        WorldV {
                            scope: seq![w.scope[0], fr],
                            head: w.head,
                            msgs: w.msgs,
                            mixins: w.mixins,
                            contents: w.contents.push((content, w.scope.drop_first())),
                            files: w.files,
                            fwd_vars: w.fwd_vars,
                            fwd_mixins: w.fwd_mixins,
                            functions: w.functions,
                            limit: w.limit,
                            modules: w.modules,
                            rule: w.rule,
                            buf: w.buf,
                        },
                    ),
                ),
            },
        },
    }
}

/// What a mixin call does after the body: the global frame stays as the
/// body left it, and the caller's frames, as any content block left
/// them, come back over it.
pub open spec fn mixin_leave(w2: WorldV) -> WorldV {
    WorldV {
        scope: seq![w2.scope[0]] + w2.contents.last().1,
        head: w2.head,
        msgs: w2.msgs,
        mixins: w2.mixins,
        contents: w2.contents.drop_last(),
        files: w2.files,
        fwd_vars: w2.fwd_vars,
        fwd_mixins: w2.fwd_mixins,
        functions: w2.functions,
        limit: w2.limit,
        modules: w2.modules,
        rule: w2.rule,
        buf: w2.buf,
    }
}

/// What `@content` does before its block runs: nothing, when no mixin
/// call with a content block is being handled; else the arguments are
/// bound in a frame of their own over the caller's frames, and the call
/// is taken off while the block runs.
pub open spec fn spec_content_enter(args: Vec<CallArg>, pos: SourcePos, w: WorldV) -> Result<
    Option<(Rc<Callable>, WorldV)>,
    ErrorV,
> {
    if w.contents.len() == 0 {
        Ok(None)
    } else {
        match w.contents.last().0 {
            None => Ok(None),
            Some(b) => match spec_eval_args(args_view(args@), w.scope, w.functions, w.limit, args.len() as int) {
                Err(e) => Err(e),
                Ok(avs) => match spec_bind_callable(
                    b.args@,
                    avs,
                    w.scope[0],
                    pos,
                    DeclV::File(b.decl),
                    w.functions,
                    w.limit,
                ) {
                    Err(e) => Err(e),
                    Ok(fr) => Ok(
                        Some(
                            (
                                b,
                                WorldV {
                                    scope: seq![w.scope[0]] + w.contents.last().1 + seq![fr],
                                    head: w.head,
                                    msgs: w.msgs,
                                    mixins: w.mixins,
                                    contents: w.contents.drop_last(),
                                    files: w.files,
                                    fwd_vars: w.fwd_vars,
                                    fwd_mixins: w.fwd_mixins,
                                    functions: w.functions,
                                    limit: w.limit,
                                    modules: w.modules,
                                    rule: w.rule,
                                    buf: w.buf,
                                },
                            ),
                        ),
                    ),
                },
            },
        }
    }
}

/// What `@content` does after its block: the global frame stays as the
/// block left it, the mixin's frames come back over it, and the call is
/// pushed again with the caller's frames as the block left them.
pub open spec fn content_leave(mf: Seq<FrameV>, b: Rc<Callable>, w2: WorldV) -> WorldV {
    WorldV {
        scope: seq![w2.scope[0]] + mf,
        head: w2.head,
        msgs: w2.msgs,
        mixins: w2.mixins,
        contents: w2.contents.push((Some(b), w2.scope.drop_last().drop_first())),
        files: w2.files,
        fwd_vars: w2.fwd_vars,
        fwd_mixins: w2.fwd_mixins,
        functions: w2.functions,
        limit: w2.limit,
        modules: w2.modules,
        rule: w2.rule,
        buf: w2.buf,
    }
}

/// An error of the body of a mixin as its call gives it: one that says
/// what may not stand somewhere is placed at the call; any other becomes
/// a failed call at the call, with the error's message.
pub open spec fn at_call(e: ErrorV, pos: SourcePos) -> ErrorV {
    match e {
        ErrorV::Invalid(k, _) => ErrorV::Invalid(k, pos),
        ErrorV::BadCall(m, _, _) => ErrorV::BadCall(m, pos, None),
        ErrorV::At(m, _) => ErrorV::BadCall(m, pos, None),
        ErrorV::S(m) => ErrorV::BadCall(m, pos, None),
    }
}

pub open spec fn push_body(r: RuleV, it: BodyItemV) -> RuleV {
    RuleV { selectors: r.selectors, body: r.body.push(it) }
}

/// The text of a rule that may be missing.
pub open spec fn opt_rule_text(r: Option<RuleV>, n: nat) -> Seq<u8> {
    match r {
        Some(x) => rule_text(x, n),
        None => seq![],
    }
}

// ---------------------------------------------------------------------
// What handling an item does
// ---------------------------------------------------------------------

/// The text of a string, evaluated.
pub open spec fn text_of(ss: SassString, sc: ScopeV, fns: Seq<MixinV>, fuel: nat) -> Result<Seq<u8>, ErrorV> {
    spec_eval_parts(parts_view(ss.parts@), sc, fns, fuel, ss.parts.len() as int)
}

/// Whether a value writes nothing: null or an empty unquoted string.
pub open spec fn is_null(v: CssValueV) -> bool {
    v is Null || v == CssValueV::Str(seq![], Quotes::NoQuotes)
}

/// The selectors that a text is, when all of it parses as selectors.
pub open spec fn parse_selectors_all(t: Seq<u8>) -> Option<Seq<Seq<PartV>>> {
    match spec_selectors(t, 0usize, 0) {
        Some((k, cs)) => if k == t.len() {
            Some(cs)
        } else {
            None
        },
        None => None,
    }
}

/// A css string as written in an import: the text in its quotes.
pub open spec fn quoted(t: Seq<u8>, q: Quotes) -> Seq<u8> {
    crate::css::fmt_css_string(t, q)
}

pub open spec fn has_prefix(t: Seq<u8>, p: Seq<u8>) -> bool {
    has_tag(t, 0, p)
}

pub open spec fn has_suffix(t: Seq<u8>, p: Seq<u8>) -> bool {
    p.len() <= t.len() && has_tag(t, t.len() - p.len(), p)
}

/// An import that stays in the css: an url, or a css file.
pub open spec fn is_css_import(t: Seq<u8>) -> bool {
    has_prefix(t, kw("http://")) || has_prefix(t, kw("https://")) || has_prefix(t, kw("//"))
        || has_suffix(t, kw(".css")) || has_prefix(t, kw("url("))
}

/// The modules that are built in.
pub open spec fn is_builtin_module(t: Seq<u8>) -> bool {
    t == kw("sass:math") || t == kw("sass:color") || t == kw("sass:string") || t == kw("sass:list")
        || t == kw("sass:map") || t == kw("sass:selector") || t == kw("sass:meta")
}

/// Names that a function may not have.
pub open spec fn is_reserved_function(n: Seq<u8>) -> bool {
    n == kw("calc") || n == kw("element") || n == kw("expression") || n == kw("url")
}

/// The items that `@each` goes through: those of a list, none for null,
/// else the value itself.
pub open spec fn each_items(v: CssValueV) -> Seq<CssValueV> {
    match v {
        CssValueV::List(xs, _) => xs,
        CssValueV::Null => seq![],
        _ => seq![v],
    }
}

/// The first `k` names defined to the values at the same place, or null.
pub open spec fn define_all(sc: ScopeV, ns: Seq<Seq<u8>>, vals: Seq<CssValueV>, k: int) -> ScopeV
    decreases k,
{
    if k <= 0 || k > ns.len() {
        sc
    } else {
        scope_define(
            define_all(sc, ns, vals, k - 1),
            ns[k - 1],
            if k - 1 < vals.len() {
                vals[k - 1]
            } else {
                CssValueV::Null
            },
        )
    }
}

/// The loop variables of `@each` defined to one item: one name gets the
/// item, more names get the item's own items in order.
pub open spec fn define_multi(sc: ScopeV, ns: Seq<Seq<u8>>, v: CssValueV) -> ScopeV {
    if ns.len() == 1 {
        scope_define(sc, ns[0], v)
    } else {
        define_all(sc, ns, each_items(v), ns.len() as int)
    }
}

/// The first `k` names given back the values they had.
pub open spec fn restore_all(
    sc: ScopeV,
    ns: Seq<Seq<u8>>,
    saved: Seq<Option<CssValueV>>,
    k: int,
) -> ScopeV
    decreases k,
{
    if k <= 0 || k > ns.len() || k > saved.len() {
        sc
    } else {
        scope_restore(restore_all(sc, ns, saved, k - 1), ns[k - 1], saved[k - 1])
    }
}

/// Properties of a namespace rule get the namespace and `-` before
/// their names.
pub open spec fn prefixed(items: Seq<BodyItemV>, n: Seq<u8>) -> Seq<BodyItemV> {
    Seq::new(
        items.len(),
        |i: int|
            match items[i] {
                BodyItemV::Property(p, v) => BodyItemV::Property(n + seq![45u8] + p, v),
                x => x,
            },
    )
}

/// The bounds of `@for`: the first value, the step (1 or -1), the
/// number of values, and their unit. Both bounds must be whole numbers
/// with compatible units.
#[verifier::opaque]
pub open spec fn spec_range(f: CssValueV, t: CssValueV, inclusive: bool) -> Result<
    (int, int, int, Seq<u8>),
    ErrorV,
> {
    if !(f is Numeric) {
        Err(ErrorV::S(format_value(f) + kw(" is not a number.")))
    } else if !(t is Numeric) {
        Err(ErrorV::S(format_value(t) + kw(" is not a number.")))
    } else {
        let x = f->Numeric_0;
        let y = t->Numeric_0;
        if (x.value as int) % crate::value::one() != 0 {
            Err(ErrorV::S(format_value(f) + kw(" is not an int.")))
        } else if (y.value as int) % crate::value::one() != 0 {
            Err(ErrorV::S(format_value(t) + kw(" is not an int.")))
        } else if x.unit.len() > 0 && y.unit.len() > 0 && x.unit != y.unit {
            Err(ErrorV::S(kw("Incompatible units.")))
        } else {
            let a = (x.value as int) / crate::value::one();
            let b = (y.value as int) / crate::value::one();
            let step = if a <= b {
                1int
            } else {
                -1int
            };
            let dist = if a <= b {
                b - a
            } else {
                a - b
            };
            let count = if inclusive {
                dist + 1
            } else {
                dist
            };
            Ok((a, step, count, if x.unit.len() > 0 {
                x.unit
            } else {
                y.unit
            }))
        }
    }
}


/// `@debug` and `@warn`: the value, written after the prefix, is added
/// to the messages.
#[verifier::opaque]
pub open spec fn spec_message(v: Value, prefix: Seq<u8>, w: WorldV) -> Result<WorldV, ErrorV> {
    match spec_eval(v.view(), w.scope, w.functions, w.limit) {
        Ok(x) => Ok(with_msg(w, prefix + format_value(x))),
        Err(e) => Err(e),
    }
}

/// A comment goes to the rule being built, or else to the css text.
#[verifier::opaque]
pub open spec fn spec_comment(c: SassString, w: WorldV) -> Result<WorldV, ErrorV> {
    match text_of(c, w.scope, w.functions, w.limit) {
        Ok(t) => match w.rule {
            Some(r) => Ok(with_rule(w, Some(push_body(r, BodyItemV::Comment(t))))),
            None => Ok(
                with_buf(w, buf_add(w.buf, spaces(w.buf.indent as nat) + kw("/*") + t + kw("*/\n"))),
            ),
        },
        Err(e) => Err(e),
    }
}

/// A property goes to the rule being built, unless its value is null;
/// outside of a rule it is an error.
#[verifier::opaque]
pub open spec fn spec_property(name: SassString, value: Value, custom: bool, w: WorldV) -> Result<
    WorldV,
    ErrorV,
> {
    match w.rule {
        None => Err(
            ErrorV::S(
                if custom {
                    kw("Global custom property not allowed")
                } else {
                    kw("Global property not allowed")
                },
            ),
        ),
        Some(r) => match spec_eval(value.view(), w.scope, w.functions, w.limit) {
            Err(e) => Err(e),
            Ok(v) => if is_null(v) {
                Ok(w)
            } else {
                match text_of(name, w.scope, w.functions, w.limit) {
                    Err(e) => Err(e),
                    Ok(n) => Ok(
                        with_rule(
                            w,
                            Some(
                                push_body(
                                    r,
                                    if custom {
                                        BodyItemV::CustomProperty(n, v)
                                    } else {
                                        BodyItemV::Property(n, v)
                                    },
                                ),
                            ),
                        ),
                    ),
                }
            },
        },
    }
}

/// Handles an item: what it adds to the css and the rule, what it
/// changes in the scope, or the error it gives.
pub open spec fn spec_handle_item(item: Item, w: WorldV, sels: Seq<Seq<u8>>, fuel: nat) -> Result<
    WorldV,
    ErrorV,
>
    decreases fuel, item, 1nat, 0nat,
{
    match item {
        Item::Empty => Ok(w),
        Item::Content(_, _) => spec_content_item(item, w, sels, fuel),
        Item::Debug(v) => spec_message(v, kw("DEBUG: "), w),
        Item::Warn(v) => spec_message(v, kw("WARNING: "), w),
        Item::Error(v, pos) => match spec_eval(v.view(), w.scope, w.functions, w.limit) {
            Ok(x) => Err(ErrorV::Invalid(InvalidV::AtError(format_value(x)), pos)),
            Err(e) => Err(e),
        },
        Item::Return(_, pos) => Err(ErrorV::Invalid(InvalidV::AtRule, pos)),
        Item::VariableDeclaration { name, val, default, global, pos } => match spec_eval(
            val.view(),
            w.scope,
            w.functions,
            w.limit,
        ) {
            Ok(x) => Ok(with_scope(w, spec_set_variable(w.scope, name@, x, default, global))),
            Err(e) => Err(e),
        },
        Item::Comment(c) => spec_comment(c, w),
        Item::Property(name, value) => spec_property(name, value, false, w),
        Item::CustomProperty(name, value) => spec_property(name, value, true, w),
        Item::IfStatement(cond, do_if, do_else) => match spec_eval(cond.view(), w.scope, w.functions, w.limit) {
            Err(e) => Err(e),
            Ok(c) => if is_true(c) {
                spec_control_body(do_if, w, sels, fuel)
            } else {
                spec_control_body(do_else, w, sels, fuel)
            },
        },
        Item::Rule(sel, body) => spec_rule(sel, body, w, sels, fuel),
        Item::AtRoot(sel, body) => spec_at_root(sel, body, w, sels, fuel),
        Item::AtRule { name, args, body, pos } => spec_at_rule(name, args, body, w, sels, fuel),
        Item::NamespaceRule(name, value, body) => spec_ns_rule(name, value, body, w, sels, fuel),
        Item::Each(names, values, body) => spec_each(names, values, body, w, sels, fuel),
        Item::For { name, from, to, inclusive, body } => spec_for(
            name,
            from,
            to,
            inclusive,
            body,
            w,
            sels,
            fuel,
        ),
        Item::While(cond, body) => spec_while(cond, body, w, sels, fuel),
        Item::Import(names, _, _) => spec_import_item(item, w, sels, fuel, names.len() as int),
        Item::Use(_, _, _, _) => spec_module_item(item, w, sels, fuel),
        Item::Forward(_, _, _, _, _) => spec_module_item(item, w, sels, fuel),
        Item::FunctionDeclaration(name, body) => if is_reserved_function(name@) {
            Err(ErrorV::Invalid(InvalidV::FunctionName, body.decl.back_to(body.decl_at)))
        } else {
            match spec_check_body(body.body@, BodyContext::Function) {
                Err(e) => Err(e.view()),
                Ok(_) => Ok(with_function(w, name@, body)),
            }
        },
        Item::MixinDeclaration(name, body) => match spec_check_body(
            body.body@,
            BodyContext::Mixin,
        ) {
            Err(e) => Err(e.view()),
            Ok(_) => Ok(with_mixin(w, name@, body)),
        },
        Item::MixinCall(_, _, _, _) => spec_mixin_call_item(item, w, sels, fuel),
    }
}

/// `@content`: see `spec_content_enter` and `content_leave`; the block
/// runs with one unit of fuel less.
pub open spec fn spec_content_item(item: Item, w: WorldV, sels: Seq<Seq<u8>>, fuel: nat) -> Result<
    WorldV,
    ErrorV,
>
    decreases fuel, item, 0nat, 0nat,
{
    match item {
        Item::Content(args, pos) => match spec_content_enter(args, pos, w) {
            Err(e) => Err(e),
            Ok(None) => Ok(w),
            Ok(Some((b, inner))) => if fuel == 0 {
                Err(ErrorV::S(kw("Too deeply nested mixin calls.")))
            } else {
                match spec_handle_body(b.body@, inner, sels, (fuel - 1) as nat, b.body.len() as int) {
                    Err(e) => Err(e),
                    Ok(w2) => Ok(content_leave(w.scope.drop_first(), b, w2)),
                }
            },
        },
        _ => Ok(w),
    }
}

/// `@include`: see `spec_mixin_enter` and `mixin_leave`; the body runs
/// with one unit of fuel less.
pub open spec fn spec_mixin_call_item(item: Item, w: WorldV, sels: Seq<Seq<u8>>, fuel: nat) -> Result<
    WorldV,
    ErrorV,
>
    decreases fuel, item, 0nat, 0nat,
{
    match item {
        Item::MixinCall(name, args, content, pos) => match spec_mixin_enter(
            name,
            args,
            content,
            pos,
            w,
        ) {
            Err(e) => Err(e),
            Ok((m, inner)) => if fuel == 0 {
                Err(ErrorV::S(kw("Too deeply nested mixin calls.")))
            } else {
                match spec_handle_body(m.body@, inner, sels, (fuel - 1) as nat, m.body.len() as int) {
                    Err(e) => Err(at_call(e, pos)),
                    Ok(w2) => Ok(mixin_leave(w2)),
                }
            },
        },
        _ => Ok(w),
    }
}

/// `@use` and `@forward` of a stylesheet that has not been loaded yet,
/// up to the end of the module: `None` for a built-in module, else the
/// url and the world in which the module's items were handled, with one
/// unit of fuel less, from the world that `spec_module_enter` gives.
pub open spec fn spec_module_fresh(item: Item, w: WorldV, fuel: nat) -> Result<
    Option<(Seq<u8>, WorldV)>,
    ErrorV,
>
    decreases fuel, item, 0nat, 0nat,
{
    let enter = match item {
        Item::Use(name, _, with, pos) => spec_module_enter(name, with, pos, w, false),
        Item::Forward(name, _, _, with, pos) => spec_module_enter(name, with, pos, w, true),
        _ => Ok(None),
    };
    match enter {
        Err(e) => Err(e),
        Ok(None) => Ok(None),
        Ok(Some((t, items, inner))) => if fuel == 0 {
            Err(ErrorV::S(kw("Too deeply nested imports.")))
        } else {
            match spec_handle_body(items@, inner, seq![], (fuel - 1) as nat, items.len() as int) {
                Err(e) => Err(e),
                Ok(w2) => Ok(Some((t, w2))),
            }
        },
    }
}

/// The loaded module that is last in `ms` with the url `t`.
pub open spec fn find_module(ms: Seq<ModuleV>, t: Seq<u8>) -> Option<ModuleV>
    decreases ms.len(),
{
    if ms.len() == 0 {
        None
    } else if ms.last().0 == t {
        Some(ms.last())
    } else {
        find_module(ms.drop_last(), t)
    }
}

/// The module that a `@use` or `@forward` finds already loaded, if any:
/// one with the url that its name evaluates to, other than a built-in
/// module.
pub open spec fn cached_module(item: Item, w: WorldV) -> Option<ModuleV> {
    match item {
        Item::Use(name, _, _, _) => cached_at(name, w),
        Item::Forward(name, _, _, _, _) => cached_at(name, w),
        _ => None,
    }
}

/// The module loaded before from the url that `name` evaluates to, other
/// than a built-in module.
pub open spec fn cached_at(name: SassString, w: WorldV) -> Option<ModuleV> {
    match text_of(name, w.scope, w.functions, w.limit) {
        Ok(t) => if is_builtin_module(t) {
            None
        } else {
            find_module(w.modules, t)
        },
        Err(_) => None,
    }
}

/// The members of a module once it has run in `w2`.
pub open spec fn module_of(t: Seq<u8>, w2: WorldV) -> ModuleV {
    (t, module_vars(w2), module_mixins(w2), w2.functions)
}

/// `@use` and `@forward` of a stylesheet up to the end of the module:
/// `None` for a built-in module; else the url, the module, and the world
/// after it. A module that was loaded before is not loaded again; else
/// it runs (see `spec_module_fresh`) and is kept as loaded.
pub open spec fn spec_module_run(item: Item, w: WorldV, fuel: nat) -> Result<
    Option<(Seq<u8>, ModuleV, WorldV)>,
    ErrorV,
>
    decreases fuel, item, 0nat, 1nat,
{
    match cached_module(item, w) {
        Some(m) => Ok(Some((m.0, m, w))),
        None => match spec_module_fresh(item, w, fuel) {
            Err(e) => Err(e),
            Ok(None) => Ok(None),
            Ok(Some((t, w2))) => Ok(
                Some((t, module_of(t, w2), with_modules(w2, w2.modules.push(module_of(t, w2))))),
            ),
        },
    }
}

/// `@use` and `@forward` of a stylesheet: see `spec_module_run`,
/// `use_leave` and `forward_leave`. A built-in module is left as it is.
pub open spec fn spec_module_item(item: Item, w: WorldV, sels: Seq<Seq<u8>>, fuel: nat) -> Result<
    WorldV,
    ErrorV,
>
    decreases fuel, item, 0nat, 2nat,
{
    match spec_module_run(item, w, fuel) {
        Err(e) => Err(e),
        Ok(None) => Ok(w),
        Ok(Some((t, m, w2))) => match item {
            Item::Use(_, as_n, _, _) => Ok(use_leave(w, use_prefix(t, as_n), m, w2)),
            Item::Forward(_, as_n, expose, _, _) => Ok(
                forward_leave(w, forward_prefix(as_n), expose.view(), m, w2),
            ),
            _ => Ok(w),
        },
    }
}

/// A rule: its body is checked, its selectors are evaluated, parsed
/// and put inside the enclosing ones, and it is handled as a nested rule;
/// at the top level an empty line is due before it.
pub open spec fn spec_rule(sel: SassString, body: Vec<Item>, w: WorldV, sels: Seq<Seq<u8>>, fuel: nat) -> Result<WorldV, ErrorV>
    decreases fuel, body, 1nat, 0nat,
{
    match spec_check_body(body@, BodyContext::Rule) {
        Err(e) => Err(e.view()),
        Ok(_) => match text_of(sel, w.scope, w.functions, w.limit) {
            Err(e) => Err(e),
            Ok(t) => match parse_selectors_all(t) {
                None => Err(ErrorV::S(kw("Invalid css selector."))),
                Some(cs) => {
                    let w1 = if w.rule is None {
                        with_buf(w, buf_separate(w.buf))
                    } else {
                        w
                    };
                    spec_nested(inside(sels, cs), body, w1, fuel)
                },
            },
        },
    }
}

/// `@at-root`: a nested rule whose selectors are not put inside the
/// enclosing ones; `&` in them stands for the enclosing selectors.
pub open spec fn spec_at_root(sel: SassString, body: Vec<Item>, w: WorldV, sels: Seq<Seq<u8>>, fuel: nat) -> Result<WorldV, ErrorV>
    decreases fuel, body, 1nat, 0nat,
{
     match text_of(sel, w.scope, w.functions, w.limit) {
        Err(e) => Err(e),
        Ok(t) => {
            let cs = if t.len() == 0 {
                Some(seq![])
            } else {
                parse_selectors_all(t)
            };
            match cs {
                None => Err(ErrorV::S(kw("Invalid css selector."))),
                Some(cs) => spec_nested(
                    with_backref(cs, join_texts(sels, sels.len() as int)),
                    body,
                    w,
                    fuel,
                ),
            }
        },
    }
}

/// An at-rule: its name and arguments are written, then `;` or its
/// block.
pub open spec fn spec_at_rule(name: SassString, args: Value, body: Option<Vec<Item>>, w: WorldV, sels: Seq<Seq<u8>>, fuel: nat) -> Result<WorldV, ErrorV>
    decreases fuel, body, 1nat, 0nat,
{
     match text_of(name, w.scope, w.functions, w.limit) {
        Err(e) => Err(e),
        Ok(n) => match spec_eval(args.view(), w.scope, w.functions, w.limit) {
            Err(e) => Err(e),
            Ok(a) => {
                let b0 = buf_separate(w.buf);
                let head_text = spaces(b0.indent as nat) + kw("@") + n + if is_null(a) {
                    seq![]
                } else {
                    seq![32u8] + format_value(a)
                };
                match body {
                    None => Ok(with_buf(w, buf_add(b0, head_text + kw(";\n")))),
                    Some(items) => spec_at_rule_body(
                        head_text,
                        items,
                        with_buf(w, b0),
                        sels,
                        fuel,
                    ),
                }
            },
        },
    }
}

/// A namespace rule (`font: { family: x }`): its own value, if any, and
/// the properties of its body go to the enclosing rule.
pub open spec fn spec_ns_rule(name: SassString, value: Value, body: Vec<Item>, w: WorldV, sels: Seq<Seq<u8>>, fuel: nat) -> Result<WorldV, ErrorV>
    decreases fuel, body, 1nat, 0nat,
{
     match w.rule {
        None => Err(ErrorV::S(kw("Global namespaced property not allowed"))),
        Some(r) => match spec_check_body(body@, BodyContext::NsRule) {
            Err(e) => Err(e.view()),
            Ok(_) => match spec_eval(value.view(), w.scope, w.functions, w.limit) {
                Err(e) => Err(e),
                Ok(v) => match text_of(name, w.scope, w.functions, w.limit) {
                    Err(e) => Err(e),
                    Ok(n) => {
                        let r1 = if is_null(v) {
                            r
                        } else {
                            push_body(r, BodyItemV::Property(n, v))
                        };
                        spec_ns_body(n, r1, body, w, sels, fuel)
                    },
                },
            },
        },
    }
}

/// `@each`: the body is handled once per item, with the loop variables
/// defined in the innermost frame; afterwards they get back what they
/// had there.
pub open spec fn spec_each(names: Vec<Vec<u8>>, values: Value, body: Vec<Item>, w: WorldV, sels: Seq<Seq<u8>>, fuel: nat) -> Result<WorldV, ErrorV>
    decreases fuel, body, 1nat, 0nat,
{
     match spec_check_body(body@, BodyContext::Control) {
        Err(e) => Err(e.view()),
        Ok(_) => match spec_eval(values.view(), w.scope, w.functions, w.limit) {
            Err(e) => Err(e),
            Ok(v) => {
                let ns = texts_view(names@);
                let saved = Seq::new(ns.len(), |i: int| local_get(w.scope, ns[i]));
                match spec_each_loop(ns, each_items(v), body, w, sels, fuel, 0) {
                    Err(e) => Err(e),
                    Ok(w2) => Ok(
                        with_scope(w2, restore_all(w2.scope, ns, saved, ns.len() as int)),
                    ),
                }
            },
        },
    }
}

/// `@for`: the body is handled once per whole number from `from` to
/// `to`.
pub open spec fn spec_for(name: Vec<u8>, from: Value, to: Value, inclusive: bool, body: Vec<Item>, w: WorldV, sels: Seq<Seq<u8>>, fuel: nat) -> Result<WorldV, ErrorV>
    decreases fuel, body, 1nat, 0nat,
{
     match spec_eval(from.view(), w.scope, w.functions, w.limit) {
        Err(e) => Err(e),
        Ok(f) => match spec_eval(to.view(), w.scope, w.functions, w.limit) {
            Err(e) => Err(e),
            Ok(t) => match spec_range(f, t, inclusive) {
                Err(e) => Err(e),
                Ok((a, step, count, unit)) => match spec_check_body(
                    body@,
                    BodyContext::Control,
                ) {
                    Err(e) => Err(e.view()),
                    Ok(_) => spec_for_loop(name@, a, step, count, unit, body, w, sels, fuel, 0),
                },
            },
        },
    }
}

/// `@while`: in an inner scope, the body is handled as long as the
/// condition holds.
pub open spec fn spec_while(cond: Value, body: Vec<Item>, w: WorldV, sels: Seq<Seq<u8>>, fuel: nat) -> Result<WorldV, ErrorV>
    decreases fuel, body, 1nat, 0nat,
{
     match spec_check_body(body@, BodyContext::Control) {
        Err(e) => Err(e.view()),
        Ok(_) => match spec_while_loop(
            cond,
            body,
            with_scope(w, w.scope.push(seq![])),
            sels,
            fuel,
        ) {
            Err(e) => Err(e),
            Ok(w2) => Ok(with_scope(w2, w2.scope.drop_last())),
        },
    }
}

/// Handles the first `n` items of a body in order; the first error ends it.
pub open spec fn spec_handle_body(
    items: Seq<Item>,
    w: WorldV,
    sels: Seq<Seq<u8>>,
    fuel: nat,
    n: int,
) -> Result<WorldV, ErrorV>
    decreases fuel, items, 0nat, n,
{
    if n <= 0 || n > items.len() {
        Ok(w)
    } else {
        match spec_handle_body(items, w, sels, fuel, n - 1) {
            Err(e) => Err(e),
            Ok(w1) => spec_handle_item(items[n - 1], w1, sels, fuel),
        }
    }
}

/// The body of an `@if` or `@else`, checked, then handled in the same
/// scope.
pub open spec fn spec_control_body(
    items: Vec<Item>,
    w: WorldV,
    sels: Seq<Seq<u8>>,
    fuel: nat,
) -> Result<WorldV, ErrorV>
    decreases fuel, items, 0nat, 0nat,
{
    match spec_check_body(items@, BodyContext::Control) {
        Err(e) => Err(e.view()),
        Ok(_) => spec_handle_body(items@, w, sels, fuel, items.len() as int),
    }
}

/// A rule with selectors `ns` and body `body`: the body is handled in an
/// inner scope with a new rule; then the rule is written, and after it
/// what the body wrote.
pub open spec fn spec_nested(ns: Seq<Seq<u8>>, body: Vec<Item>, w: WorldV, fuel: nat) -> Result<
    WorldV,
    ErrorV,
>
    decreases fuel, body, 0nat, 0nat,
{
    let inner = WorldV {
        scope: w.scope.push(seq![]),
        head: w.head,
        msgs: w.msgs,
        mixins: w.mixins,
        contents: w.contents,
        files: w.files,
        fwd_vars: w.fwd_vars,
        fwd_mixins: w.fwd_mixins,
        functions: w.functions,
        limit: w.limit,
        modules: w.modules,
        rule: Some(RuleV { selectors: ns, body: seq![] }),
        buf: buf_sub(w.buf),
    };
    match spec_handle_body(body@, inner, ns, fuel, body.len() as int) {
        Err(e) => Err(e),
        Ok(w2) => Ok(
            WorldV {
                scope: w2.scope.drop_last(),
                head: w2.head,
                msgs: w2.msgs,
                mixins: first_mixins(w2.mixins, w.mixins.len()),
                contents: w2.contents,
                files: w2.files,
                fwd_vars: w2.fwd_vars,
                fwd_mixins: w2.fwd_mixins,
                functions: w2.functions,
                limit: w2.limit,
                modules: w2.modules,
                rule: w.rule,
                buf: buf_add(
                    buf_add(w.buf, opt_rule_text(w2.rule, w.buf.indent as nat)),
                    w2.buf.bytes,
                ),
            },
        ),
    }
}

/// The block of an at-rule: its items are handled one level deeper, in
/// an inner scope, with a rule of the enclosing selectors.
pub open spec fn spec_at_rule_body(
    head_text: Seq<u8>,
    items: Vec<Item>,
    w: WorldV,
    sels: Seq<Seq<u8>>,
    fuel: nat,
) -> Result<WorldV, ErrorV>
    decreases fuel, items, 0nat, 0nat,
{
    {
        let inner = WorldV {
            scope: w.scope.push(seq![]),
            head: w.head,
            msgs: w.msgs,
            mixins: w.mixins,
            contents: w.contents,
            files: w.files,
            fwd_vars: w.fwd_vars,
            fwd_mixins: w.fwd_mixins,
            functions: w.functions,
            limit: w.limit,
            modules: w.modules,
            rule: Some(RuleV { selectors: sels, body: seq![] }),
            buf: BufV { bytes: seq![], indent: deeper(w.buf.indent), pending: false },
        };
        match spec_handle_body(items@, inner, sels, fuel, items.len() as int) {
            Err(e) => Err(e),
            Ok(w2) => Ok(
                WorldV {
                    scope: w2.scope.drop_last(),
                    head: w2.head,
                    msgs: w2.msgs,
                    mixins: first_mixins(w2.mixins, w.mixins.len()),
                    contents: w2.contents,
                    files: w2.files,
                    fwd_vars: w2.fwd_vars,
                    fwd_mixins: w2.fwd_mixins,
                    functions: w2.functions,
                    limit: w2.limit,
                    modules: w2.modules,
                    rule: w.rule,
                    buf: buf_add(
                        w.buf,
                        head_text + kw(" {\n") + opt_rule_text(w2.rule, deeper(w.buf.indent) as nat)
                            + w2.buf.bytes + spaces(w.buf.indent as nat) + kw("}\n"),
                    ),
                },
            ),
        }
    }
}

/// The body of a namespace rule: its properties go to the enclosing
/// rule `r1`, with the namespace before their names; it may write
/// nothing else.
pub open spec fn spec_ns_body(
    n: Seq<u8>,
    r1: RuleV,
    body: Vec<Item>,
    w: WorldV,
    sels: Seq<Seq<u8>>,
    fuel: nat,
) -> Result<WorldV, ErrorV>
    decreases fuel, body, 0nat, 0nat,
{
    let inner = WorldV {
        scope: w.scope,
        head: w.head,
        msgs: w.msgs,
        mixins: w.mixins,
        contents: w.contents,
        files: w.files,
        fwd_vars: w.fwd_vars,
        fwd_mixins: w.fwd_mixins,
        functions: w.functions,
        limit: w.limit,
        modules: w.modules,
        rule: Some(RuleV { selectors: seq![], body: seq![] }),
        buf: BufV { bytes: seq![], indent: 0, pending: false },
    };
    match spec_handle_body(body@, inner, sels, fuel, body.len() as int) {
        Err(e) => Err(e),
        Ok(w2) => if w2.buf.bytes.len() > 0 {
            Err(ErrorV::S(kw("Unexpected content in namespace rule")))
        } else {
            let items = match w2.rule {
                Some(t) => t.body,
                None => seq![],
            };
            Ok(
                WorldV {
                    scope: w2.scope,
                    head: w2.head,
                    msgs: w2.msgs,
                    mixins: w2.mixins,
                    contents: w2.contents,
                    files: w2.files,
                    fwd_vars: w2.fwd_vars,
                    fwd_mixins: w2.fwd_mixins,
                    functions: w2.functions,
                    limit: w2.limit,
                    modules: w2.modules,
                    rule: Some(RuleV { selectors: r1.selectors, body: r1.body + prefixed(items, n) }),
                    buf: w.buf,
                },
            )
        },
    }
}

/// The iterations of `@each` from the `k`th item on.
pub open spec fn spec_each_loop(
    ns: Seq<Seq<u8>>,
    items: Seq<CssValueV>,
    body: Vec<Item>,
    w: WorldV,
    sels: Seq<Seq<u8>>,
    fuel: nat,
    k: int,
) -> Result<WorldV, ErrorV>
    decreases fuel, body, 0nat, items.len() - k,
{
    if k < 0 || k >= items.len() {
        Ok(w)
    } else {
        let w1 = with_scope(w, define_multi(w.scope, ns, items[k]));
        match spec_handle_body(body@, w1, sels, fuel, body.len() as int) {
            Err(e) => Err(e),
            Ok(w2) => spec_each_loop(ns, items, body, w2, sels, fuel, k + 1),
        }
    }
}

/// The iterations of `@for` from the `k`th value on, each in an inner
/// scope where the variable has its value.
pub open spec fn spec_for_loop(
    name: Seq<u8>,
    a: int,
    step: int,
    count: int,
    unit: Seq<u8>,
    body: Vec<Item>,
    w: WorldV,
    sels: Seq<Seq<u8>>,
    fuel: nat,
    k: int,
) -> Result<WorldV, ErrorV>
    decreases fuel, body, 0nat, count - k,
{
    if k < 0 || k >= count {
        Ok(w)
    } else {
        let v = CssValueV::Numeric(
            NumberV { value: ((a + k * step) * crate::value::one()) as i128, unit },
        );
        let w1 = with_scope(w, scope_define(w.scope.push(seq![]), name, v));
        match spec_handle_body(body@, w1, sels, fuel, body.len() as int) {
            Err(e) => Err(e),
            Ok(w2) => spec_for_loop(
                name,
                a,
                step,
                count,
                unit,
                body,
                with_scope(w2, w2.scope.drop_last()),
                sels,
                fuel,
                k + 1,
            ),
        }
    }
}

/// The iterations of `@while`: as long as the condition is true, the
/// body is handled; each iteration takes one unit of `fuel`, and running
/// out of it is an error.
pub open spec fn spec_while_loop(
    cond: Value,
    body: Vec<Item>,
    w: WorldV,
    sels: Seq<Seq<u8>>,
    fuel: nat,
) -> Result<WorldV, ErrorV>
    decreases fuel, body, 0nat, 0nat,
{
    match spec_eval(cond.view(), w.scope, w.functions, w.limit) {
        Err(e) => Err(e),
        Ok(c) => if !is_true(c) {
            Ok(w)
        } else if fuel == 0 {
            Err(ErrorV::S(kw("Too many iterations.")))
        } else {
            match spec_handle_body(body@, w, sels, (fuel - 1) as nat, body.len() as int) {
                Err(e) => Err(e),
                Ok(w2) => spec_while_loop(cond, body, w2, sels, (fuel - 1) as nat),
            }
        },
    }
}

/// One name of an `@import`: a css import is kept, in the rule where
/// there is one with selectors, else at the top of the output when at
/// the top level, else where it stands; anything else is not found.
#[verifier::opaque]
pub open spec fn spec_import_one(name: SassString, args: Value, pos: SourcePos, w: WorldV) -> Result<
    WorldV,
    ErrorV,
> {
    match text_of(name, w.scope, w.functions, w.limit) {
        Err(e) => Err(e),
        Ok(t) => if args.view() is Null && !is_css_import(t) {
            Err(ErrorV::BadCall(kw("Can't find stylesheet to import."), pos, None))
        } else {
            match spec_eval(args.view(), w.scope, w.functions, w.limit) {
                Err(e) => Err(e),
                Ok(a) => {
                    let text = quoted(t, name.quotes) + if is_null(a) {
                        seq![]
                    } else {
                        seq![32u8] + format_value(a)
                    };
                    if w.rule matches Some(r) && r.selectors.len() > 0 {
                        Ok(with_rule(w, Some(push_body(w.rule.unwrap(), BodyItemV::Import(text)))))
                    } else if w.buf.indent == 0 {
                        Ok(with_import(w, text))
                    } else {
                        Ok(
                            with_buf(
                                w,
                                buf_add(
                                    w.buf,
                                    spaces(w.buf.indent as nat) + kw("@import ") + text + kw(
                                        ";\n",
                                    ),
                                ),
                            ),
                        )
                    }
                },
            }
        },
    }
}

/// Where the last segment of the path `t` starts, looking at its first
/// `k` bytes: after its last `/`, else at the start.
pub open spec fn last_segment(t: Seq<u8>, k: int) -> int
    decreases k,
{
    if k <= 0 || k > t.len() {
        0
    } else if t[k - 1] == 47u8 {
        k
    } else {
        last_segment(t, k - 1)
    }
}

/// The names under which `@import` looks for the stylesheet `t`, in
/// order: `t` itself, `t` with `.scss`, and the partial: `t` with `_`
/// before its last segment and `.scss` after it.
pub open spec fn import_candidates(t: Seq<u8>) -> Seq<Seq<u8>> {
    let k = last_segment(t, t.len() as int);
    seq![t, t + kw(".scss"), t.take(k) + seq![95u8] + t.skip(k) + kw(".scss")]
}

/// The first stylesheet named `n`.
pub open spec fn find_file(fs: Seq<FileV>, n: Seq<u8>) -> Option<Option<Rc<Vec<Item>>>>
    decreases fs.len(),
{
    if fs.len() == 0 {
        None
    } else if fs[0].0 == n {
        Some(fs[0].1)
    } else {
        find_file(fs.drop_first(), n)
    }
}

/// The stylesheet that `@import` of `t` loads: the first one named like
/// one of its candidate names, taken in order.
pub open spec fn resolve_import(fs: Seq<FileV>, t: Seq<u8>) -> Option<Option<Rc<Vec<Item>>>> {
    let c = import_candidates(t);
    match find_file(fs, c[0]) {
        Some(x) => Some(x),
        None => match find_file(fs, c[1]) {
            Some(x) => Some(x),
            None => find_file(fs, c[2]),
        },
    }
}

/// The frame of the first `n` variables that a module is configured
/// with: each takes the value of the variable of that name in scope, if
/// it is `!default` and there is one, else its value evaluated; a
/// variable configured twice is an error.
pub open spec fn config_frame(cs: Seq<Configure>, sc: ScopeV, fns: Seq<MixinV>, fuel: nat, n: int) -> Result<FrameV, ErrorV>
    decreases n,
{
    if n <= 0 || n > cs.len() {
        Ok(seq![])
    } else {
        match config_frame(cs, sc, fns, fuel, n - 1) {
            Err(e) => Err(e),
            Ok(fr) => {
                let c = cs[n - 1];
                let v = if c.default && scope_get(sc, c.name@) is Some {
                    Ok(scope_get(sc, c.name@).unwrap())
                } else {
                    spec_eval(c.value.view(), sc, fns, fuel)
                };
                match v {
                    Err(e) => Err(e),
                    Ok(x) => if frame_find(fr, c.name@, 0) is Some {
                        Err(ErrorV::S(kw("The same variable may only be configured once.")))
                    } else {
                        Ok(fr.push((c.name@, x)))
                    },
                }
            },
        }
    }
}

/// What `@use` (`forward` false) or `@forward` of the url `name` does
/// before the module runs: nothing for a built-in module, which may not
/// be configured; else the stylesheet is found as `@import` finds it,
/// and the module gets a global frame of the configured variables, no
/// mixins, no enclosing rule, and the css text as it stands.
pub open spec fn spec_module_enter(
    name: SassString,
    with: Vec<Configure>,
    pos: SourcePos,
    w: WorldV,
    forward: bool,
) -> Result<Option<(Seq<u8>, Rc<Vec<Item>>, WorldV)>, ErrorV> {
    match text_of(name, w.scope, w.functions, w.limit) {
        Err(e) => Err(e),
        Ok(t) => if is_builtin_module(t) {
            if with.len() > 0 {
                Err(ErrorV::BadCall(kw("Built-in modules can't be configured."), pos, None))
            } else {
                Ok(None)
            }
        } else {
            match resolve_import(w.files, t) {
                None => if forward {
                    Err(ErrorV::S(kw("Module ") + t + kw(" not found")))
                } else {
                    Err(ErrorV::BadCall(kw("Can't find stylesheet to import."), pos, None))
                },
                Some(None) => Err(ErrorV::S(kw("Parse error."))),
                Some(Some(items)) => match config_frame(with@, w.scope, w.functions, w.limit, with.len() as int) {
                    Err(e) => Err(e),
                    Ok(fr) => Ok(
                        Some(
                            (
                                t,
                                items,
                                WorldV {
                                    scope: seq![fr],
                                    head: w.head,
                                    msgs: w.msgs,
                                    mixins: seq![],
                                    contents: seq![],
                                    files: w.files,
                                    fwd_vars: seq![],
                                    fwd_mixins: seq![],
                                    functions: seq![],
                                    limit: w.limit,
                                    modules: w.modules,
                                    rule: None,
                                    buf: w.buf,
                                },
                            ),
                        ),
                    ),
                },
            }
        },
    }
}

/// The namespace of a module loaded from the url `t`: its last segment,
/// without a leading `_` and without `.scss`.
pub open spec fn namespace(t: Seq<u8>) -> Seq<u8> {
    let seg = t.skip(last_segment(t, t.len() as int));
    let a = if seg.len() > 0 && seg[0] == 95u8 {
        seg.drop_first()
    } else {
        seg
    };
    if a.len() >= 5 && a.skip(a.len() - 5) == kw(".scss") {
        a.take(a.len() - 5)
    } else {
        a
    }
}

/// What goes before the names of the members of a module that `@use`
/// makes available: nothing with `as *`, the prefix with `as p-*`, and
/// else the namespace and a dot.
pub open spec fn use_prefix(t: Seq<u8>, as_n: UseAs) -> Seq<u8> {
    match as_n {
        UseAs::Star => seq![],
        UseAs::Prefix(p) => p@,
        UseAs::Name(n) => n@ + kw("."),
        UseAs::KeepName => namespace(t) + kw("."),
    }
}

/// What goes before the names of the members that `@forward` passes on.
pub open spec fn forward_prefix(as_n: UseAs) -> Seq<u8> {
    match as_n {
        UseAs::Prefix(p) => p@,
        _ => seq![],
    }
}

/// The first `n` variables of `vs`, with `p` before their names.
pub open spec fn prefixed_vars(vs: FrameV, p: Seq<u8>) -> FrameV {
    Seq::new(vs.len(), |i: int| (p + vs[i].0, vs[i].1))
}

/// Mixins with `p` before their names.
pub open spec fn prefixed_mixins(ms: Seq<MixinV>, p: Seq<u8>) -> Seq<MixinV> {
    Seq::new(ms.len(), |i: int| (p + ms[i].0, ms[i].1))
}

/// The scope with the first `n` variables of `vs` defined in its
/// innermost frame, in order.
pub open spec fn define_vars(sc: ScopeV, vs: FrameV, n: int) -> ScopeV
    decreases n,
{
    if n <= 0 || n > vs.len() {
        sc
    } else {
        scope_define(define_vars(sc, vs, n - 1), vs[n - 1].0, vs[n - 1].1)
    }
}

/// Whether `show`/`hide` lets a member named `n` through: a variable
/// (`var`) by the second set, a mixin by the first.
pub open spec fn exposed(e: ExposeV, n: Seq<u8>, var: bool) -> bool {
    match e {
        ExposeV::All => true,
        ExposeV::Show(fs, vs) => if var {
            vs.contains(n)
        } else {
            fs.contains(n)
        },
        ExposeV::Hide(fs, vs) => if var {
            !vs.contains(n)
        } else {
            !fs.contains(n)
        },
    }
}

/// The variables that `show`/`hide` lets through, in order.
pub open spec fn exposed_vars(vs: FrameV, e: ExposeV) -> FrameV
    decreases vs.len(),
{
    if vs.len() == 0 {
        seq![]
    } else {
        exposed_vars(vs.drop_last(), e) + if exposed(e, vs.last().0, true) {
            seq![vs.last()]
        } else {
            seq![]
        }
    }
}

/// The mixins that `show`/`hide` lets through, in order.
pub open spec fn exposed_mixins(ms: Seq<MixinV>, e: ExposeV) -> Seq<MixinV>
    decreases ms.len(),
{
    if ms.len() == 0 {
        seq![]
    } else {
        exposed_mixins(ms.drop_last(), e) + if exposed(e, ms.last().0, false) {
            seq![ms.last()]
        } else {
            seq![]
        }
    }
}

/// The members of a module once it has run: its global variables and the
/// variables it forwards; its mixins and the mixins it forwards.
pub open spec fn module_vars(w2: WorldV) -> FrameV {
    w2.scope[0] + w2.fwd_vars
}

pub open spec fn module_mixins(w2: WorldV) -> Seq<MixinV> {
    w2.mixins + w2.fwd_mixins
}

/// What `@use` does with the module `m`, once the world is `w2`: its
/// members are defined under the prefix `p` in the scope, the mixins and
/// the functions of `w`; the css text, imports, messages and loaded
/// modules are those of `w2`.
pub open spec fn use_leave(w: WorldV, p: Seq<u8>, m: ModuleV, w2: WorldV) -> WorldV {
    let vs = prefixed_vars(m.1, p);
    WorldV {
        scope: define_vars(w.scope, vs, vs.len() as int),
        head: w2.head,
        msgs: w2.msgs,
        mixins: w.mixins + prefixed_mixins(m.2, p),
        contents: w.contents,
        files: w2.files,
        fwd_vars: w.fwd_vars,
        fwd_mixins: w.fwd_mixins,
        functions: w.functions + prefixed_mixins(m.3, p),
        limit: w.limit,
        modules: w2.modules,
        rule: w.rule,
        buf: w2.buf,
    }
}

/// What `@forward` does with the module `m`, once the world is `w2`: its
/// variables and mixins, under the prefix `p` and as `show`/`hide` lets
/// them through, are added to those that `w`'s module forwards.
pub open spec fn forward_leave(w: WorldV, p: Seq<u8>, e: ExposeV, m: ModuleV, w2: WorldV) -> WorldV {
    WorldV {
        scope: w.scope,
        head: w2.head,
        msgs: w2.msgs,
        mixins: w.mixins,
        contents: w.contents,
        files: w2.files,
        fwd_vars: w.fwd_vars + exposed_vars(prefixed_vars(m.1, p), e),
        fwd_mixins: w.fwd_mixins + exposed_mixins(prefixed_mixins(m.2, p), e),
        functions: w.functions,
        limit: w.limit,
        modules: w2.modules,
        rule: w.rule,
        buf: w2.buf,
    }
}

/// The stylesheet that one name of an `@import` without arguments loads,
/// if there is one; one whose text did not parse is an error.
pub open spec fn import_file(name: SassString, args: Value, w: WorldV) -> Result<
    Option<Rc<Vec<Item>>>,
    ErrorV,
> {
    if !(args.view() is Null) {
        Ok(None)
    } else {
        match text_of(name, w.scope, w.functions, w.limit) {
            Err(e) => Err(e),
            Ok(t) => match resolve_import(w.files, t) {
                None => Ok(None),
                Some(None) => Err(ErrorV::S(kw("Parse error."))),
                Some(Some(items)) => Ok(Some(items)),
            },
        }
    }
}

/// The first `n` names of an `@import`, in order: a stylesheet that one
/// of them loads has its items handled where the import stands, with one
/// unit of fuel less; any other name is a plain css import.
pub open spec fn spec_import_item(item: Item, w: WorldV, sels: Seq<Seq<u8>>, fuel: nat, n: int) -> Result<
    WorldV,
    ErrorV,
>
    decreases fuel, item, 0nat, n,
{
    match item {
        Item::Import(names, args, pos) => if n <= 0 || n > names.len() {
            Ok(w)
        } else {
            match spec_import_item(item, w, sels, fuel, n - 1) {
                Err(e) => Err(e),
                Ok(w1) => match import_file(names@[n - 1], args, w1) {
                    Err(e) => Err(e),
                    Ok(Some(items)) => if fuel == 0 {
                        Err(ErrorV::S(kw("Too deeply nested imports.")))
                    } else {
                        spec_handle_body(items@, w1, sels, (fuel - 1) as nat, items.len() as int)
                    },
                    Ok(None) => spec_import_one(names@[n - 1], args, pos, w1),
                },
            }
        },
        _ => Ok(w),
    }
}

// ---------------------------------------------------------------------
// Handling items
// ---------------------------------------------------------------------

/// The result of an exec handler agrees with what its spec gives.
pub open spec fn handled(r: Result<(), Error>, sp: Result<WorldV, ErrorV>, after: WorldV) -> bool {
    match r {
        Ok(()) => sp == Ok::<WorldV, ErrorV>(after),
        Err(e) => sp == Err::<WorldV, ErrorV>(e.view()),
    }
}

/// Whether an item fails, when it fails, before it changes anything: a
/// property, custom property or namespaced property outside any rule,
/// `@error`, `@return`, a function declaration, and `@use` or `@forward`
/// of a stylesheet that cannot be entered.
pub open spec fn fails_at_once(item: Item, w: WorldV) -> bool {
    match item {
        Item::Property(_, _) => w.rule is None,
        Item::CustomProperty(_, _) => w.rule is None,
        Item::NamespaceRule(_, _, _) => w.rule is None,
        Item::Error(_, _) => true,
        Item::Return(_, _) => true,
        Item::FunctionDeclaration(_, _) => true,
        Item::Use(name, _, with, pos) => cached_module(item, w) is None && spec_module_enter(
            name,
            with,
            pos,
            w,
            false,
        ) is Err,
        Item::Forward(name, _, _, with, pos) => cached_module(item, w) is None
            && spec_module_enter(name, with, pos, w, true) is Err,
        _ => false,
    }
}

/// The number of caller frames of each mixin call being handled.
pub open spec fn content_shape(cs: Seq<ContentCall>) -> Seq<nat> {
    Seq::new(cs.len(), |i: int| cs[i].frames.len() as nat)
}

/// Handling kept the number of scope frames, the indentation, the number
/// of mixin calls being handled and of their caller frames, and how
/// deeply function calls may nest.
pub open spec fn kept(cx0: Context, buf0: CssBuf, cx1: Context, buf1: CssBuf) -> bool {
    &&& cx1.scope.frames.len() == cx0.scope.frames.len()
    &&& buf1.indent == buf0.indent
    &&& content_shape(cx1.contents@) == content_shape(cx0.contents@)
    &&& cx1.limit == cx0.limit
}

fn text_of_exec(ss: &SassString, sc: &Scope, fns: &Vec<MixinDef>, fuel: usize) -> (r: Result<Vec<u8>, Error>)
    ensures
        match r {
            Ok(t) => text_of(*ss, sc.view(), mixins_view(fns@), fuel as nat) == Ok::<Seq<u8>, ErrorV>(t@),
            Err(e) => text_of(*ss, sc.view(), mixins_view(fns@), fuel as nat) == Err::<Seq<u8>, ErrorV>(e.view()),
        },
{
    eval_parts(&ss.parts, sc, fns, fuel)
}

fn is_true_exec(v: &CssValue) -> (r: bool)
    ensures
        r == is_true(v.view()),
{
    match v {
        CssValue::Null => false,
        CssValue::Bool(b) => *b,
        _ => true,
    }
}

fn is_null_exec(v: &CssValue) -> (r: bool)
    ensures
        r == is_null(v.view()),
{
    match v {
        CssValue::Null => true,
        CssValue::Str(t, q) => {
            let r = t.len() == 0 && match q {
                Quotes::NoQuotes => true,
                _ => false,
            };
            proof {
                if t.len() == 0 {
                    assert(t@ =~= Seq::<u8>::empty());
                }
            }
            r
        },
        _ => false,
    }
}

/// Parses a whole text as selectors.
fn parse_selectors_all_exec(t: &Vec<u8>) -> (r: Option<Selectors>)
    ensures
        match r {
            Some(cs) => parse_selectors_all(t@) == Some(cs.view()),
            None => parse_selectors_all(t@) is None,
        },
{
    let span = Span { data: t.as_slice(), file: 0 };
    match selectors(&span, 0) {
        Some((k, cs)) => {
            if k == t.len() {
                Some(cs)
            } else {
                None
            }
        },
        None => None,
    }
}

fn push_item(r: &mut Rule, it: BodyItem)
    ensures
        final(r).view() == push_body(old(r).view(), it.view()),
{
    let ghost b0 = r.body@;
    let ghost iv = it.view();
    r.body.push(it);
    proof {
        assert(crate::output::cssbuf::body_view(r.body@) =~= crate::output::cssbuf::body_view(
            b0,
        ).push(iv));
    }
}

/// A new rule with the given selectors and an empty body.
fn new_rule(ns: &Vec<Vec<u8>>) -> (r: Rule)
    ensures
        r.view() == (RuleV { selectors: texts_view(ns@), body: seq![] }),
{
    let r = Rule { selectors: clone_texts(ns), body: Vec::new() };
    proof {
        assert(crate::output::cssbuf::body_view(r.body@) =~= Seq::<BodyItemV>::empty());
    }
    r
}

fn opt_rule_text_exec(r: &Option<Rule>, n: usize) -> (t: Vec<u8>)
    ensures
        t@ == opt_rule_text(opt_rule_view(*r), n as nat),
{
    match r {
        Some(x) => rule_text_exec(x, n),
        None => Vec::new(),
    }
}

/// Handling a body stopped at its `k`th item: the items before it were
/// handled, and when that item fails before it changes anything, `after`
/// is the world they left.
pub open spec fn stopped_at(
    items: Seq<Item>,
    w: WorldV,
    sels: Seq<Seq<u8>>,
    fuel: nat,
    k: int,
    after: WorldV,
) -> bool {
    &&& 0 <= k < items.len()
    &&& spec_handle_body(items, w, sels, fuel, k) is Ok
    &&& fails_at_once(items[k], spec_handle_body(items, w, sels, fuel, k)->Ok_0) ==> after
        == spec_handle_body(items, w, sels, fuel, k)->Ok_0
}

/// Handles the items of a body in order.
pub fn handle_body(
    items: &Vec<Item>,
    cx: &mut Context,
    rule: &mut Option<Rule>,
    buf: &mut CssBuf,
    sels: &Vec<Vec<u8>>,
    fuel: usize,
) -> (r: Result<(), Error>)
    requires
        old(cx).scope.wf(),
    ensures
        handled(
            r,
            spec_handle_body(
                items@,
                world(*old(cx), *old(rule), *old(buf)),
                texts_view(sels@),
                fuel as nat,
                items.len() as int,
            ),
            world(*final(cx), *final(rule), *final(buf)),
        ),
        r is Ok ==> kept(*old(cx), *old(buf), *final(cx), *final(buf)),
        r is Err ==> exists|k: int|
            stopped_at(
                items@,
                world(*old(cx), *old(rule), *old(buf)),
                texts_view(sels@),
                fuel as nat,
                k,
                world(*final(cx), *final(rule), *final(buf)),
            ),
    decreases fuel, items, 0nat, 0nat,
{
    let ghost w0 = world(*cx, *rule, *buf);
    let ghost sv = texts_view(sels@);
    let ghost nf = cx.scope.frames.len();
    let ghost ind = buf.indent;
    let mut i: usize = 0;
    while i < items.len()
        invariant
            i <= items.len(),
            w0 == world(*old(cx), *old(rule), *old(buf)),
            sv == texts_view(sels@),
            nf == old(cx).scope.frames.len(),
            ind == old(buf).indent,
            cx.scope.frames.len() == nf,
            content_shape(cx.contents@) == content_shape(old(cx).contents@),
            cx.limit == old(cx).limit,
            nf > 0,
            buf.indent == ind,
            spec_handle_body(items@, w0, sv, fuel as nat, i as int) == Ok::<WorldV, ErrorV>(
                world(*cx, *rule, *buf),
            ),
        decreases items.len() - i,
    {
        proof {
            vstd::std_specs::vec::axiom_vec_index_decreases(*items, i as int);
        }
        let ghost wi = world(*cx, *rule, *buf);
        let ghost it = items@[i as int];
        match handle_item(&items[i], cx, rule, buf, sels, fuel) {
            Err(e) => {
                proof {
                    assert(spec_handle_item(it, wi, sv, fuel as nat) == Err::<WorldV, ErrorV>(e.view()));
                    lemma_body_unfold(items@, w0, sv, fuel as nat, i as int);
                    lemma_body_err(items@, w0, sv, fuel as nat, i + 1, items.len() as int);
                    assert(stopped_at(items@, w0, sv, fuel as nat, i as int, world(*cx, *rule, *buf)));
                }
                return Err(e);
            },
            Ok(()) => {
                proof {
                    lemma_body_unfold(items@, w0, sv, fuel as nat, i as int);
                }
            },
        }
        i += 1;
    }
    Ok(())
}

/// One more item of a body.
proof fn lemma_body_unfold(items: Seq<Item>, w: WorldV, sels: Seq<Seq<u8>>, fuel: nat, n: int)
    requires
        0 <= n < items.len(),
    ensures
        spec_handle_body(items, w, sels, fuel, n + 1) == match spec_handle_body(
            items,
            w,
            sels,
            fuel,
            n,
        ) {
            Err(e) => Err(e),
            Ok(w1) => spec_handle_item(items[n], w1, sels, fuel),
        },
{

}

/// Once the first `k` items of a body fail, so do all longer prefixes.
proof fn lemma_body_err(items: Seq<Item>, w: WorldV, sels: Seq<Seq<u8>>, fuel: nat, k: int, n: int)
    requires
        0 < k <= n <= items.len(),
        spec_handle_body(items, w, sels, fuel, k) is Err,
    ensures
        spec_handle_body(items, w, sels, fuel, n) == spec_handle_body(items, w, sels, fuel, k),
    decreases n - k,
{
    if n > k {
        lemma_body_err(items, w, sels, fuel, k, n - 1);
    }
}

/// Handles one item.
fn handle_item(
    item: &Item,
    cx: &mut Context,
    rule: &mut Option<Rule>,
    buf: &mut CssBuf,
    sels: &Vec<Vec<u8>>,
    fuel: usize,
) -> (r: Result<(), Error>)
    requires
        old(cx).scope.wf(),
    ensures
        handled(
            r,
            spec_handle_item(
                *item,
                world(*old(cx), *old(rule), *old(buf)),
                texts_view(sels@),
                fuel as nat,
            ),
            world(*final(cx), *final(rule), *final(buf)),
        ),
        r is Ok ==> kept(*old(cx), *old(buf), *final(cx), *final(buf)),
        r is Err && fails_at_once(*item, world(*old(cx), *old(rule), *old(buf))) ==> world(
            *final(cx),
            *final(rule),
            *final(buf),
        ) == world(*old(cx), *old(rule), *old(buf)),
    decreases fuel, item, 1nat, 0nat,
{
    match item {
        Item::VariableDeclaration { name, val, default, global, pos } => {
            match eval(val, &cx.scope, &cx.functions, cx.limit) {
                Ok(x) => {
                    cx.scope.set_variable(slice_to_vec(name.as_slice()), x, *default, *global);
                    Ok(())
                },
                Err(e) => Err(e),
            }
        },
        Item::Comment(c) => handle_comment(c, cx, rule, buf),
        Item::Property(name, value) => handle_property(name, value, false, cx, rule, buf),
        Item::CustomProperty(name, value) => handle_property(name, value, true, cx, rule, buf),
        Item::IfStatement(cond, do_if, do_else) => match eval(cond, &cx.scope, &cx.functions, cx.limit) {
            Err(e) => Err(e),
            Ok(c) => if is_true_exec(&c) {
                control_body(do_if, cx, rule, buf, sels, fuel)
            } else {
                control_body(do_else, cx, rule, buf, sels, fuel)
            },
        },
        Item::Rule(sel, body) => handle_rule(sel, body, cx, rule, buf, sels, fuel),
        Item::AtRoot(sel, body) => handle_at_root(sel, body, cx, rule, buf, sels, fuel),
        Item::AtRule { name, args, body, pos } => handle_at_rule(
            name,
            args,
            body,
            cx,
            rule,
            buf,
            sels,
            fuel,
        ),
        Item::NamespaceRule(name, value, body) => handle_ns_rule(
            name,
            value,
            body,
            cx,
            rule,
            buf,
            sels,
            fuel,
        ),
        Item::Each(names, values, body) => handle_each(
            names,
            values,
            body,
            cx,
            rule,
            buf,
            sels,
            fuel,
        ),
        Item::For { name, from, to, inclusive, body } => handle_for(
            name,
            from,
            to,
            *inclusive,
            body,
            cx,
            rule,
            buf,
            sels,
            fuel,
        ),
        Item::While(cond, body) => handle_while(cond, body, cx, rule, buf, sels, fuel),
        _ => handle_other_item(item, cx, rule, buf, sels, fuel),
    }
}

/// Handles the items that `handle_item` hands on: messages, errors,
/// imports, modules, declarations, mixin calls and content blocks.
/// `@function`: a reserved name or a body that does not pass the checks
/// is an error; else the function is declared.
fn handle_function_decl(
    item: &Item,
    name: &Vec<u8>,
    body: &Rc<Callable>,
    cx: &mut Context,
    rule: &mut Option<Rule>,
    buf: &mut CssBuf,
    sels: &Vec<Vec<u8>>,
    fuel: usize,
) -> (r: Result<(), Error>)
    requires
        *item == Item::FunctionDeclaration(*name, *body),
    ensures
        handled(
            r,
            spec_handle_item(
                *item,
                world(*old(cx), *old(rule), *old(buf)),
                texts_view(sels@),
                fuel as nat,
            ),
            world(*final(cx), *final(rule), *final(buf)),
        ),
        r is Ok ==> kept(*old(cx), *old(buf), *final(cx), *final(buf)),
        r is Err ==> *final(cx) == *old(cx),
        *final(rule) == *old(rule),
        *final(buf) == *old(buf),
{
    if is_reserved_function_exec(name.as_slice()) {
        let pos = SourcePos { file: body.decl.file, start: body.decl_at, end: body.decl.end };
        Err(Error::Invalid(Invalid::FunctionName, pos))
    } else {
        match check_body(body.body.as_slice(), BodyContext::Function) {
            Err(e) => Err(e),
            Ok(()) => {
                declare_function(name, body, cx);
                Ok(())
            },
        }
    }
}

/// Adds a declared function to those that calls can find.
fn declare_function(name: &Vec<u8>, body: &Rc<Callable>, cx: &mut Context)
    ensures
        mixins_view(final(cx).functions@) == mixins_view(old(cx).functions@).push((name@, *body)),
        final(cx).scope == old(cx).scope,
        final(cx).head == old(cx).head,
        final(cx).messages == old(cx).messages,
        final(cx).mixins == old(cx).mixins,
        final(cx).contents == old(cx).contents,
        final(cx).files == old(cx).files,
        final(cx).fwd_vars == old(cx).fwd_vars,
        final(cx).fwd_mixins == old(cx).fwd_mixins,
        final(cx).limit == old(cx).limit,
        final(cx).modules == old(cx).modules,
{
    let ghost f0 = mixins_view(cx.functions@);
    cx.functions.push(MixinDef { name: slice_to_vec(name.as_slice()), decl: share(body) });
    proof {
        assert(mixins_view(cx.functions@) =~= f0.push((name@, *body)));
    }
}

fn handle_other_item(
    item: &Item,
    cx: &mut Context,
    rule: &mut Option<Rule>,
    buf: &mut CssBuf,
    sels: &Vec<Vec<u8>>,
    fuel: usize,
) -> (r: Result<(), Error>)
    requires
        old(cx).scope.wf(),
        !(item is VariableDeclaration || item is Comment || item is Property || item is CustomProperty
            || item is IfStatement || item is Rule || item is AtRoot || item is AtRule
            || item is NamespaceRule || item is Each || item is For || item is While),
    ensures
        handled(
            r,
            spec_handle_item(
                *item,
                world(*old(cx), *old(rule), *old(buf)),
                texts_view(sels@),
                fuel as nat,
            ),
            world(*final(cx), *final(rule), *final(buf)),
        ),
        r is Ok ==> kept(*old(cx), *old(buf), *final(cx), *final(buf)),
        r is Err && fails_at_once(*item, world(*old(cx), *old(rule), *old(buf))) ==> world(
            *final(cx),
            *final(rule),
            *final(buf),
        ) == world(*old(cx), *old(rule), *old(buf)),
    decreases fuel, item, 0nat, 4nat,
{
    match item {
        Item::Empty => Ok(()),
        Item::Debug(v) => handle_message(v, "DEBUG: ", cx, rule, buf),
        Item::Warn(v) => handle_message(v, "WARNING: ", cx, rule, buf),
        Item::Error(v, pos) => match eval(v, &cx.scope, &cx.functions, cx.limit) {
            Ok(x) => Err(Error::Invalid(Invalid::AtError(format_value_exec(&x)), *pos)),
            Err(e) => Err(e),
        },
        Item::Return(_, pos) => Err(Error::Invalid(Invalid::AtRule, *pos)),
        Item::Import(names, args, pos) => handle_imports(
            item,
            names,
            args,
            *pos,
            cx,
            rule,
            buf,
            sels,
            fuel,
        ),
        Item::Use(name, as_n, with, pos) => handle_use(
            item,
            name,
            as_n,
            with,
            *pos,
            cx,
            rule,
            buf,
            fuel,
        ),
        Item::Forward(name, as_n, expose, with, pos) => handle_forward(
            item,
            name,
            as_n,
            expose,
            with,
            *pos,
            cx,
            rule,
            buf,
            fuel,
        ),
        Item::FunctionDeclaration(name, body) => handle_function_decl(item, name, body, cx, rule, buf, sels, fuel),
        _ => handle_mixin_item(item, cx, rule, buf, sels, fuel),
    }
}

/// Handles mixin declarations, mixin calls and content blocks.
fn handle_mixin_item(
    item: &Item,
    cx: &mut Context,
    rule: &mut Option<Rule>,
    buf: &mut CssBuf,
    sels: &Vec<Vec<u8>>,
    fuel: usize,
) -> (r: Result<(), Error>)
    requires
        old(cx).scope.wf(),
        item is MixinDeclaration || item is MixinCall || item is Content,
    ensures
        handled(
            r,
            spec_handle_item(
                *item,
                world(*old(cx), *old(rule), *old(buf)),
                texts_view(sels@),
                fuel as nat,
            ),
            world(*final(cx), *final(rule), *final(buf)),
        ),
        r is Ok ==> kept(*old(cx), *old(buf), *final(cx), *final(buf)),
    decreases fuel, item, 0nat, 2nat,
{
    match item {
        Item::Content(args, pos) => handle_content(item, args, *pos, cx, rule, buf, sels, fuel),
        Item::MixinDeclaration(name, body) => match check_body(
            body.body.as_slice(),
            BodyContext::Mixin,
        ) {
            Err(e) => Err(e),
            Ok(()) => {
                declare_mixin(name, body, cx, rule, buf);
                Ok(())
            },
        },
        Item::MixinCall(name, args, content, pos) => handle_mixin_call(
            item,
            name,
            args,
            content,
            *pos,
            cx,
            rule,
            buf,
            sels,
            fuel,
        ),
        _ => {
            proof {
                assert(false);
            }
            Ok(())
        },
    }
}

/// Leaves only the first `n` declared mixins.
fn forget_mixins(cx: &mut Context, n: usize, rule: &Option<Rule>, buf: &CssBuf)
    ensures
        world(*final(cx), *rule, *buf) == with_mixins(
            world(*old(cx), *rule, *buf),
            first_mixins(world(*old(cx), *rule, *buf).mixins, n as nat),
        ),
        final(cx).scope == old(cx).scope,
        final(cx).contents == old(cx).contents,
{
    let ghost m0 = cx.mixins@;
    cx.mixins.truncate(n);
    proof {
        assert(mixins_view(cx.mixins@) =~= first_mixins(mixins_view(m0), n as nat));
    }
}

/// Adds a mixin to those declared.
fn declare_mixin(name: &Vec<u8>, body: &Rc<Callable>, cx: &mut Context, rule: &Option<Rule>, buf: &CssBuf)
    ensures
        world(*final(cx), *rule, *buf) == with_mixin(world(*old(cx), *rule, *buf), name@, *body),
        final(cx).scope == old(cx).scope,
        final(cx).contents == old(cx).contents,
{
    cx.mixins.push(MixinDef { name: slice_to_vec(name.as_slice()), decl: share(body) });
    proof {
        assert(mixins_view(cx.mixins@) =~= mixins_view(old(cx).mixins@).push((name@, *body)));
    }
}

/// `Rc::clone`: std documents it as making another pointer to the same
/// allocation, so the result is the value it was given.
#[verifier::external_body]
fn share<T>(c: &Rc<T>) -> (r: Rc<T>)
    ensures
        r == *c,
{
    Rc::clone(c)
}

fn share_opt(c: &Option<Rc<Callable>>) -> (r: Option<Rc<Callable>>)
    ensures
        r == *c,
{
    match c {
        Some(x) => Some(share(x)),
        None => None,
    }
}

/// The mixin named `n` that was declared last.
pub fn find_mixin_exec(ms: &Vec<MixinDef>, n: &[u8]) -> (r: Option<Rc<Callable>>)
    ensures
        r == find_mixin(mixins_view(ms@), n@),
{
    let ghost mv = mixins_view(ms@);
    let mut k: usize = ms.len();
    proof {
        assert(mv.take(k as int) =~= mv);
    }
    while k > 0
        invariant
            k <= ms.len(),
            mv == mixins_view(ms@),
            find_mixin(mv, n@) == find_mixin(mv.take(k as int), n@),
        decreases k,
    {
        proof {
            assert(mv.take(k as int).drop_last() =~= mv.take(k - 1));
            assert(mv.take(k as int).last() == mv[k - 1]);
        }
        if bytes_eq(ms[k - 1].name.as_slice(), n) {
            return Some(share(&ms[k - 1].decl));
        }
        k -= 1;
    }
    None
}

fn at_call_exec(e: Error, pos: SourcePos) -> (r: Error)
    ensures
        r.view() == at_call(e.view(), pos),
{
    match e {
        Error::Invalid(k, _) => Error::Invalid(k, pos),
        Error::BadCall(m, _, _) => Error::BadCall(m, pos, None),
        Error::At(m, _) => Error::BadCall(m, pos, None),
        Error::S(m) => Error::BadCall(m, pos, None),
    }
}

proof fn lemma_shape_push(cs: Seq<ContentCall>, c: ContentCall)
    ensures
        content_shape(cs.push(c)) == content_shape(cs).push(c.frames.len() as nat),
{
    assert(content_shape(cs.push(c)) =~= content_shape(cs).push(c.frames.len() as nat));
}

proof fn lemma_contents_push(cs: Seq<ContentCall>, c: ContentCall)
    ensures
        contents_view(cs.push(c)) == contents_view(cs).push((c.block, frames_view(c.frames@))),
{
    assert(contents_view(cs.push(c)) =~= contents_view(cs).push((c.block, frames_view(c.frames@))));
}

/// The steps of a mixin call before the body runs.
fn mixin_enter_exec(
    name: &Vec<u8>,
    args: &Vec<CallArg>,
    content: &Option<Rc<Callable>>,
    pos: SourcePos,
    cx: &mut Context,
    rule: &Option<Rule>,
    buf: &CssBuf,
) -> (r: Result<Rc<Callable>, Error>)
    requires
        old(cx).scope.wf(),
    ensures
        match r {
            Ok(m) => {
                &&& spec_mixin_enter(*name, *args, *content, pos, world(*old(cx), *rule, *buf))
                    == Ok::<(Rc<Callable>, WorldV), ErrorV>((m, world(*final(cx), *rule, *buf)))
                &&& final(cx).scope.frames.len() == 2
                &&& content_shape(final(cx).contents@) == content_shape(old(cx).contents@).push(
                    (old(cx).scope.frames.len() - 1) as nat,
                )
            },
            Err(e) => spec_mixin_enter(*name, *args, *content, pos, world(*old(cx), *rule, *buf))
                == Err::<(Rc<Callable>, WorldV), ErrorV>(e.view()),
        },
{
    let ghost w0 = world(*cx, *rule, *buf);
    let m = match find_mixin_exec(&cx.mixins, name.as_slice()) {
        None => {
            return Err(Error::BadCall(str_bytes("Undefined mixin."), pos, None));
        },
        Some(m) => m,
    };
    let avs = match eval_args(args, &cx.scope, &cx.functions, cx.limit) {
        Err(e) => {
            return Err(e);
        },
        Ok(a) => a,
    };
    let ghost g = cx.scope.frames@[0];
    let caller = cx.scope.frames.split_off(1);
    cx.scope.frames.push(Vec::new());
    proof {
        assert(cx.scope.frames@[0] == g);
        assert(frame_view(g@) == w0.scope[0]);
    }
    match bind_callable(&m.args, &avs, &mut cx.scope, pos, m.decl, &cx.functions, cx.limit) {
        Err(e) => {
            return Err(e);
        },
        Ok(()) => {},
    }
    proof {
        assert(frames_view(caller@) =~= w0.scope.drop_first());
    }
    let entry = ContentCall { block: share_opt(content), frames: caller };
    let ghost cs0 = cx.contents@;
    cx.contents.push(entry);
    proof {
        lemma_contents_push(cs0, entry);
        lemma_shape_push(cs0, entry);
        assert(cx.scope.view() =~= seq![w0.scope[0], cx.scope.view()[1]]);
    }
    Ok(m)
}

/// The steps of a mixin call after the body.
fn mixin_leave_exec(cx: &mut Context, rule: &Option<Rule>, buf: &CssBuf)
    requires
        old(cx).contents.len() > 0,
        old(cx).scope.frames.len() > 0,
    ensures
        world(*final(cx), *rule, *buf) == mixin_leave(world(*old(cx), *rule, *buf)),
        final(cx).scope.frames.len() == 1 + old(cx).contents@.last().frames.len(),
        content_shape(final(cx).contents@) == content_shape(old(cx).contents@).drop_last(),
{
    let ghost w2 = world(*cx, *rule, *buf);
    let ghost cs2 = cx.contents@;
    cx.scope.frames.truncate(1);
    let back = cx.contents.pop().unwrap();
    let mut cf = back.frames;
    proof {
        assert(cs2 =~= cx.contents@.push(back));
        lemma_contents_push(cx.contents@, back);
        lemma_shape_push(cx.contents@, back);
        assert(content_shape(cs2).drop_last() =~= content_shape(cx.contents@));
        assert(contents_view(cx.contents@) =~= w2.contents.drop_last());
    }
    cx.scope.frames.append(&mut cf);
    proof {
        assert(cx.scope.view() =~= seq![w2.scope[0]] + w2.contents.last().1);
    }
}

/// `@include`: the arguments are bound in a frame over the global one,
/// the body runs there, and the caller's frames come back after it.
fn handle_mixin_call(
    item: &Item,
    name: &Vec<u8>,
    args: &Vec<CallArg>,
    content: &Option<Rc<Callable>>,
    pos: SourcePos,
    cx: &mut Context,
    rule: &mut Option<Rule>,
    buf: &mut CssBuf,
    sels: &Vec<Vec<u8>>,
    fuel: usize,
) -> (r: Result<(), Error>)
    requires
        old(cx).scope.wf(),
        *item == Item::MixinCall(*name, *args, *content, pos),
    ensures
        handled(
            r,
            spec_mixin_call_item(
                *item,
                world(*old(cx), *old(rule), *old(buf)),
                texts_view(sels@),
                fuel as nat,
            ),
            world(*final(cx), *final(rule), *final(buf)),
        ),
        r is Ok ==> kept(*old(cx), *old(buf), *final(cx), *final(buf)),
    decreases fuel, item, 0nat, 0nat,
{
    let ghost w0 = world(*cx, *rule, *buf);
    let ghost shape0 = content_shape(cx.contents@);
    let ghost nf0 = cx.scope.frames.len();
    let ghost ind0 = buf.indent;
    let m = match mixin_enter_exec(name, args, content, pos, cx, rule, buf) {
        Err(e) => {
            return Err(e);
        },
        Ok(m) => m,
    };
    let ghost inner = world(*cx, *rule, *buf);
    let ghost shape1 = content_shape(cx.contents@);
    assert(spec_mixin_enter(*name, *args, *content, pos, w0) == Ok::<(Rc<Callable>, WorldV), ErrorV>(
        (m, inner),
    ));
    if fuel == 0 {
        return Err(Error::S(str_bytes("Too deeply nested mixin calls.")));
    }
    let ghost sv = texts_view(sels@);
    let ghost body_res = spec_handle_body(m.body@, inner, sv, (fuel - 1) as nat, m.body.len() as int);
    match handle_body(&m.body, cx, rule, buf, sels, fuel - 1) {
        Err(e) => {
            assert(body_res == Err::<WorldV, ErrorV>(e.view()));
            return Err(at_call_exec(e, pos));
        },
        Ok(()) => {},
    }
    let ghost w2 = world(*cx, *rule, *buf);
    assert(body_res == Ok::<WorldV, ErrorV>(w2));
    assert(content_shape(cx.contents@) == shape1);
    assert(shape1 == shape0.push((nf0 - 1) as nat));
    assert(cx.contents.len() == shape1.len());
    assert(cx.contents@.last().frames.len() == shape1.last()) by {
        assert(content_shape(cx.contents@)[cx.contents.len() - 1] == cx.contents@[cx.contents.len()
            - 1].frames.len());
    }
    mixin_leave_exec(cx, rule, buf);
    assert(content_shape(cx.contents@) =~= shape0);
    assert(world(*cx, *rule, *buf) == mixin_leave(w2));
    assert(cx.scope.frames.len() == nf0);
    assert(buf.indent == ind0);
    Ok(())
}

/// The steps of `@content` before its block runs: the block and the
/// frames of the mixin above the global frame, when there is a block.
fn content_enter_exec(
    args: &Vec<CallArg>,
    pos: SourcePos,
    cx: &mut Context,
    rule: &Option<Rule>,
    buf: &CssBuf,
) -> (r: Result<Option<(Rc<Callable>, Vec<Vec<Var>>)>, Error>)
    requires
        old(cx).scope.wf(),
    ensures
        match r {
            Ok(None) => {
                &&& spec_content_enter(*args, pos, world(*old(cx), *rule, *buf)) == Ok::<
                    Option<(Rc<Callable>, WorldV)>,
                    ErrorV,
                >(None)
                &&& world(*final(cx), *rule, *buf) == world(*old(cx), *rule, *buf)
                &&& final(cx).scope.frames.len() == old(cx).scope.frames.len()
                &&& content_shape(final(cx).contents@) == content_shape(old(cx).contents@)
            },
            Ok(Some((b, mf))) => {
                &&& spec_content_enter(*args, pos, world(*old(cx), *rule, *buf)) == Ok::<
                    Option<(Rc<Callable>, WorldV)>,
                    ErrorV,
                >(Some((b, world(*final(cx), *rule, *buf))))
                &&& frames_view(mf@) == world(*old(cx), *rule, *buf).scope.drop_first()
                &&& mf.len() + 1 == old(cx).scope.frames.len()
                &&& old(cx).contents.len() > 0
                &&& content_shape(final(cx).contents@) == content_shape(old(cx).contents@).drop_last()
                &&& final(cx).scope.frames.len() == old(cx).contents@.last().frames.len() + 2
            },
            Err(e) => spec_content_enter(*args, pos, world(*old(cx), *rule, *buf)) == Err::<
                Option<(Rc<Callable>, WorldV)>,
                ErrorV,
            >(e.view()),
        },
{
    let ghost w0 = world(*cx, *rule, *buf);
    if cx.contents.len() == 0 {
        return Ok(None);
    }
    let ghost cs0 = cx.contents@;
    let top = cx.contents.pop().unwrap();
    proof {
        assert(cs0 =~= cx.contents@.push(top));
        lemma_contents_push(cx.contents@, top);
        lemma_shape_push(cx.contents@, top);
        assert(w0.contents.last() == (top.block, frames_view(top.frames@)));
        assert(w0.contents.drop_last() =~= contents_view(cx.contents@));
        assert(content_shape(cs0).drop_last() =~= content_shape(cx.contents@));
    }
    let b = match &top.block {
        None => {
            cx.contents.push(top);
            proof {
                assert(cx.contents@ =~= cs0);
                assert(contents_view(cx.contents@) == contents_view(cs0));
                assert(world(*cx, *rule, *buf) == w0);
            }
            return Ok(None);
        },
        Some(b) => share(b),
    };
    assert(w0.contents.last().0 == Some(b));
    let avs = match eval_args(args, &cx.scope, &cx.functions, cx.limit) {
        Err(e) => {
            return Err(e);
        },
        Ok(a) => a,
    };
    let ghost g = cx.scope.frames@[0];
    let mixin_frames = cx.scope.frames.split_off(1);
    cx.scope.frames.push(Vec::new());
    proof {
        assert(cx.scope.frames@[0] == g);
        assert(frame_view(g@) == w0.scope[0]);
        assert(frames_view(mixin_frames@) =~= w0.scope.drop_first());
    }
    match bind_callable(&b.args, &avs, &mut cx.scope, pos, b.decl, &cx.functions, cx.limit) {
        Err(e) => {
            return Err(e);
        },
        Ok(()) => {},
    }
    let ghost bound = frame_view(cx.scope.frames@[1]@);
    let fr = cx.scope.frames.pop().unwrap();
    let mut cf = top.frames;
    let ghost cfv = frames_view(cf@);
    let ghost cfl = cf.len();
    cx.scope.frames.append(&mut cf);
    cx.scope.frames.push(fr);
    proof {
        assert(frame_view(fr@) == bound);
        assert(cfv == w0.contents.last().1);
        assert(cx.scope.view() =~= seq![w0.scope[0]] + cfv + seq![bound]);
        assert(cx.scope.frames.len() == cfl + 2);
        assert(cfl == cs0.last().frames.len());
    }
    Ok(Some((b, mixin_frames)))
}

/// The steps of `@content` after its block.
fn content_leave_exec(
    b: Rc<Callable>,
    mf: Vec<Vec<Var>>,
    cx: &mut Context,
    rule: &Option<Rule>,
    buf: &CssBuf,
)
    requires
        old(cx).scope.frames.len() >= 2,
    ensures
        world(*final(cx), *rule, *buf) == content_leave(frames_view(mf@), b, world(*old(cx), *rule, *buf)),
        final(cx).scope.frames.len() == 1 + mf.len(),
        content_shape(final(cx).contents@) == content_shape(old(cx).contents@).push(
            (old(cx).scope.frames.len() - 2) as nat,
        ),
{
    let ghost w2 = world(*cx, *rule, *buf);
    let mut mf = mf;
    let ghost mfv = frames_view(mf@);
    let _ = cx.scope.frames.pop();
    let caller2 = cx.scope.frames.split_off(1);
    proof {
        assert(frames_view(caller2@) =~= w2.scope.drop_last().drop_first());
    }
    cx.scope.frames.append(&mut mf);
    proof {
        assert(cx.scope.view() =~= seq![w2.scope[0]] + mfv);
    }
    let entry = ContentCall { block: Some(b), frames: caller2 };
    let ghost cs2 = cx.contents@;
    cx.contents.push(entry);
    proof {
        lemma_contents_push(cs2, entry);
        lemma_shape_push(cs2, entry);
    }
}

/// `@content`: the content block of the innermost mixin call runs in the
/// caller's frames, with its arguments in a frame of its own; the
/// mixin's frames come back after it.
fn handle_content(
    item: &Item,
    args: &Vec<CallArg>,
    pos: SourcePos,
    cx: &mut Context,
    rule: &mut Option<Rule>,
    buf: &mut CssBuf,
    sels: &Vec<Vec<u8>>,
    fuel: usize,
) -> (r: Result<(), Error>)
    requires
        old(cx).scope.wf(),
        *item == Item::Content(*args, pos),
    ensures
        handled(
            r,
            spec_content_item(
                *item,
                world(*old(cx), *old(rule), *old(buf)),
                texts_view(sels@),
                fuel as nat,
            ),
            world(*final(cx), *final(rule), *final(buf)),
        ),
        r is Ok ==> kept(*old(cx), *old(buf), *final(cx), *final(buf)),
    decreases fuel, item, 0nat, 0nat,
{
    let ghost w0 = world(*cx, *rule, *buf);
    let ghost shape0 = content_shape(cx.contents@);
    let ghost nf0 = cx.scope.frames.len();
    let ghost last_len: nat = if cx.contents.len() > 0 {
        cx.contents@.last().frames.len() as nat
    } else {
        0
    };
    let (b, mf) = match content_enter_exec(args, pos, cx, rule, buf) {
        Err(e) => {
            return Err(e);
        },
        Ok(None) => {
            return Ok(());
        },
        Ok(Some(x)) => x,
    };
    let ghost inner = world(*cx, *rule, *buf);
    let ghost shape1 = content_shape(cx.contents@);
    let ghost nf1 = cx.scope.frames.len();
    assert(nf1 == last_len + 2);
    if fuel == 0 {
        return Err(Error::S(str_bytes("Too deeply nested mixin calls.")));
    }
    let ghost sv = texts_view(sels@);
    let ghost body_res = spec_handle_body(b.body@, inner, sv, (fuel - 1) as nat, b.body.len() as int);
    match handle_body(&b.body, cx, rule, buf, sels, fuel - 1) {
        Err(e) => {
            assert(body_res == Err::<WorldV, ErrorV>(e.view()));
            return Err(e);
        },
        Ok(()) => {},
    }
    let ghost w2 = world(*cx, *rule, *buf);
    assert(body_res == Ok::<WorldV, ErrorV>(w2));
    assert(content_shape(cx.contents@) == shape1);
    assert(cx.scope.frames.len() == nf1);
    content_leave_exec(b, mf, cx, rule, buf);
    assert(content_shape(cx.contents@) == shape1.push(last_len));
    assert(shape0 =~= shape1.push(last_len)) by {
        assert(shape0.len() > 0);
        assert(shape0.last() == last_len) by {
            assert(content_shape(old(cx).contents@)[old(cx).contents.len() - 1] == old(
                cx,
            ).contents@[old(cx).contents.len() - 1].frames.len());
        }
    }
    Ok(())
}

fn is_builtin_module_exec(t: &[u8]) -> (r: bool)
    ensures
        r == is_builtin_module(t@),
{
    bytes_eq(t, "sass:math".as_bytes()) || bytes_eq(t, "sass:color".as_bytes()) || bytes_eq(
        t,
        "sass:string".as_bytes(),
    ) || bytes_eq(t, "sass:list".as_bytes()) || bytes_eq(t, "sass:map".as_bytes()) || bytes_eq(
        t,
        "sass:selector".as_bytes(),
    ) || bytes_eq(t, "sass:meta".as_bytes())
}

fn is_reserved_function_exec(n: &[u8]) -> (r: bool)
    ensures
        r == is_reserved_function(n@),
{
    bytes_eq(n, "calc".as_bytes()) || bytes_eq(n, "element".as_bytes()) || bytes_eq(
        n,
        "expression".as_bytes(),
    ) || bytes_eq(n, "url".as_bytes())
}

fn handle_message(v: &Value, prefix: &str, cx: &mut Context, rule: &Option<Rule>, buf: &CssBuf) -> (r: Result<
    (),
    Error,
>)
    ensures
        handled(
            r,
            spec_message(*v, kw(prefix), world(*old(cx), *rule, *buf)),
            world(*final(cx), *rule, *buf),
        ),
        r is Ok ==> final(cx).scope.frames.len() == old(cx).scope.frames.len(),
        final(cx).contents == old(cx).contents,
        final(cx).limit == old(cx).limit,
{
    reveal(spec_message);
    match eval(v, &cx.scope, &cx.functions, cx.limit) {
        Ok(x) => {
            let mut m = str_bytes(prefix);
            let t = format_value_exec(&x);
            push_bytes(&mut m, t.as_slice());
            let ghost m0 = cx.messages@;
            let ghost mv = m@;
            cx.messages.push(m);
            proof {
                assert(texts_view(cx.messages@) =~= texts_view(m0).push(mv));
            }
            Ok(())
        },
        Err(e) => Err(e),
    }
}

fn handle_comment(c: &SassString, cx: &mut Context, rule: &mut Option<Rule>, buf: &mut CssBuf) -> (r:
    Result<(), Error>)
    ensures
        handled(
            r,
            spec_comment(*c, world(*old(cx), *old(rule), *old(buf))),
            world(*final(cx), *final(rule), *final(buf)),
        ),
        r is Ok ==> kept(*old(cx), *old(buf), *final(cx), *final(buf)),
{
    reveal(spec_comment);
    match text_of_exec(c, &cx.scope, &cx.functions, cx.limit) {
        Err(e) => Err(e),
        Ok(t) => {
            match rule {
                Some(r) => {
                    push_item(r, BodyItem::Comment(t));
                },
                None => {
                    let mut text: Vec<u8> = Vec::new();
                    push_spaces(&mut text, buf.indent);
                    push_str(&mut text, "/*");
                    push_bytes(&mut text, t.as_slice());
                    push_str(&mut text, "*/\n");
                    buf.add(text.as_slice());
                },
            }
            Ok(())
        },
    }
}

fn handle_property(
    name: &SassString,
    value: &Value,
    custom: bool,
    cx: &mut Context,
    rule: &mut Option<Rule>,
    buf: &CssBuf,
) -> (r: Result<(), Error>)
    ensures
        handled(
            r,
            spec_property(*name, *value, custom, world(*old(cx), *old(rule), *buf)),
            world(*final(cx), *final(rule), *buf),
        ),
        *final(cx) == *old(cx),
        r is Err ==> *final(rule) == *old(rule),
{
    reveal(spec_property);
    if rule.is_none() {
        if custom {
            return Err(Error::S(str_bytes("Global custom property not allowed")));
        } else {
            return Err(Error::S(str_bytes("Global property not allowed")));
        }
    }
    match eval(value, &cx.scope, &cx.functions, cx.limit) {
        Err(e) => Err(e),
        Ok(v) => {
            if is_null_exec(&v) {
                return Ok(());
            }
            match text_of_exec(name, &cx.scope, &cx.functions, cx.limit) {
                Err(e) => Err(e),
                Ok(n) => {
                    match rule {
                        Some(r) => {
                            if custom {
                                push_item(r, BodyItem::CustomProperty(n, v));
                            } else {
                                push_item(r, BodyItem::Property(n, v));
                            }
                        },
                        None => {},
                    }
                    Ok(())
                },
            }
        },
    }
}

fn control_body(
    items: &Vec<Item>,
    cx: &mut Context,
    rule: &mut Option<Rule>,
    buf: &mut CssBuf,
    sels: &Vec<Vec<u8>>,
    fuel: usize,
) -> (r: Result<(), Error>)
    requires
        old(cx).scope.wf(),
    ensures
        handled(
            r,
            spec_control_body(
                *items,
                world(*old(cx), *old(rule), *old(buf)),
                texts_view(sels@),
                fuel as nat,
            ),
            world(*final(cx), *final(rule), *final(buf)),
        ),
        r is Ok ==> kept(*old(cx), *old(buf), *final(cx), *final(buf)),
    decreases fuel, items, 1nat, 0nat,
{
    match check_body(items.as_slice(), BodyContext::Control) {
        Err(e) => Err(e),
        Ok(()) => handle_body(items, cx, rule, buf, sels, fuel),
    }
}

fn nested(
    ns: &Vec<Vec<u8>>,
    body: &Vec<Item>,
    cx: &mut Context,
    rule: &mut Option<Rule>,
    buf: &mut CssBuf,
    fuel: usize,
) -> (r: Result<(), Error>)
    requires
        old(cx).scope.wf(),
    ensures
        handled(
            r,
            spec_nested(
                texts_view(ns@),
                *body,
                world(*old(cx), *old(rule), *old(buf)),
                fuel as nat,
            ),
            world(*final(cx), *final(rule), *final(buf)),
        ),
        r is Ok ==> kept(*old(cx), *old(buf), *final(cx), *final(buf)),
    decreases fuel, body, 1nat, 0nat,
{
    let mut inner: Option<Rule> = Some(new_rule(ns));
    let mut sub = buf.new_as();
    let n0 = cx.mixins.len();
    cx.scope.push_frame();
    match handle_body(body, cx, &mut inner, &mut sub, ns, fuel) {
        Err(e) => {
            return Err(e);
        },
        Ok(()) => {},
    }
    cx.scope.pop_frame();
    forget_mixins(cx, n0, &inner, &sub);
    let t = opt_rule_text_exec(&inner, buf.indent);
    buf.add(t.as_slice());
    buf.add(sub.bytes.as_slice());
    Ok(())
}

fn handle_rule(
    sel: &SassString,
    body: &Vec<Item>,
    cx: &mut Context,
    rule: &mut Option<Rule>,
    buf: &mut CssBuf,
    sels: &Vec<Vec<u8>>,
    fuel: usize,
) -> (r: Result<(), Error>)
    requires
        old(cx).scope.wf(),
    ensures
        handled(
            r,
            spec_rule(
                *sel,
                *body,
                world(*old(cx), *old(rule), *old(buf)),
                texts_view(sels@),
                fuel as nat,
            ),
            world(*final(cx), *final(rule), *final(buf)),
        ),
        r is Ok ==> kept(*old(cx), *old(buf), *final(cx), *final(buf)),
    decreases fuel, body, 2nat, 0nat,
{
    match check_body(body.as_slice(), BodyContext::Rule) {
        Err(e) => {
            return Err(e);
        },
        Ok(()) => {},
    }
    let t = match text_of_exec(sel, &cx.scope, &cx.functions, cx.limit) {
        Err(e) => {
            return Err(e);
        },
        Ok(t) => t,
    };
    let cs = match parse_selectors_all_exec(&t) {
        None => {
            return Err(Error::S(str_bytes("Invalid css selector.")));
        },
        Some(cs) => cs,
    };
    let ns = inside_exec(sels, &cs);
    if rule.is_none() {
        buf.do_separate();
    }
    nested(&ns, body, cx, rule, buf, fuel)
}

fn handle_at_root(
    sel: &SassString,
    body: &Vec<Item>,
    cx: &mut Context,
    rule: &mut Option<Rule>,
    buf: &mut CssBuf,
    sels: &Vec<Vec<u8>>,
    fuel: usize,
) -> (r: Result<(), Error>)
    requires
        old(cx).scope.wf(),
    ensures
        handled(
            r,
            spec_at_root(
                *sel,
                *body,
                world(*old(cx), *old(rule), *old(buf)),
                texts_view(sels@),
                fuel as nat,
            ),
            world(*final(cx), *final(rule), *final(buf)),
        ),
        r is Ok ==> kept(*old(cx), *old(buf), *final(cx), *final(buf)),
    decreases fuel, body, 2nat, 0nat,
{
    let t = match text_of_exec(sel, &cx.scope, &cx.functions, cx.limit) {
        Err(e) => {
            return Err(e);
        },
        Ok(t) => t,
    };
    let cs = if t.len() == 0 {
        let c = Selectors(Vec::new());
        proof {
            assert(c.view() =~= Seq::<Seq<PartV>>::empty());
        }
        c
    } else {
        match parse_selectors_all_exec(&t) {
            None => {
                return Err(Error::S(str_bytes("Invalid css selector.")));
            },
            Some(cs) => cs,
        }
    };
    let mut p: Vec<u8> = Vec::new();
    join_texts_exec(sels, &mut p);
    let ns = with_backref_exec(&cs, p.as_slice());
    nested(&ns, body, cx, rule, buf, fuel)
}

/// The start of an at-rule: its indentation, name and arguments.
fn at_rule_head(n: &Vec<u8>, a: &CssValue, indent: usize) -> (t: Vec<u8>)
    ensures
        t@ == spaces(indent as nat) + kw("@") + n@ + if is_null(a.view()) {
            seq![]
        } else {
            seq![32u8] + format_value(a.view())
        },
{
    let mut head_text: Vec<u8> = Vec::new();
    push_spaces(&mut head_text, indent);
    push_str(&mut head_text, "@");
    push_bytes(&mut head_text, n.as_slice());
    if !is_null_exec(a) {
        head_text.push(32u8);
        let t = format_value_exec(a);
        push_bytes(&mut head_text, t.as_slice());
    }
    proof {
        assert(head_text@ =~= spaces(indent as nat) + kw("@") + n@ + if is_null(a.view()) {
            seq![]
        } else {
            seq![32u8] + format_value(a.view())
        });
    }
    head_text
}

fn handle_at_rule(
    name: &SassString,
    args: &Value,
    body: &Option<Vec<Item>>,
    cx: &mut Context,
    rule: &mut Option<Rule>,
    buf: &mut CssBuf,
    sels: &Vec<Vec<u8>>,
    fuel: usize,
) -> (r: Result<(), Error>)
    requires
        old(cx).scope.wf(),
    ensures
        handled(
            r,
            spec_at_rule(
                *name,
                *args,
                *body,
                world(*old(cx), *old(rule), *old(buf)),
                texts_view(sels@),
                fuel as nat,
            ),
            world(*final(cx), *final(rule), *final(buf)),
        ),
        r is Ok ==> kept(*old(cx), *old(buf), *final(cx), *final(buf)),
    decreases fuel, body, 2nat, 0nat,
{
    let n = match text_of_exec(name, &cx.scope, &cx.functions, cx.limit) {
        Err(e) => {
            return Err(e);
        },
        Ok(n) => n,
    };
    let a = match eval(args, &cx.scope, &cx.functions, cx.limit) {
        Err(e) => {
            return Err(e);
        },
        Ok(a) => a,
    };
    buf.do_separate();
    let mut head_text = at_rule_head(&n, &a, buf.indent);
    match body {
        None => {
            push_str(&mut head_text, ";\n");
            buf.add(head_text.as_slice());
            Ok(())
        },
        Some(items) => at_rule_body(head_text, items, cx, rule, buf, sels, fuel),
    }
}

fn at_rule_body(
    head_text: Vec<u8>,
    items: &Vec<Item>,
    cx: &mut Context,
    rule: &mut Option<Rule>,
    buf: &mut CssBuf,
    sels: &Vec<Vec<u8>>,
    fuel: usize,
) -> (r: Result<(), Error>)
    requires
        old(cx).scope.wf(),
    ensures
        handled(
            r,
            spec_at_rule_body(
                head_text@,
                *items,
                world(*old(cx), *old(rule), *old(buf)),
                texts_view(sels@),
                fuel as nat,
            ),
            world(*final(cx), *final(rule), *final(buf)),
        ),
        r is Ok ==> kept(*old(cx), *old(buf), *final(cx), *final(buf)),
    decreases fuel, items, 1nat, 0nat,
{
    let mut inner: Option<Rule> = Some(new_rule(sels));
    let mut sub = CssBuf { bytes: Vec::new(), indent: buf.indent.saturating_add(1), pending: false };
    let n0 = cx.mixins.len();
    cx.scope.push_frame();
    match handle_body(items, cx, &mut inner, &mut sub, sels, fuel) {
        Err(e) => {
            return Err(e);
        },
        Ok(()) => {},
    }
    cx.scope.pop_frame();
    forget_mixins(cx, n0, &inner, &sub);
    let mut text = head_text;
    push_str(&mut text, " {\n");
    let t = opt_rule_text_exec(&inner, buf.indent.saturating_add(1));
    push_bytes(&mut text, t.as_slice());
    push_bytes(&mut text, sub.bytes.as_slice());
    push_spaces(&mut text, buf.indent);
    push_str(&mut text, "}\n");
    buf.add(text.as_slice());
    Ok(())
}

fn handle_ns_rule(
    name: &SassString,
    value: &Value,
    body: &Vec<Item>,
    cx: &mut Context,
    rule: &mut Option<Rule>,
    buf: &mut CssBuf,
    sels: &Vec<Vec<u8>>,
    fuel: usize,
) -> (r: Result<(), Error>)
    requires
        old(cx).scope.wf(),
    ensures
        handled(
            r,
            spec_ns_rule(
                *name,
                *value,
                *body,
                world(*old(cx), *old(rule), *old(buf)),
                texts_view(sels@),
                fuel as nat,
            ),
            world(*final(cx), *final(rule), *final(buf)),
        ),
        r is Ok ==> kept(*old(cx), *old(buf), *final(cx), *final(buf)),
        (*old(rule)) is None ==> *final(cx) == *old(cx) && *final(rule) == *old(rule) && *final(buf)
            == *old(buf),
    decreases fuel, body, 2nat, 0nat,
{
    if rule.is_none() {
        return Err(Error::S(str_bytes("Global namespaced property not allowed")));
    }
    match check_body(body.as_slice(), BodyContext::NsRule) {
        Err(e) => {
            return Err(e);
        },
        Ok(()) => {},
    }
    let v = match eval(value, &cx.scope, &cx.functions, cx.limit) {
        Err(e) => {
            return Err(e);
        },
        Ok(v) => v,
    };
    let n = match text_of_exec(name, &cx.scope, &cx.functions, cx.limit) {
        Err(e) => {
            return Err(e);
        },
        Ok(n) => n,
    };
    if !is_null_exec(&v) {
        match rule {
            Some(r) => {
                push_item(r, BodyItem::Property(slice_to_vec(n.as_slice()), v));
            },
            None => {},
        }
    }
    ns_body(n, body, cx, rule, buf, sels, fuel)
}

/// A body item with the namespace `n` before the name of a property.
fn prefixed_item(it: &BodyItem, n: &[u8]) -> (r: BodyItem)
    ensures
        r.view() == prefixed(seq![it.view()], n@)[0],
{
    assert(seq![it.view()][0] == it.view());
    match it {
        BodyItem::Property(p, v) => {
            let mut name = slice_to_vec(n);
            name.push(45u8);
            push_bytes(&mut name, p.as_slice());
            assert(name@ =~= n@ + seq![45u8] + p@);
            BodyItem::Property(name, clone_css(v))
        },
        BodyItem::CustomProperty(p, v) => BodyItem::CustomProperty(
            slice_to_vec(p.as_slice()),
            clone_css(v),
        ),
        BodyItem::Comment(t) => BodyItem::Comment(slice_to_vec(t.as_slice())),
        BodyItem::Import(t) => BodyItem::Import(slice_to_vec(t.as_slice())),
    }
}

fn ns_body(
    n: Vec<u8>,
    body: &Vec<Item>,
    cx: &mut Context,
    rule: &mut Option<Rule>,
    buf: &mut CssBuf,
    sels: &Vec<Vec<u8>>,
    fuel: usize,
) -> (r: Result<(), Error>)
    requires
        old(cx).scope.wf(),
        *old(rule) is Some,
    ensures
        handled(
            r,
            spec_ns_body(
                n@,
                opt_rule_view(*old(rule)).unwrap(),
                *body,
                world(*old(cx), *old(rule), *old(buf)),
                texts_view(sels@),
                fuel as nat,
            ),
            world(*final(cx), *final(rule), *final(buf)),
        ),
        r is Ok ==> kept(*old(cx), *old(buf), *final(cx), *final(buf)),
    decreases fuel, body, 1nat, 0nat,
{
    let no_sels: Vec<Vec<u8>> = Vec::new();
    let mut inner: Option<Rule> = Some(new_rule(&no_sels));
    let mut sub = CssBuf::new();
    proof {
        assert(texts_view(no_sels@) =~= Seq::<Seq<u8>>::empty());
    }
    match handle_body(body, cx, &mut inner, &mut sub, sels, fuel) {
        Err(e) => {
            return Err(e);
        },
        Ok(()) => {},
    }
    if sub.bytes.len() > 0 {
        return Err(Error::S(str_bytes("Unexpected content in namespace rule")));
    }
    let ghost r1 = opt_rule_view(*rule).unwrap();
    match &inner {
        Some(t) => {
            let ghost items = crate::output::cssbuf::body_view(t.body@);
            let mut i: usize = 0;
            while i < t.body.len()
                invariant
                    i <= t.body.len(),
                    items == crate::output::cssbuf::body_view(t.body@),
                    *rule is Some,
                    opt_rule_view(*rule) == Some(
                        RuleV {
                            selectors: r1.selectors,
                            body: r1.body + prefixed(items, n@).take(i as int),
                        },
                    ),
                decreases t.body.len() - i,
            {
                let it = prefixed_item(&t.body[i], n.as_slice());
                match rule {
                    Some(r) => {
                        push_item(r, it);
                    },
                    None => {},
                }
                i += 1;
                proof {
                    assert(prefixed(seq![items[i - 1]], n@)[0] == prefixed(items, n@)[i - 1]);
                    assert(r1.body + prefixed(items, n@).take(i as int) =~= (r1.body + prefixed(
                        items,
                        n@,
                    ).take(i - 1)).push(prefixed(items, n@)[i - 1]));
                }
            }
            proof {
                assert(prefixed(items, n@).take(i as int) =~= prefixed(items, n@));
            }
        },
        None => {},
    }
    Ok(())
}

fn each_items_exec(v: CssValue) -> (r: Vec<CssValue>)
    ensures
        crate::value::css_values_view(r@) == each_items(v.view()),
{
    proof {
        crate::value::lemma_css_list_view(&v);
    }
    match v {
        CssValue::List(xs, _) => xs,
        CssValue::Null => {
            let r: Vec<CssValue> = Vec::new();
            proof {
                assert(crate::value::css_values_view(r@) =~= Seq::<CssValueV>::empty());
            }
            r
        },
        other => {
            let ghost ov = other.view();
            let mut r: Vec<CssValue> = Vec::new();
            r.push(other);
            proof {
                assert(crate::value::css_values_view(r@) =~= seq![ov]);
            }
            r
        },
    }
}

fn define_multi_exec(sc: &mut Scope, names: &Vec<Vec<u8>>, v: &CssValue)
    requires
        old(sc).wf(),
    ensures
        final(sc).view() == define_multi(old(sc).view(), texts_view(names@), v.view()),
        final(sc).frames.len() == old(sc).frames.len(),
{
    let ghost ns = texts_view(names@);
    if names.len() == 1 {
        sc.define(slice_to_vec(names[0].as_slice()), clone_css(v));
        return;
    }
    let its = each_items_exec(clone_css(v));
    let ghost iv = crate::value::css_values_view(its@);
    let ghost s0 = sc.view();
    let mut k: usize = 0;
    while k < names.len()
        invariant
            k <= names.len(),
            ns == texts_view(names@),
            iv == crate::value::css_values_view(its@),
            iv == each_items(v.view()),
            sc.wf(),
            sc.frames.len() == old(sc).frames.len(),
            s0 == old(sc).view(),
            sc.view() == define_all(s0, ns, iv, k as int),
        decreases names.len() - k,
    {
        let x = if k < its.len() {
            clone_css(&its[k])
        } else {
            CssValue::Null
        };
        sc.define(slice_to_vec(names[k].as_slice()), x);
        k += 1;
    }
}

fn clone_opt(v: &Option<CssValue>) -> (r: Option<CssValue>)
    ensures
        match (r, *v) {
            (Some(a), Some(b)) => a.view() == b.view(),
            (None, None) => true,
            _ => false,
        },
{
    match v {
        Some(x) => Some(clone_css(x)),
        None => None,
    }
}

/// One iteration of `@each`.
fn each_step(
    names: &Vec<Vec<u8>>,
    items: &Vec<CssValue>,
    k: usize,
    body: &Vec<Item>,
    cx: &mut Context,
    rule: &mut Option<Rule>,
    buf: &mut CssBuf,
    sels: &Vec<Vec<u8>>,
    fuel: usize,
) -> (r: Result<(), Error>)
    requires
        old(cx).scope.wf(),
        k < items.len(),
    ensures
        match r {
            Ok(()) => spec_each_loop(
                texts_view(names@),
                crate::value::css_values_view(items@),
                *body,
                world(*old(cx), *old(rule), *old(buf)),
                texts_view(sels@),
                fuel as nat,
                k as int,
            ) == spec_each_loop(
                texts_view(names@),
                crate::value::css_values_view(items@),
                *body,
                world(*final(cx), *final(rule), *final(buf)),
                texts_view(sels@),
                fuel as nat,
                k + 1,
            ),
            Err(e) => spec_each_loop(
                texts_view(names@),
                crate::value::css_values_view(items@),
                *body,
                world(*old(cx), *old(rule), *old(buf)),
                texts_view(sels@),
                fuel as nat,
                k as int,
            ) == Err::<WorldV, ErrorV>(e.view()),
        },
        r is Ok ==> kept(*old(cx), *old(buf), *final(cx), *final(buf)),
    decreases fuel, body, 1nat, 0nat,
{
    let ghost wk = world(*cx, *rule, *buf);
    define_multi_exec(&mut cx.scope, names, &items[k]);
    proof {
        assert(world(*cx, *rule, *buf) == with_scope(
            wk,
            define_multi(wk.scope, texts_view(names@), crate::value::css_values_view(items@)[k as int]),
        ));
    }
    handle_body(body, cx, rule, buf, sels, fuel)
}

/// The iterations of `@each` from the `k`th item on.
fn each_loop(
    names: &Vec<Vec<u8>>,
    items: &Vec<CssValue>,
    k: usize,
    body: &Vec<Item>,
    cx: &mut Context,
    rule: &mut Option<Rule>,
    buf: &mut CssBuf,
    sels: &Vec<Vec<u8>>,
    fuel: usize,
) -> (r: Result<(), Error>)
    requires
        old(cx).scope.wf(),
        k <= items.len(),
    ensures
        handled(
            r,
            spec_each_loop(
                texts_view(names@),
                crate::value::css_values_view(items@),
                *body,
                world(*old(cx), *old(rule), *old(buf)),
                texts_view(sels@),
                fuel as nat,
                k as int,
            ),
            world(*final(cx), *final(rule), *final(buf)),
        ),
        r is Ok ==> kept(*old(cx), *old(buf), *final(cx), *final(buf)),
    decreases fuel, body, 1nat, items.len() - k,
{
    if k >= items.len() {
        return Ok(());
    }
    match each_step(names, items, k, body, cx, rule, buf, sels, fuel) {
        Err(e) => {
            return Err(e);
        },
        Ok(()) => {},
    }
    each_loop(names, items, k + 1, body, cx, rule, buf, sels, fuel)
}

fn handle_each(
    names: &Vec<Vec<u8>>,
    values: &Value,
    body: &Vec<Item>,
    cx: &mut Context,
    rule: &mut Option<Rule>,
    buf: &mut CssBuf,
    sels: &Vec<Vec<u8>>,
    fuel: usize,
) -> (r: Result<(), Error>)
    requires
        old(cx).scope.wf(),
    ensures
        handled(
            r,
            spec_each(
                *names,
                *values,
                *body,
                world(*old(cx), *old(rule), *old(buf)),
                texts_view(sels@),
                fuel as nat,
            ),
            world(*final(cx), *final(rule), *final(buf)),
        ),
        r is Ok ==> kept(*old(cx), *old(buf), *final(cx), *final(buf)),
    decreases fuel, body, 2nat, 0nat,
{
    match check_body(body.as_slice(), BodyContext::Control) {
        Err(e) => {
            return Err(e);
        },
        Ok(()) => {},
    }
    let v = match eval(values, &cx.scope, &cx.functions, cx.limit) {
        Err(e) => {
            return Err(e);
        },
        Ok(v) => v,
    };
    let ghost ns = texts_view(names@);
    let ghost w0 = world(*cx, *rule, *buf);
    let ghost sv = texts_view(sels@);
    let ghost nf = cx.scope.frames.len();
    let ghost ind = buf.indent;
    let ghost saved_spec = Seq::new(ns.len(), |i: int| local_get(w0.scope, ns[i]));
    let mut saved: Vec<Option<CssValue>> = Vec::new();
    let mut i: usize = 0;
    while i < names.len()
        invariant
            i <= names.len(),
            ns == texts_view(names@),
            cx.scope.view() == w0.scope,
            cx.scope.wf(),
            saved.len() == i,
            forall|k: int| 0 <= k < i ==> opt_css_view(#[trigger] saved@[k]) == saved_spec[k],
            saved_spec == Seq::new(ns.len(), |i: int| local_get(w0.scope, ns[i])),
        decreases names.len() - i,
    {
        let x = cx.scope.get_local(names[i].as_slice());
        saved.push(x);
        i += 1;
    }
    let ghost vv = v.view();
    let items = each_items_exec(v);
    let ghost iv = crate::value::css_values_view(items@);
    assert(iv == each_items(vv));
    match each_loop(names, &items, 0, body, cx, rule, buf, sels, fuel) {
        Err(e) => {
            return Err(e);
        },
        Ok(()) => {},
    }
    let ghost w2 = world(*cx, *rule, *buf);
    let mut j: usize = 0;
    while j < names.len()
        invariant
            j <= names.len(),
            ns == texts_view(names@),
            cx.scope.wf(),
            cx.scope.frames.len() == nf,
            content_shape(cx.contents@) == content_shape(old(cx).contents@),
            cx.limit == old(cx).limit,
            saved.len() == names.len(),
            forall|q: int| 0 <= q < names.len() ==> opt_css_view(#[trigger] saved@[q]) == saved_spec[q],
            saved_spec.len() == ns.len(),
            world(*cx, *rule, *buf) == with_scope(
                w2,
                restore_all(w2.scope, ns, saved_spec, j as int),
            ),
        decreases names.len() - j,
    {
        let prev = clone_opt(&saved[j]);
        cx.scope.restore_local(slice_to_vec(names[j].as_slice()), prev);
        j += 1;
    }
    Ok(())
}

/// The whole number that a fixed point value is, if it is one.
fn whole(v: i128) -> (r: Option<i128>)
    ensures
        match r {
            Some(q) => (v as int) % crate::value::one() == 0 && (v as int) / crate::value::one()
                == q && q * crate::value::one() == v,
            None => (v as int) % crate::value::one() != 0,
        },
{
    if v >= 0 {
        let u = v as u128;
        if u % 10000000000u128 == 0 {
            let q = (u / 10000000000u128) as i128;
            assert(q * 10000000000 == v) by (nonlinear_arith)
                requires
                    u == v,
                    u % 10000000000 == 0,
                    q == u / 10000000000,
            ;
            Some(q)
        } else {
            None
        }
    } else {
        let u: u128 = if v == i128::MIN {
            (i128::MAX as u128) + 1
        } else {
            (-v) as u128
        };
        assert(u == -v);
        if u % 10000000000u128 == 0 {
            let q = (u / 10000000000u128) as i128;
            assert(q * 10000000000 == u && (v as int) % 10000000000 == 0 && (v as int)
                / 10000000000 == -q) by (nonlinear_arith)
                requires
                    u == -v,
                    u % 10000000000 == 0,
                    q == u / 10000000000,
            ;
            Some(-q)
        } else {
            assert((v as int) % 10000000000 != 0) by (nonlinear_arith)
                requires
                    u == -v,
                    u % 10000000000 != 0,
            ;
            None
        }
    }
}

fn not_a_number(v: &CssValue, what: &str) -> (e: Error)
    ensures
        e.view() == ErrorV::S(format_value(v.view()) + kw(what)),
{
    let mut m = format_value_exec(v);
    push_str(&mut m, what);
    Error::S(m)
}

/// The bounds of `@for`.
fn range_exec(f: &CssValue, t: &CssValue, inclusive: bool) -> (r: Result<
    (i128, i128, i128, Vec<u8>),
    Error,
>)
    ensures
        match r {
            Ok((a, step, count, unit)) => spec_range(f.view(), t.view(), inclusive) == Ok::<
                (int, int, int, Seq<u8>),
                ErrorV,
            >((a as int, step as int, count as int, unit@)) && (step == 1 || step == -1) && count
                >= 0 && i128::MIN <= a * crate::value::one() <= i128::MAX && (count > 0 ==> i128::MIN
                <= (a + (count - 1) * step) * crate::value::one() <= i128::MAX),
            Err(e) => spec_range(f.view(), t.view(), inclusive) == Err::<
                (int, int, int, Seq<u8>),
                ErrorV,
            >(e.view()),
        },
{
    reveal(spec_range);
    let x = match f {
        CssValue::Numeric(x) => x,
        _ => {
            return Err(not_a_number(f, " is not a number."));
        },
    };
    let y = match t {
        CssValue::Numeric(y) => y,
        _ => {
            return Err(not_a_number(t, " is not a number."));
        },
    };
    let a = match whole(x.value) {
        Some(a) => a,
        None => {
            return Err(not_a_number(f, " is not an int."));
        },
    };
    let b = match whole(y.value) {
        Some(b) => b,
        None => {
            return Err(not_a_number(t, " is not an int."));
        },
    };
    if x.unit.len() > 0 && y.unit.len() > 0 && !bytes_eq(x.unit.as_slice(), y.unit.as_slice()) {
        return Err(Error::S(str_bytes("Incompatible units.")));
    }
    assert(-17014118346046923173168730372 <= a <= 17014118346046923173168730371);
    assert(-17014118346046923173168730372 <= b <= 17014118346046923173168730371);
    let step: i128 = if a <= b {
        1
    } else {
        -1
    };
    let dist: i128 = if a <= b {
        b - a
    } else {
        a - b
    };
    let count: i128 = if inclusive {
        dist + 1
    } else {
        dist
    };
    let unit = if x.unit.len() > 0 {
        slice_to_vec(x.unit.as_slice())
    } else {
        slice_to_vec(y.unit.as_slice())
    };
    Ok((a, step, count, unit))
}

/// One iteration of `@for`, for the value `cur` of the `k`th step.
fn for_step(
    name: &Vec<u8>,
    cur: i128,
    unit: &Vec<u8>,
    body: &Vec<Item>,
    cx: &mut Context,
    rule: &mut Option<Rule>,
    buf: &mut CssBuf,
    sels: &Vec<Vec<u8>>,
    fuel: usize,
    Ghost(a): Ghost<int>,
    Ghost(step): Ghost<int>,
    Ghost(count): Ghost<int>,
    Ghost(k): Ghost<int>,
) -> (r: Result<(), Error>)
    requires
        old(cx).scope.wf(),
        0 <= k < count,
        cur == a + k * step,
        i128::MIN <= cur * crate::value::one() <= i128::MAX,
    ensures
        match r {
            Ok(()) => spec_for_loop(
                name@,
                a,
                step,
                count,
                unit@,
                *body,
                world(*old(cx), *old(rule), *old(buf)),
                texts_view(sels@),
                fuel as nat,
                k,
            ) == spec_for_loop(
                name@,
                a,
                step,
                count,
                unit@,
                *body,
                world(*final(cx), *final(rule), *final(buf)),
                texts_view(sels@),
                fuel as nat,
                k + 1,
            ),
            Err(e) => spec_for_loop(
                name@,
                a,
                step,
                count,
                unit@,
                *body,
                world(*old(cx), *old(rule), *old(buf)),
                texts_view(sels@),
                fuel as nat,
                k,
            ) == Err::<WorldV, ErrorV>(e.view()),
        },
        r is Ok ==> kept(*old(cx), *old(buf), *final(cx), *final(buf)),
    decreases fuel, body, 1nat, 0nat,
{
    let ghost wk = world(*cx, *rule, *buf);
    let v = CssValue::Numeric(
        crate::sass::Number { value: cur * 10000000000i128, unit: slice_to_vec(unit.as_slice()) },
    );
    cx.scope.push_frame();
    cx.scope.define(slice_to_vec(name.as_slice()), v);
    proof {
        assert(world(*cx, *rule, *buf) == with_scope(
            wk,
            scope_define(
                wk.scope.push(seq![]),
                name@,
                CssValueV::Numeric(
                    NumberV { value: ((a + k * step) * crate::value::one()) as i128, unit: unit@ },
                ),
            ),
        ));
    }
    match handle_body(body, cx, rule, buf, sels, fuel) {
        Err(e) => {
            return Err(e);
        },
        Ok(()) => {},
    }
    cx.scope.pop_frame();
    Ok(())
}

/// The iterations of `@for` from the `k`th value, `cur`, on.
fn for_loop(
    name: &Vec<u8>,
    a: i128,
    step: i128,
    count: i128,
    unit: &Vec<u8>,
    k: i128,
    cur: i128,
    body: &Vec<Item>,
    cx: &mut Context,
    rule: &mut Option<Rule>,
    buf: &mut CssBuf,
    sels: &Vec<Vec<u8>>,
    fuel: usize,
) -> (r: Result<(), Error>)
    requires
        old(cx).scope.wf(),
        0 <= k <= count,
        step == 1 || step == -1,
        k < count ==> cur == a + k * step,
        i128::MIN <= a * crate::value::one() <= i128::MAX,
        count > 0 ==> i128::MIN <= (a + (count - 1) * step) * crate::value::one() <= i128::MAX,
    ensures
        handled(
            r,
            spec_for_loop(
                name@,
                a as int,
                step as int,
                count as int,
                unit@,
                *body,
                world(*old(cx), *old(rule), *old(buf)),
                texts_view(sels@),
                fuel as nat,
                k as int,
            ),
            world(*final(cx), *final(rule), *final(buf)),
        ),
        r is Ok ==> kept(*old(cx), *old(buf), *final(cx), *final(buf)),
    decreases fuel, body, 1nat, count - k,
{
    if k >= count {
        return Ok(());
    }
    assert(i128::MIN <= cur * 10000000000 <= i128::MAX) by (nonlinear_arith)
        requires
            cur == a + k * step,
            0 <= k < count,
            step == 1 || step == -1,
            i128::MIN <= a * 10000000000 <= i128::MAX,
            i128::MIN <= (a + (count - 1) * step) * 10000000000 <= i128::MAX,
    ;
    match for_step(
        name,
        cur,
        unit,
        body,
        cx,
        rule,
        buf,
        sels,
        fuel,
        Ghost(a as int),
        Ghost(step as int),
        Ghost(count as int),
        Ghost(k as int),
    ) {
        Err(e) => {
            return Err(e);
        },
        Ok(()) => {},
    }
    if k + 1 < count {
        assert(cur + step == a + (k + 1) * step) by (nonlinear_arith)
            requires
                cur == a + k * step,
        ;
        assert(i128::MIN <= cur + step <= i128::MAX) by (nonlinear_arith)
            requires
                cur + step == a + (k + 1) * step,
                0 <= k + 1 < count,
                step == 1 || step == -1,
                i128::MIN <= a * 10000000000 <= i128::MAX,
                i128::MIN <= (a + (count - 1) * step) * 10000000000 <= i128::MAX,
        ;
        for_loop(name, a, step, count, unit, k + 1, cur + step, body, cx, rule, buf, sels, fuel)
    } else {
        for_loop(name, a, step, count, unit, k + 1, cur, body, cx, rule, buf, sels, fuel)
    }
}

fn handle_for(
    name: &Vec<u8>,
    from: &Value,
    to: &Value,
    inclusive: bool,
    body: &Vec<Item>,
    cx: &mut Context,
    rule: &mut Option<Rule>,
    buf: &mut CssBuf,
    sels: &Vec<Vec<u8>>,
    fuel: usize,
) -> (r: Result<(), Error>)
    requires
        old(cx).scope.wf(),
    ensures
        handled(
            r,
            spec_for(
                *name,
                *from,
                *to,
                inclusive,
                *body,
                world(*old(cx), *old(rule), *old(buf)),
                texts_view(sels@),
                fuel as nat,
            ),
            world(*final(cx), *final(rule), *final(buf)),
        ),
        r is Ok ==> kept(*old(cx), *old(buf), *final(cx), *final(buf)),
    decreases fuel, body, 2nat, 0nat,
{
    let f = match eval(from, &cx.scope, &cx.functions, cx.limit) {
        Err(e) => {
            return Err(e);
        },
        Ok(f) => f,
    };
    let t = match eval(to, &cx.scope, &cx.functions, cx.limit) {
        Err(e) => {
            return Err(e);
        },
        Ok(t) => t,
    };
    let (a, step, count, unit) = match range_exec(&f, &t, inclusive) {
        Err(e) => {
            return Err(e);
        },
        Ok(r) => r,
    };
    match check_body(body.as_slice(), BodyContext::Control) {
        Err(e) => {
            return Err(e);
        },
        Ok(()) => {},
    }
    let ghost w0 = world(*cx, *rule, *buf);
    let ghost sv = texts_view(sels@);
    let ghost nf = cx.scope.frames.len();
    let ghost ind = buf.indent;
    for_loop(name, a, step, count, &unit, 0, a, body, cx, rule, buf, sels, fuel)
}

/// The iterations of `@while`, with `f` iterations left.
fn while_loop(
    cond: &Value,
    body: &Vec<Item>,
    cx: &mut Context,
    rule: &mut Option<Rule>,
    buf: &mut CssBuf,
    sels: &Vec<Vec<u8>>,
    f: usize,
) -> (r: Result<(), Error>)
    requires
        old(cx).scope.wf(),
    ensures
        handled(
            r,
            spec_while_loop(
                *cond,
                *body,
                world(*old(cx), *old(rule), *old(buf)),
                texts_view(sels@),
                f as nat,
            ),
            world(*final(cx), *final(rule), *final(buf)),
        ),
        r is Ok ==> kept(*old(cx), *old(buf), *final(cx), *final(buf)),
    decreases f, body, 1nat, 0nat,
{
    let c = match eval(cond, &cx.scope, &cx.functions, cx.limit) {
        Err(e) => {
            return Err(e);
        },
        Ok(c) => c,
    };
    if !is_true_exec(&c) {
        return Ok(());
    }
    if f == 0 {
        return Err(Error::S(str_bytes("Too many iterations.")));
    }
    match handle_body(body, cx, rule, buf, sels, f - 1) {
        Err(e) => {
            return Err(e);
        },
        Ok(()) => {},
    }
    while_loop(cond, body, cx, rule, buf, sels, f - 1)
}

fn handle_while(
    cond: &Value,
    body: &Vec<Item>,
    cx: &mut Context,
    rule: &mut Option<Rule>,
    buf: &mut CssBuf,
    sels: &Vec<Vec<u8>>,
    fuel: usize,
) -> (r: Result<(), Error>)
    requires
        old(cx).scope.wf(),
    ensures
        handled(
            r,
            spec_while(
                *cond,
                *body,
                world(*old(cx), *old(rule), *old(buf)),
                texts_view(sels@),
                fuel as nat,
            ),
            world(*final(cx), *final(rule), *final(buf)),
        ),
        r is Ok ==> kept(*old(cx), *old(buf), *final(cx), *final(buf)),
    decreases fuel, body, 2nat, 0nat,
{
    match check_body(body.as_slice(), BodyContext::Control) {
        Err(e) => {
            return Err(e);
        },
        Ok(()) => {},
    }
    cx.scope.push_frame();
    match while_loop(cond, body, cx, rule, buf, sels, fuel) {
        Err(e) => {
            return Err(e);
        },
        Ok(()) => {},
    }
    cx.scope.pop_frame();
    Ok(())
}

fn is_css_import_exec(t: &[u8]) -> (r: bool)
    ensures
        r == is_css_import(t@),
{
    let css = ".css".as_bytes();
    tag_at(t, 0, "http://".as_bytes()) || tag_at(t, 0, "https://".as_bytes()) || tag_at(
        t,
        0,
        "//".as_bytes(),
    ) || (css.len() <= t.len() && tag_at(t, t.len() - css.len(), css)) || tag_at(
        t,
        0,
        "url(".as_bytes(),
    )
}

fn import_one(
    name: &SassString,
    args: &Value,
    pos: SourcePos,
    cx: &mut Context,
    rule: &mut Option<Rule>,
    buf: &mut CssBuf,
) -> (r: Result<(), Error>)
    ensures
        handled(
            r,
            spec_import_one(*name, *args, pos, world(*old(cx), *old(rule), *old(buf))),
            world(*final(cx), *final(rule), *final(buf)),
        ),
        r is Ok ==> kept(*old(cx), *old(buf), *final(cx), *final(buf)),
{
    reveal(spec_import_one);
    let t = match text_of_exec(name, &cx.scope, &cx.functions, cx.limit) {
        Err(e) => {
            return Err(e);
        },
        Ok(t) => t,
    };
    let args_null = match args {
        Value::Null => true,
        _ => false,
    };
    if args_null && !is_css_import_exec(t.as_slice()) {
        return Err(Error::BadCall(str_bytes("Can't find stylesheet to import."), pos, None));
    }
    let a = match eval(args, &cx.scope, &cx.functions, cx.limit) {
        Err(e) => {
            return Err(e);
        },
        Ok(a) => a,
    };
    let mut text: Vec<u8> = Vec::new();
    match name.quotes {
        Quotes::Double => {
            text.push(34u8);
            push_bytes(&mut text, t.as_slice());
            text.push(34u8);
        },
        Quotes::Single => {
            text.push(39u8);
            push_bytes(&mut text, t.as_slice());
            text.push(39u8);
        },
        Quotes::NoQuotes => {
            push_bytes(&mut text, t.as_slice());
        },
    }
    if !is_null_exec(&a) {
        text.push(32u8);
        let at = format_value_exec(&a);
        push_bytes(&mut text, at.as_slice());
    }
    proof {
        assert(text@ =~= quoted(t@, name.quotes) + if is_null(a.view()) {
            seq![]
        } else {
            seq![32u8] + format_value(a.view())
        });
    }
    let in_rule = match rule {
        Some(r) => r.selectors.len() > 0,
        None => false,
    };
    if in_rule {
        match rule {
            Some(r) => {
                push_item(r, BodyItem::Import(text));
            },
            None => {},
        }
    } else if buf.indent == 0 {
        let ghost h0 = cx.head@;
        let ghost tv = text@;
        cx.head.push(text);
        proof {
            assert(texts_view(cx.head@) =~= texts_view(h0).push(tv));
        }
    } else {
        let mut line: Vec<u8> = Vec::new();
        push_spaces(&mut line, buf.indent);
        push_str(&mut line, "@import ");
        push_bytes(&mut line, text.as_slice());
        push_str(&mut line, ";\n");
        buf.add(line.as_slice());
    }
    Ok(())
}

proof fn lemma_config_err(cs: Seq<Configure>, sc: ScopeV, fns: Seq<MixinV>, fuel: nat, k: int, n: int)
    requires
        0 < k <= n <= cs.len(),
        config_frame(cs, sc, fns, fuel, k) is Err,
    ensures
        config_frame(cs, sc, fns, fuel, n) == config_frame(cs, sc, fns, fuel, k),
    decreases n - k,
{
    if n > k {
        lemma_config_err(cs, sc, fns, fuel, k, n - 1);
    }
}

/// The frame of the variables that a module is configured with.
fn config_frame_exec(cs: &Vec<Configure>, sc: &Scope, fns: &Vec<MixinDef>, fuel: usize) -> (r: Result<Vec<Var>, Error>)
    ensures
        match r {
            Ok(fr) => config_frame(cs@, sc.view(), mixins_view(fns@), fuel as nat, cs.len() as int) == Ok::<FrameV, ErrorV>(
                frame_view(fr@),
            ),
            Err(e) => config_frame(cs@, sc.view(), mixins_view(fns@), fuel as nat, cs.len() as int) == Err::<FrameV, ErrorV>(
                e.view(),
            ),
        },
{
    let mut fr: Vec<Var> = Vec::new();
    proof {
        assert(frame_view(fr@) =~= Seq::<(Seq<u8>, CssValueV)>::empty());
    }
    let mut i: usize = 0;
    while i < cs.len()
        invariant
            i <= cs.len(),
            config_frame(cs@, sc.view(), mixins_view(fns@), fuel as nat, i as int) == Ok::<FrameV, ErrorV>(frame_view(fr@)),
        decreases cs.len() - i,
    {
        let c = &cs[i];
        let found = if c.default {
            sc.get(c.name.as_slice())
        } else {
            None
        };
        let x = match found {
            Some(x) => x,
            None => match eval(&c.value, sc, fns, fuel) {
                Ok(x) => x,
                Err(e) => {
                    proof {
                        lemma_config_err(cs@, sc.view(), mixins_view(fns@), fuel as nat, i + 1, cs.len() as int);
                    }
                    return Err(e);
                },
            },
        };
        if frame_find_exec(&fr, c.name.as_slice()).is_some() {
            proof {
                lemma_config_err(cs@, sc.view(), mixins_view(fns@), fuel as nat, i + 1, cs.len() as int);
            }
            return Err(Error::S(str_bytes("The same variable may only be configured once.")));
        }
        let ghost f0 = frame_view(fr@);
        let ghost xv = x.view();
        fr.push(Var { name: slice_to_vec(c.name.as_slice()), value: x });
        proof {
            assert(frame_view(fr@) =~= f0.push((c.name@, xv)));
        }
        i += 1;
    }
    Ok(fr)
}

/// What the module being handled sets aside while another one runs.
pub struct ModuleSaved {
    pub scope: Scope,
    pub mixins: Vec<MixinDef>,
    pub contents: Vec<ContentCall>,
    pub fwd_vars: Vec<Var>,
    pub fwd_mixins: Vec<MixinDef>,
    pub functions: Vec<MixinDef>,
}

/// The steps of `@use` or `@forward` before the module runs: the
/// stylesheet, and what the module being handled sets aside.
fn module_enter_exec(
    name: &SassString,
    with: &Vec<Configure>,
    pos: SourcePos,
    forward: bool,
    cx: &mut Context,
    buf: &CssBuf,
) -> (r: Result<Option<(Vec<u8>, Rc<Vec<Item>>, ModuleSaved)>, Error>)
    ensures
        match r {
            Ok(None) => {
                &&& spec_module_enter(*name, *with, pos, world(*old(cx), None, *buf), forward)
                    == Ok::<Option<(Seq<u8>, Rc<Vec<Item>>, WorldV)>, ErrorV>(None)
                &&& *final(cx) == *old(cx)
            },
            Ok(Some((t, items, saved))) => {
                &&& spec_module_enter(*name, *with, pos, world(*old(cx), None, *buf), forward)
                    == Ok::<Option<(Seq<u8>, Rc<Vec<Item>>, WorldV)>, ErrorV>(
                    Some((t@, items, world(*final(cx), None, *buf))),
                )
                &&& saved.scope == old(cx).scope
                &&& saved.mixins == old(cx).mixins
                &&& saved.contents == old(cx).contents
                &&& saved.fwd_vars == old(cx).fwd_vars
                &&& saved.fwd_mixins == old(cx).fwd_mixins
                &&& saved.functions == old(cx).functions
                &&& final(cx).limit == old(cx).limit
                &&& final(cx).head == old(cx).head
                &&& final(cx).messages == old(cx).messages
                &&& final(cx).files == old(cx).files
                &&& final(cx).scope.wf()
            },
            Err(e) => {
                &&& spec_module_enter(*name, *with, pos, world(*old(cx), None, *buf), forward)
                    == Err::<Option<(Seq<u8>, Rc<Vec<Item>>, WorldV)>, ErrorV>(e.view())
                &&& *final(cx) == *old(cx)
            },
        },
{
    let ghost w0 = world(*cx, None, *buf);
    let t = match text_of_exec(name, &cx.scope, &cx.functions, cx.limit) {
        Err(e) => {
            return Err(e);
        },
        Ok(t) => t,
    };
    if is_builtin_module_exec(t.as_slice()) {
        if with.len() > 0 {
            return Err(
                Error::BadCall(str_bytes("Built-in modules can't be configured."), pos, None),
            );
        }
        return Ok(None);
    }
    let c = import_candidates_exec(t.as_slice());
    let found = match find_file_exec(&cx.files, c[0].as_slice()) {
        Some(x) => Some(x),
        None => match find_file_exec(&cx.files, c[1].as_slice()) {
            Some(x) => Some(x),
            None => find_file_exec(&cx.files, c[2].as_slice()),
        },
    };
    let items = match found {
        None => {
            if forward {
                let mut m = str_bytes("Module ");
                push_bytes(&mut m, t.as_slice());
                push_str(&mut m, " not found");
                return Err(Error::S(m));
            } else {
                return Err(
                    Error::BadCall(str_bytes("Can't find stylesheet to import."), pos, None),
                );
            }
        },
        Some(None) => {
            return Err(Error::S(str_bytes("Parse error.")));
        },
        Some(Some(items)) => items,
    };
    let fr = match config_frame_exec(with, &cx.scope, &cx.functions, cx.limit) {
        Err(e) => {
            return Err(e);
        },
        Ok(fr) => fr,
    };
    let ghost frv = frame_view(fr@);
    let mut frames: Vec<Vec<Var>> = Vec::new();
    frames.push(fr);
    let mut scope = Scope { frames };
    let mut mixins: Vec<MixinDef> = Vec::new();
    let mut contents: Vec<ContentCall> = Vec::new();
    let mut fwd_vars: Vec<Var> = Vec::new();
    let mut fwd_mixins: Vec<MixinDef> = Vec::new();
    core::mem::swap(&mut cx.scope, &mut scope);
    core::mem::swap(&mut cx.mixins, &mut mixins);
    core::mem::swap(&mut cx.contents, &mut contents);
    core::mem::swap(&mut cx.fwd_vars, &mut fwd_vars);
    core::mem::swap(&mut cx.fwd_mixins, &mut fwd_mixins);
    let mut functions: Vec<MixinDef> = Vec::new();
    core::mem::swap(&mut cx.functions, &mut functions);
    proof {
        assert(cx.scope.view() =~= seq![frv]);
        assert(mixins_view(cx.mixins@) =~= Seq::<MixinV>::empty());
        assert(contents_view(cx.contents@) =~= Seq::<ContentV>::empty());
        assert(frame_view(cx.fwd_vars@) =~= Seq::<(Seq<u8>, CssValueV)>::empty());
        assert(mixins_view(cx.fwd_mixins@) =~= Seq::<MixinV>::empty());
        assert(mixins_view(cx.functions@) =~= Seq::<MixinV>::empty());
    }
    Ok(Some((t, items, ModuleSaved { scope, mixins, contents, fwd_vars, fwd_mixins, functions })))
}

/// The members of the module that ran: its global variables and those it
/// forwards, and its mixins and those it forwards, each with `p` before
/// its name.
fn module_members(cx: &Context, p: &[u8]) -> (r: (Vec<Var>, Vec<MixinDef>))
    requires
        cx.scope.wf(),
    ensures
        frame_view(r.0@) == prefixed_vars(
            frame_view(cx.scope.frames@[0]@) + frame_view(cx.fwd_vars@),
            p@,
        ),
        mixins_view(r.1@) == prefixed_mixins(
            mixins_view(cx.mixins@) + mixins_view(cx.fwd_mixins@),
            p@,
        ),
{
    let mut vs: Vec<Var> = Vec::new();
    prefix_vars_into(&cx.scope.frames[0], p, &mut vs);
    prefix_vars_into(&cx.fwd_vars, p, &mut vs);
    let mut ms: Vec<MixinDef> = Vec::new();
    prefix_mixins_into(&cx.mixins, p, &mut ms);
    prefix_mixins_into(&cx.fwd_mixins, p, &mut ms);
    proof {
        let a = frame_view(cx.scope.frames@[0]@);
        let b = frame_view(cx.fwd_vars@);
        assert(prefixed_vars(a + b, p@) =~= prefixed_vars(a, p@) + prefixed_vars(b, p@));
        let c = mixins_view(cx.mixins@);
        let d = mixins_view(cx.fwd_mixins@);
        assert(prefixed_mixins(c + d, p@) =~= prefixed_mixins(c, p@) + prefixed_mixins(d, p@));
        assert(prefixed_vars(Seq::empty(), p@) =~= Seq::<(Seq<u8>, CssValueV)>::empty());
    }
    (vs, ms)
}

/// Adds the variables of `fr` to `out`, each with `p` before its name.
fn prefix_vars_into(fr: &Vec<Var>, p: &[u8], out: &mut Vec<Var>)
    ensures
        frame_view(final(out)@) == frame_view(old(out)@) + prefixed_vars(frame_view(fr@), p@),
{
    let ghost o0 = frame_view(out@);
    let ghost fv = frame_view(fr@);
    let mut i: usize = 0;
    while i < fr.len()
        invariant
            i <= fr.len(),
            fv == frame_view(fr@),
            frame_view(out@) == o0 + prefixed_vars(fv, p@).take(i as int),
        decreases fr.len() - i,
    {
        let mut n = slice_to_vec(p);
        push_bytes(&mut n, fr[i].name.as_slice());
        let x = clone_css(&fr[i].value);
        let ghost ov = frame_view(out@);
        out.push(Var { name: n, value: x });
        proof {
            assert(frame_view(out@) =~= ov.push((p@ + fv[i as int].0, fv[i as int].1)));
            assert(frame_view(out@) =~= o0 + prefixed_vars(fv, p@).take(i + 1));
        }
        i += 1;
    }
    proof {
        assert(prefixed_vars(fv, p@).take(fr.len() as int) =~= prefixed_vars(fv, p@));
    }
}

/// Adds the mixins of `ms` to `out`, each with `p` before its name.
fn prefix_mixins_into(ms: &Vec<MixinDef>, p: &[u8], out: &mut Vec<MixinDef>)
    ensures
        mixins_view(final(out)@) == mixins_view(old(out)@) + prefixed_mixins(mixins_view(ms@), p@),
{
    let ghost o0 = mixins_view(out@);
    let ghost mv = mixins_view(ms@);
    let mut i: usize = 0;
    while i < ms.len()
        invariant
            i <= ms.len(),
            mv == mixins_view(ms@),
            mixins_view(out@) == o0 + prefixed_mixins(mv, p@).take(i as int),
        decreases ms.len() - i,
    {
        let mut n = slice_to_vec(p);
        push_bytes(&mut n, ms[i].name.as_slice());
        let ghost ov = mixins_view(out@);
        out.push(MixinDef { name: n, decl: share(&ms[i].decl) });
        proof {
            assert(mixins_view(out@) =~= ov.push((p@ + mv[i as int].0, mv[i as int].1)));
            assert(mixins_view(out@) =~= o0 + prefixed_mixins(mv, p@).take(i + 1));
        }
        i += 1;
    }
    proof {
        assert(prefixed_mixins(mv, p@).take(ms.len() as int) =~= prefixed_mixins(mv, p@));
    }
}

/// Puts back what the module being handled set aside.
fn module_restore(cx: &mut Context, saved: ModuleSaved)
    ensures
        final(cx).scope == saved.scope,
        final(cx).mixins == saved.mixins,
        final(cx).contents == saved.contents,
        final(cx).fwd_vars == saved.fwd_vars,
        final(cx).fwd_mixins == saved.fwd_mixins,
        final(cx).functions == saved.functions,
        final(cx).limit == old(cx).limit,
        final(cx).modules == old(cx).modules,
        final(cx).head == old(cx).head,
        final(cx).messages == old(cx).messages,
        final(cx).files == old(cx).files,
{
    let ModuleSaved { scope, mixins, contents, fwd_vars, fwd_mixins, functions } = saved;
    cx.scope = scope;
    cx.mixins = mixins;
    cx.contents = contents;
    cx.fwd_vars = fwd_vars;
    cx.fwd_mixins = fwd_mixins;
    cx.functions = functions;
}

fn namespace_exec(t: &[u8]) -> (r: Vec<u8>)
    ensures
        r@ == namespace(t@),
{
    let k = last_segment_exec(t);
    let mut a = k;
    if a < t.len() && t[a] == 95u8 {
        a = a + 1;
    }
    let mut e = t.len();
    if e - a >= 5 && bytes_eq(slice_subrange(t, e - 5, e), ".scss".as_bytes()) {
        e = e - 5;
    }
    let r = slice_to_vec(slice_subrange(t, a, e));
    proof {
        let seg = t@.skip(k as int);
        let aa = if seg.len() > 0 && seg[0] == 95u8 {
            seg.drop_first()
        } else {
            seg
        };
        assert(aa =~= t@.subrange(a as int, t.len() as int));
        if aa.len() >= 5 {
            assert(aa.skip(aa.len() - 5) =~= t@.subrange(t.len() - 5, t.len() as int));
            assert(aa.take(aa.len() - 5) =~= t@.subrange(a as int, t.len() - 5));
        }
        assert(r@ =~= namespace(t@));
    }
    r
}

fn use_prefix_exec(t: &[u8], as_n: &UseAs) -> (r: Vec<u8>)
    ensures
        r@ == use_prefix(t@, *as_n),
{
    match as_n {
        UseAs::Star => Vec::new(),
        UseAs::Prefix(p) => slice_to_vec(p.as_slice()),
        UseAs::Name(n) => {
            let mut r = slice_to_vec(n.as_slice());
            push_str(&mut r, ".");
            r
        },
        UseAs::KeepName => {
            let mut r = namespace_exec(t);
            push_str(&mut r, ".");
            r
        },
    }
}

fn names_contain(ns: &Vec<Vec<u8>>, n: &[u8]) -> (r: bool)
    ensures
        r == names_view(ns@).contains(n@),
{
    let mut i: usize = 0;
    while i < ns.len()
        invariant
            i <= ns.len(),
            forall|k: int| 0 <= k < i ==> names_view(ns@)[k] != n@,
        decreases ns.len() - i,
    {
        if bytes_eq(ns[i].as_slice(), n) {
            assert(names_view(ns@)[i as int] == n@);
            return true;
        }
        i += 1;
    }
    false
}

fn exposed_exec(e: &Expose, n: &[u8], var: bool) -> (r: bool)
    ensures
        r == exposed(e.view(), n@, var),
{
    match e {
        Expose::All => true,
        Expose::Show(fs, vs) => if var {
            names_contain(vs, n)
        } else {
            names_contain(fs, n)
        },
        Expose::Hide(fs, vs) => if var {
            !names_contain(vs, n)
        } else {
            !names_contain(fs, n)
        },
    }
}

/// The steps of `@use` or `@forward` up to the end of the module: the
/// stylesheet is entered and its items handled; what the module being
/// handled set aside comes back with the url and the module's rule.
#[verifier::rlimit(40)]
fn run_module(
    item: &Item,
    name: &SassString,
    with: &Vec<Configure>,
    pos: SourcePos,
    forward: bool,
    cx: &mut Context,
    buf: &mut CssBuf,
    fuel: usize,
) -> (r: Result<Option<(Vec<u8>, ModuleSaved, Option<Rule>)>, Error>)
    requires
        old(cx).scope.wf(),
        match *item {
            Item::Use(n, _, wi, p) => n == *name && wi == *with && p == pos && !forward,
            Item::Forward(n, _, _, wi, p) => n == *name && wi == *with && p == pos && forward,
            _ => false,
        },
    ensures
        match r {
            Err(e) => {
                &&& spec_module_fresh(*item, world(*old(cx), None, *old(buf)), fuel as nat)
                    == Err::<Option<(Seq<u8>, WorldV)>, ErrorV>(e.view())
                &&& spec_module_enter(*name, *with, pos, world(*old(cx), None, *old(buf)), forward)
                    is Err ==> *final(cx) == *old(cx) && *final(buf) == *old(buf)
            },
            Ok(None) => {
                &&& spec_module_fresh(*item, world(*old(cx), None, *old(buf)), fuel as nat)
                    == Ok::<Option<(Seq<u8>, WorldV)>, ErrorV>(None)
                &&& *final(cx) == *old(cx)
                &&& *final(buf) == *old(buf)
            },
            Ok(Some((t, saved, mrule))) => {
                &&& spec_module_fresh(*item, world(*old(cx), None, *old(buf)), fuel as nat)
                    == Ok::<Option<(Seq<u8>, WorldV)>, ErrorV>(
                    Some((t@, world(*final(cx), mrule, *final(buf)))),
                )
                &&& saved.scope == old(cx).scope
                &&& saved.mixins == old(cx).mixins
                &&& saved.contents == old(cx).contents
                &&& saved.fwd_vars == old(cx).fwd_vars
                &&& saved.fwd_mixins == old(cx).fwd_mixins
                &&& saved.functions == old(cx).functions
                &&& final(cx).limit == old(cx).limit
                &&& final(cx).scope.wf()
                &&& final(buf).indent == old(buf).indent
            },
        },
    decreases fuel, item, 0nat, 0nat,
{
    let (t, items, saved) = match module_enter_exec(name, with, pos, forward, cx, buf) {
        Err(e) => {
            return Err(e);
        },
        Ok(None) => {
            return Ok(None);
        },
        Ok(Some(x)) => x,
    };
    if fuel == 0 {
        return Err(Error::S(str_bytes("Too deeply nested imports.")));
    }
    let mut mrule: Option<Rule> = None;
    let sels: Vec<Vec<u8>> = Vec::new();
    proof {
        assert(texts_view(sels@) =~= Seq::<Seq<u8>>::empty());
    }
    match handle_body(&items, cx, &mut mrule, buf, &sels, fuel - 1) {
        Err(e) => {
            return Err(e);
        },
        Ok(()) => {},
    }
    Ok(Some((t, saved, mrule)))
}

/// The world after a module, for the one that loaded it: what `w` had,
/// with the css text, imports, messages, stylesheets and loaded modules
/// of `w2`.
pub open spec fn after_module(w: WorldV, w2: WorldV) -> WorldV {
    WorldV {
        scope: w.scope,
        head: w2.head,
        msgs: w2.msgs,
        mixins: w.mixins,
        contents: w.contents,
        files: w2.files,
        fwd_vars: w.fwd_vars,
        fwd_mixins: w.fwd_mixins,
        functions: w.functions,
        limit: w.limit,
        modules: w2.modules,
        rule: w.rule,
        buf: w2.buf,
    }
}

proof fn lemma_prefix_empty(vs: FrameV, ms: Seq<MixinV>)
    ensures
        prefixed_vars(vs, seq![]) == vs,
        prefixed_mixins(ms, seq![]) == ms,
{
    assert forall|i: int| 0 <= i < vs.len() implies prefixed_vars(vs, seq![])[i] == vs[i] by {
        assert(Seq::<u8>::empty() + vs[i].0 =~= vs[i].0);
    }
    assert(prefixed_vars(vs, seq![]) =~= vs);
    assert forall|i: int| 0 <= i < ms.len() implies prefixed_mixins(ms, seq![])[i] == ms[i] by {
        assert(Seq::<u8>::empty() + ms[i].0 =~= ms[i].0);
    }
    assert(prefixed_mixins(ms, seq![]) =~= ms);
}

/// A copy of a loaded module.
fn copy_module(m: &ModuleEntry) -> (r: ModuleEntry)
    ensures
        module_view(r) == module_view(*m),
{
    let empty: Vec<u8> = Vec::new();
    let mut vars: Vec<Var> = Vec::new();
    prefix_vars_into(&m.vars, empty.as_slice(), &mut vars);
    let mut mixins: Vec<MixinDef> = Vec::new();
    prefix_mixins_into(&m.mixins, empty.as_slice(), &mut mixins);
    let mut functions: Vec<MixinDef> = Vec::new();
    prefix_mixins_into(&m.functions, empty.as_slice(), &mut functions);
    proof {
        lemma_prefix_empty(frame_view(m.vars@), mixins_view(m.mixins@));
        lemma_prefix_empty(frame_view(m.vars@), mixins_view(m.functions@));
        assert(frame_view(vars@) =~= frame_view(m.vars@));
        assert(mixins_view(mixins@) =~= mixins_view(m.mixins@));
        assert(mixins_view(functions@) =~= mixins_view(m.functions@));
    }
    ModuleEntry { url: slice_to_vec(m.url.as_slice()), vars, mixins, functions }
}

/// The index of the loaded module that is last with the url `t`.
fn find_module_exec(ms: &Vec<ModuleEntry>, t: &[u8]) -> (r: Option<usize>)
    ensures
        match r {
            Some(k) => k < ms.len() && find_module(modules_view(ms@), t@) == Some(
                module_view(ms@[k as int]),
            ),
            None => find_module(modules_view(ms@), t@) is None,
        },
{
    let ghost mv = modules_view(ms@);
    let mut k: usize = ms.len();
    proof {
        assert(mv.take(k as int) =~= mv);
    }
    while k > 0
        invariant
            k <= ms.len(),
            mv == modules_view(ms@),
            find_module(mv, t@) == find_module(mv.take(k as int), t@),
        decreases k,
    {
        let ghost pre = mv.take(k as int);
        proof {
            assert(pre.drop_last() =~= mv.take(k - 1));
        }
        if bytes_eq(ms[k - 1].url.as_slice(), t) {
            return Some(k - 1);
        }
        k -= 1;
    }
    None
}

/// `@use` or `@forward` up to the end of the module: a module loaded
/// before is found again; else the stylesheet runs, and is kept as
/// loaded. The module comes back with its url.
#[verifier::rlimit(60)]
fn load_fresh(
    item: &Item,
    name: &SassString,
    with: &Vec<Configure>,
    pos: SourcePos,
    forward: bool,
    cx: &mut Context,
    buf: &mut CssBuf,
    fuel: usize,
) -> (r: Result<Option<(Vec<u8>, ModuleEntry)>, Error>)
    requires
        old(cx).scope.wf(),
        match *item {
            Item::Use(n, _, wi, p) => n == *name && wi == *with && p == pos && !forward,
            Item::Forward(n, _, _, wi, p) => n == *name && wi == *with && p == pos && forward,
            _ => false,
        },
        cached_module(*item, world(*old(cx), None, *old(buf))) is None,
    ensures
        match r {
            Err(e) => {
                &&& spec_module_run(*item, world(*old(cx), None, *old(buf)), fuel as nat)
                    == Err::<Option<(Seq<u8>, ModuleV, WorldV)>, ErrorV>(e.view())
                &&& cached_module(*item, world(*old(cx), None, *old(buf))) is None
                    && spec_module_enter(*name, *with, pos, world(*old(cx), None, *old(buf)), forward)
                    is Err ==> *final(cx) == *old(cx) && *final(buf) == *old(buf)
            },
            Ok(None) => {
                &&& spec_module_run(*item, world(*old(cx), None, *old(buf)), fuel as nat)
                    == Ok::<Option<(Seq<u8>, ModuleV, WorldV)>, ErrorV>(None)
                &&& *final(cx) == *old(cx)
                &&& *final(buf) == *old(buf)
            },
            Ok(Some((t, m))) => {
                &&& spec_module_run(*item, world(*old(cx), None, *old(buf)), fuel as nat) matches Ok(
                    Some((tt, mm, w2)),
                ) && tt == t@ && mm == module_view(m) && world(*final(cx), None, *final(buf))
                    == after_module(world(*old(cx), None, *old(buf)), w2)
                &&& final(cx).scope == old(cx).scope
                &&& final(cx).contents == old(cx).contents
                &&& final(cx).limit == old(cx).limit
                &&& final(buf).indent == old(buf).indent
            },
        },
    decreases fuel, item, 0nat, 1nat,
{
    let ghost w0 = world(*cx, None, *buf);
    let (t, saved, mrule) = match run_module(item, name, with, pos, forward, cx, buf, fuel) {
        Err(e) => {
            return Err(e);
        },
        Ok(None) => {
            return Ok(None);
        },
        Ok(Some(x)) => x,
    };
    let ghost w2 = world(*cx, mrule, *buf);
    let empty: Vec<u8> = Vec::new();
    let (vs, ms) = module_members(cx, empty.as_slice());
    let mut fs: Vec<MixinDef> = Vec::new();
    prefix_mixins_into(&cx.functions, empty.as_slice(), &mut fs);
    module_restore(cx, saved);
    proof {
        lemma_prefix_empty(module_vars(w2), module_mixins(w2));
        lemma_prefix_empty(module_vars(w2), w2.functions);
        assert(mixins_view(fs@) =~= w2.functions);
    }
    let m = ModuleEntry { url: slice_to_vec(t.as_slice()), vars: vs, mixins: ms, functions: fs };
    assert(module_view(m) == module_of(t@, w2));
    let stored = copy_module(&m);
    let ghost mods0 = modules_view(cx.modules@);
    cx.modules.push(stored);
    proof {
        assert(modules_view(cx.modules@) =~= mods0.push(module_of(t@, w2)));
        assert(world(*cx, None, *buf) == after_module(
            w0,
            with_modules(w2, w2.modules.push(module_of(t@, w2))),
        ));
    }
    Ok(Some((t, m)))
}

/// The loaded module that `find_module` gives has the url it was asked
/// for.
proof fn lemma_find_module(ms: Seq<ModuleV>, t: Seq<u8>)
    ensures
        find_module(ms, t) matches Some(m) ==> m.0 == t,
    decreases ms.len(),
{
    if ms.len() > 0 && ms.last().0 != t {
        lemma_find_module(ms.drop_last(), t);
    }
}

/// `@use` or `@forward` up to the end of the module: a module loaded
/// before is found again; else the stylesheet runs, and is kept as
/// loaded. The module comes back with its url.
fn load_module(
    item: &Item,
    name: &SassString,
    with: &Vec<Configure>,
    pos: SourcePos,
    forward: bool,
    cx: &mut Context,
    buf: &mut CssBuf,
    fuel: usize,
) -> (r: Result<Option<(Vec<u8>, ModuleEntry)>, Error>)
    requires
        old(cx).scope.wf(),
        match *item {
            Item::Use(n, _, wi, p) => n == *name && wi == *with && p == pos && !forward,
            Item::Forward(n, _, _, wi, p) => n == *name && wi == *with && p == pos && forward,
            _ => false,
        },
    ensures
        match r {
            Err(e) => {
                &&& spec_module_run(*item, world(*old(cx), None, *old(buf)), fuel as nat)
                    == Err::<Option<(Seq<u8>, ModuleV, WorldV)>, ErrorV>(e.view())
                &&& cached_module(*item, world(*old(cx), None, *old(buf))) is None
                    && spec_module_enter(*name, *with, pos, world(*old(cx), None, *old(buf)), forward)
                    is Err ==> *final(cx) == *old(cx) && *final(buf) == *old(buf)
            },
            Ok(None) => {
                &&& spec_module_run(*item, world(*old(cx), None, *old(buf)), fuel as nat)
                    == Ok::<Option<(Seq<u8>, ModuleV, WorldV)>, ErrorV>(None)
                &&& *final(cx) == *old(cx)
                &&& *final(buf) == *old(buf)
            },
            Ok(Some((t, m))) => {
                &&& spec_module_run(*item, world(*old(cx), None, *old(buf)), fuel as nat) matches Ok(
                    Some((tt, mm, w2)),
                ) && tt == t@ && mm == module_view(m) && world(*final(cx), None, *final(buf))
                    == after_module(world(*old(cx), None, *old(buf)), w2)
                &&& final(cx).scope == old(cx).scope
                &&& final(cx).contents == old(cx).contents
                &&& final(cx).limit == old(cx).limit
                &&& final(buf).indent == old(buf).indent
            },
        },
    decreases fuel, item, 0nat, 2nat,
{
    let ghost w0 = world(*cx, None, *buf);
    let mut cached: Option<usize> = None;
    match text_of_exec(name, &cx.scope, &cx.functions, cx.limit) {
        Ok(t) => {
            if !is_builtin_module_exec(t.as_slice()) {
                cached = find_module_exec(&cx.modules, t.as_slice());
                match cached {
                    Some(k) => {
                        let m = copy_module(&cx.modules[k]);
                        proof {
                            assert(modules_view(cx.modules@)[k as int] == module_view(cx.modules@[k as int]));
                            assert(cached_module(*item, w0) == Some(module_view(m)));
                            lemma_find_module(w0.modules, t@);
                            assert(module_view(m).0 == t@);
                            assert(after_module(w0, w0) == w0);
                        }
                        return Ok(Some((t, m)));
                    },
                    None => {},
                }
            }
        },
        Err(_) => {},
    }
    assert(cached_module(*item, w0) is None);
    load_fresh(item, name, with, pos, forward, cx, buf, fuel)
}

/// `@use` of a stylesheet: the module is loaded, then its members are
/// defined under the prefix in the scope, the mixins and the functions.
fn handle_use(
    item: &Item,
    name: &SassString,
    as_n: &UseAs,
    with: &Vec<Configure>,
    pos: SourcePos,
    cx: &mut Context,
    rule: &mut Option<Rule>,
    buf: &mut CssBuf,
    fuel: usize,
) -> (r: Result<(), Error>)
    requires
        old(cx).scope.wf(),
        *item == Item::Use(*name, *as_n, *with, pos),
    ensures
        handled(
            r,
            spec_module_item(
                *item,
                world(*old(cx), *old(rule), *old(buf)),
                Seq::empty(),
                fuel as nat,
            ),
            world(*final(cx), *final(rule), *final(buf)),
        ),
        r is Ok ==> kept(*old(cx), *old(buf), *final(cx), *final(buf)),
        r is Err && fails_at_once(*item, world(*old(cx), *old(rule), *old(buf))) ==> world(
            *final(cx),
            *final(rule),
            *final(buf),
        ) == world(*old(cx), *old(rule), *old(buf)),
    decreases fuel, item, 0nat, 3nat,
{
    let ghost w0 = world(*cx, *rule, *buf);
    let ghost wn = world(*cx, None, *buf);
    proof {
        assert(spec_module_enter(*name, *with, pos, w0, false) == spec_module_enter(
            *name,
            *with,
            pos,
            wn,
            false,
        ));
        assert(cached_module(*item, w0) == cached_module(*item, wn));
        assert(spec_module_fresh(*item, w0, fuel as nat) == spec_module_fresh(
            *item,
            wn,
            fuel as nat,
        ));
    }
    let (t, m) = match load_module(item, name, with, pos, false, cx, buf, fuel) {
        Err(e) => {
            return Err(e);
        },
        Ok(None) => {
            return Ok(());
        },
        Ok(Some(x)) => x,
    };
    let ghost w1 = world(*cx, None, *buf);
    let p = use_prefix_exec(t.as_slice(), as_n);
    let mut vs: Vec<Var> = Vec::new();
    prefix_vars_into(&m.vars, p.as_slice(), &mut vs);
    let mut ms: Vec<MixinDef> = Vec::new();
    prefix_mixins_into(&m.mixins, p.as_slice(), &mut ms);
    let mut fs: Vec<MixinDef> = Vec::new();
    prefix_mixins_into(&m.functions, p.as_slice(), &mut fs);
    proof {
        assert(frame_view(vs@) =~= prefixed_vars(frame_view(m.vars@), p@));
        assert(mixins_view(ms@) =~= prefixed_mixins(mixins_view(m.mixins@), p@));
        assert(mixins_view(fs@) =~= prefixed_mixins(mixins_view(m.functions@), p@));
    }
    use_define(cx, vs, ms);
    let ghost f0 = mixins_view(cx.functions@);
    let ghost fv = mixins_view(fs@);
    cx.functions.append(&mut fs);
    proof {
        assert(mixins_view(cx.functions@) =~= f0 + fv);
        let mv = module_view(m);
        match cached_module(*item, wn) {
            Some(mc) => {
                assert(spec_module_run(*item, w0, fuel as nat) == Ok::<
                    Option<(Seq<u8>, ModuleV, WorldV)>,
                    ErrorV,
                >(Some((mc.0, mc, w0))));
            },
            None => {},
        }
        let w2 = choose|w2: WorldV|
            spec_module_run(*item, wn, fuel as nat) == Ok::<Option<(Seq<u8>, ModuleV, WorldV)>, ErrorV>(
                Some((t@, mv, w2)),
            ) && w1 == after_module(wn, w2);
        assert(spec_module_run(*item, wn, fuel as nat) == Ok::<
            Option<(Seq<u8>, ModuleV, WorldV)>,
            ErrorV,
        >(Some((t@, mv, w2))));
        assert(world(*cx, *rule, *buf) == use_leave(w0, p@, mv, w2));
    }
    Ok(())
}

/// Defines the members of a module in the scope and the mixins.
fn use_define(cx: &mut Context, vs: Vec<Var>, ms: Vec<MixinDef>)
    requires
        old(cx).scope.wf(),
    ensures
        final(cx).scope.view() == define_vars(old(cx).scope.view(), frame_view(vs@), vs.len() as int),
        final(cx).scope.frames.len() == old(cx).scope.frames.len(),
        mixins_view(final(cx).mixins@) == mixins_view(old(cx).mixins@) + mixins_view(ms@),
        final(cx).contents == old(cx).contents,
        final(cx).fwd_vars == old(cx).fwd_vars,
        final(cx).fwd_mixins == old(cx).fwd_mixins,
        final(cx).functions == old(cx).functions,
        final(cx).limit == old(cx).limit,
        final(cx).modules == old(cx).modules,
        final(cx).head == old(cx).head,
        final(cx).messages == old(cx).messages,
        final(cx).files == old(cx).files,
{
    let ghost vsv = frame_view(vs@);
    let ghost sc0 = cx.scope.view();
    let mut i: usize = 0;
    while i < vs.len()
        invariant
            i <= vs.len(),
            vsv == frame_view(vs@),
            cx.scope.view() == define_vars(sc0, vsv, i as int),
            cx.scope.frames.len() == old(cx).scope.frames.len(),
            old(cx).scope.wf(),
            cx.mixins == old(cx).mixins,
            cx.contents == old(cx).contents,
            cx.fwd_vars == old(cx).fwd_vars,
            cx.fwd_mixins == old(cx).fwd_mixins,
            cx.functions == old(cx).functions,
            cx.limit == old(cx).limit,
            cx.modules == old(cx).modules,
            cx.head == old(cx).head,
            cx.messages == old(cx).messages,
            cx.files == old(cx).files,
        decreases vs.len() - i,
    {
        cx.scope.define(slice_to_vec(vs[i].name.as_slice()), clone_css(&vs[i].value));
        i += 1;
    }
    let ghost m0 = mixins_view(cx.mixins@);
    let ghost mv = mixins_view(ms@);
    let mut ms = ms;
    cx.mixins.append(&mut ms);
    proof {
        assert(mixins_view(cx.mixins@) =~= m0 + mv);
    }
}

/// `@forward` of a stylesheet: the module is loaded, then its members,
/// under the prefix and as `show`/`hide` lets them through, are added to
/// those that the module being handled forwards.
fn handle_forward(
    item: &Item,
    name: &SassString,
    as_n: &UseAs,
    expose: &Expose,
    with: &Vec<Configure>,
    pos: SourcePos,
    cx: &mut Context,
    rule: &mut Option<Rule>,
    buf: &mut CssBuf,
    fuel: usize,
) -> (r: Result<(), Error>)
    requires
        old(cx).scope.wf(),
        *item == Item::Forward(*name, *as_n, *expose, *with, pos),
    ensures
        handled(
            r,
            spec_module_item(
                *item,
                world(*old(cx), *old(rule), *old(buf)),
                Seq::empty(),
                fuel as nat,
            ),
            world(*final(cx), *final(rule), *final(buf)),
        ),
        r is Ok ==> kept(*old(cx), *old(buf), *final(cx), *final(buf)),
        r is Err && fails_at_once(*item, world(*old(cx), *old(rule), *old(buf))) ==> world(
            *final(cx),
            *final(rule),
            *final(buf),
        ) == world(*old(cx), *old(rule), *old(buf)),
    decreases fuel, item, 0nat, 3nat,
{
    let ghost w0 = world(*cx, *rule, *buf);
    let ghost wn = world(*cx, None, *buf);
    proof {
        assert(spec_module_enter(*name, *with, pos, w0, true) == spec_module_enter(
            *name,
            *with,
            pos,
            wn,
            true,
        ));
        assert(cached_module(*item, w0) == cached_module(*item, wn));
        assert(spec_module_fresh(*item, w0, fuel as nat) == spec_module_fresh(
            *item,
            wn,
            fuel as nat,
        ));
    }
    let (t, m) = match load_module(item, name, with, pos, true, cx, buf, fuel) {
        Err(e) => {
            return Err(e);
        },
        Ok(None) => {
            return Ok(());
        },
        Ok(Some(x)) => x,
    };
    let ghost w1 = world(*cx, None, *buf);
    let p = match as_n {
        UseAs::Prefix(p) => slice_to_vec(p.as_slice()),
        _ => Vec::new(),
    };
    assert(p@ == forward_prefix(*as_n));
    let mut vs: Vec<Var> = Vec::new();
    prefix_vars_into(&m.vars, p.as_slice(), &mut vs);
    let mut ms: Vec<MixinDef> = Vec::new();
    prefix_mixins_into(&m.mixins, p.as_slice(), &mut ms);
    proof {
        assert(frame_view(vs@) =~= prefixed_vars(frame_view(m.vars@), p@));
        assert(mixins_view(ms@) =~= prefixed_mixins(mixins_view(m.mixins@), p@));
    }
    forward_add(cx, &vs, &ms, expose);
    proof {
        let mv = module_view(m);
        match cached_module(*item, wn) {
            Some(mc) => {
                assert(spec_module_run(*item, w0, fuel as nat) == Ok::<
                    Option<(Seq<u8>, ModuleV, WorldV)>,
                    ErrorV,
                >(Some((mc.0, mc, w0))));
            },
            None => {},
        }
        let w2 = choose|w2: WorldV|
            spec_module_run(*item, wn, fuel as nat) == Ok::<Option<(Seq<u8>, ModuleV, WorldV)>, ErrorV>(
                Some((t@, mv, w2)),
            ) && w1 == after_module(wn, w2);
        assert(world(*cx, *rule, *buf) == forward_leave(w0, p@, expose.view(), mv, w2));
    }
    Ok(())
}

/// Adds the members that `show`/`hide` lets through to those that the
/// module being handled forwards.
fn forward_add(cx: &mut Context, vs: &Vec<Var>, ms: &Vec<MixinDef>, expose: &Expose)
    ensures
        frame_view(final(cx).fwd_vars@) == frame_view(old(cx).fwd_vars@) + exposed_vars(
            frame_view(vs@),
            expose.view(),
        ),
        mixins_view(final(cx).fwd_mixins@) == mixins_view(old(cx).fwd_mixins@) + exposed_mixins(
            mixins_view(ms@),
            expose.view(),
        ),
        final(cx).scope == old(cx).scope,
        final(cx).mixins == old(cx).mixins,
        final(cx).contents == old(cx).contents,
        final(cx).functions == old(cx).functions,
        final(cx).limit == old(cx).limit,
        final(cx).modules == old(cx).modules,
        final(cx).head == old(cx).head,
        final(cx).messages == old(cx).messages,
        final(cx).files == old(cx).files,
{
    let ghost vsv = frame_view(vs@);
    let ghost msv = mixins_view(ms@);
    let ghost e = expose.view();
    let ghost f0 = frame_view(cx.fwd_vars@);
    let ghost g0 = mixins_view(cx.fwd_mixins@);
    let mut i: usize = 0;
    proof {
        assert(vsv.take(0) =~= Seq::<(Seq<u8>, CssValueV)>::empty());
        assert(f0 + exposed_vars(vsv.take(0), e) =~= f0);
    }
    while i < vs.len()
        invariant
            i <= vs.len(),
            vsv == frame_view(vs@),
            e == expose.view(),
            frame_view(cx.fwd_vars@) == f0 + exposed_vars(vsv.take(i as int), e),
            mixins_view(cx.fwd_mixins@) == g0,
            cx.scope == old(cx).scope,
            cx.mixins == old(cx).mixins,
            cx.contents == old(cx).contents,
            cx.functions == old(cx).functions,
            cx.limit == old(cx).limit,
            cx.modules == old(cx).modules,
            cx.head == old(cx).head,
            cx.messages == old(cx).messages,
            cx.files == old(cx).files,
        decreases vs.len() - i,
    {
        proof {
            assert(vsv.take(i + 1).drop_last() =~= vsv.take(i as int));
            assert(vsv.take(i + 1).last() == vsv[i as int]);
        }
        if exposed_exec(expose, vs[i].name.as_slice(), true) {
            let ghost fv = frame_view(cx.fwd_vars@);
            let v = Var { name: slice_to_vec(vs[i].name.as_slice()), value: clone_css(&vs[i].value) };
            cx.fwd_vars.push(v);
            proof {
                assert(frame_view(cx.fwd_vars@) =~= fv.push(vsv[i as int]));
                assert(frame_view(cx.fwd_vars@) =~= f0 + exposed_vars(vsv.take(i + 1), e));
            }
        } else {
            proof {
                assert(f0 + exposed_vars(vsv.take(i + 1), e) =~= f0 + exposed_vars(vsv.take(i as int), e));
            }
        }
        i += 1;
    }
    proof {
        assert(vsv.take(vs.len() as int) =~= vsv);
    }
    let mut j: usize = 0;
    proof {
        assert(msv.take(0) =~= Seq::<MixinV>::empty());
        assert(g0 + exposed_mixins(msv.take(0), e) =~= g0);
    }
    let ghost fvs = frame_view(cx.fwd_vars@);
    while j < ms.len()
        invariant
            j <= ms.len(),
            msv == mixins_view(ms@),
            e == expose.view(),
            mixins_view(cx.fwd_mixins@) == g0 + exposed_mixins(msv.take(j as int), e),
            frame_view(cx.fwd_vars@) == fvs,
            cx.scope == old(cx).scope,
            cx.mixins == old(cx).mixins,
            cx.contents == old(cx).contents,
            cx.functions == old(cx).functions,
            cx.limit == old(cx).limit,
            cx.modules == old(cx).modules,
            cx.head == old(cx).head,
            cx.messages == old(cx).messages,
            cx.files == old(cx).files,
        decreases ms.len() - j,
    {
        proof {
            assert(msv.take(j + 1).drop_last() =~= msv.take(j as int));
            assert(msv.take(j + 1).last() == msv[j as int]);
        }
        if exposed_exec(expose, ms[j].name.as_slice(), false) {
            let ghost gv = mixins_view(cx.fwd_mixins@);
            let m = MixinDef { name: slice_to_vec(ms[j].name.as_slice()), decl: share(&ms[j].decl) };
            cx.fwd_mixins.push(m);
            proof {
                assert(mixins_view(cx.fwd_mixins@) =~= gv.push(msv[j as int]));
                assert(mixins_view(cx.fwd_mixins@) =~= g0 + exposed_mixins(msv.take(j + 1), e));
            }
        } else {
            proof {
                assert(g0 + exposed_mixins(msv.take(j + 1), e) =~= g0 + exposed_mixins(msv.take(j as int), e));
            }
        }
        j += 1;
    }
    proof {
        assert(msv.take(ms.len() as int) =~= msv);
    }
}

fn last_segment_exec(t: &[u8]) -> (k: usize)
    ensures
        k == last_segment(t@, t.len() as int),
        k <= t.len(),
{
    let mut k: usize = t.len();
    while k > 0
        invariant
            k <= t.len(),
            last_segment(t@, t.len() as int) == last_segment(t@, k as int),
        decreases k,
    {
        if t[k - 1] == 47u8 {
            return k;
        }
        k -= 1;
    }
    0
}

/// The names under which `@import` looks for the stylesheet `t`.
fn import_candidates_exec(t: &[u8]) -> (c: Vec<Vec<u8>>)
    ensures
        texts_view(c@) == import_candidates(t@),
        c.len() == 3,
{
    let k = last_segment_exec(t);
    let mut c: Vec<Vec<u8>> = Vec::new();
    let a = slice_to_vec(t);
    let mut b = slice_to_vec(t);
    push_str(&mut b, ".scss");
    let mut p = slice_to_vec(slice_subrange(t, 0, k));
    p.push(95u8);
    push_bytes(&mut p, slice_subrange(t, k, t.len()));
    push_str(&mut p, ".scss");
    let ghost cand = import_candidates(t@);
    proof {
        assert(a@ == cand[0]);
        assert(b@ =~= cand[1]);
        assert(t@.take(k as int) =~= t@.subrange(0, k as int));
        assert(t@.skip(k as int) =~= t@.subrange(k as int, t.len() as int));
        assert(p@ =~= cand[2]);
    }
    c.push(a);
    c.push(b);
    c.push(p);
    proof {
        assert(texts_view(c@) =~= cand);
    }
    c
}

/// The first stylesheet named `n`.
fn find_file_exec(fs: &Vec<SourceFile>, n: &[u8]) -> (r: Option<Option<Rc<Vec<Item>>>>)
    ensures
        r == find_file(files_view(fs@), n@),
{
    let ghost fv = files_view(fs@);
    let mut i: usize = 0;
    proof {
        assert(fv.skip(0) =~= fv);
    }
    while i < fs.len()
        invariant
            i <= fs.len(),
            fv == files_view(fs@),
            find_file(fv, n@) == find_file(fv.skip(i as int), n@),
        decreases fs.len() - i,
    {
        proof {
            assert(fv.skip(i as int)[0] == fv[i as int]);
            assert(fv.skip(i as int).drop_first() =~= fv.skip(i + 1));
        }
        if bytes_eq(fs[i].name.as_slice(), n) {
            return match &fs[i].items {
                Some(items) => Some(Some(share(items))),
                None => Some(None),
            };
        }
        i += 1;
    }
    proof {
        assert(fv.skip(i as int).len() == 0);
    }
    None
}

/// The stylesheet that one name of an `@import` without arguments loads.
fn import_file_exec(name: &SassString, args: &Value, cx: &Context, rule: &Option<Rule>, buf: &CssBuf) -> (r: Result<
    Option<Rc<Vec<Item>>>,
    Error,
>)
    ensures
        match r {
            Ok(x) => import_file(*name, *args, world(*cx, *rule, *buf)) == Ok::<
                Option<Rc<Vec<Item>>>,
                ErrorV,
            >(x),
            Err(e) => import_file(*name, *args, world(*cx, *rule, *buf)) == Err::<
                Option<Rc<Vec<Item>>>,
                ErrorV,
            >(e.view()),
        },
{
    match args {
        Value::Null => {},
        _ => {
            return Ok(None);
        },
    }
    let t = match text_of_exec(name, &cx.scope, &cx.functions, cx.limit) {
        Err(e) => {
            return Err(e);
        },
        Ok(t) => t,
    };
    let c = import_candidates_exec(t.as_slice());
    let found = match find_file_exec(&cx.files, c[0].as_slice()) {
        Some(x) => Some(x),
        None => match find_file_exec(&cx.files, c[1].as_slice()) {
            Some(x) => Some(x),
            None => find_file_exec(&cx.files, c[2].as_slice()),
        },
    };
    match found {
        None => Ok(None),
        Some(None) => Err(Error::S(str_bytes("Parse error."))),
        Some(Some(items)) => Ok(Some(items)),
    }
}

/// `@import`: each name in order loads a stylesheet, whose items are
/// handled where the import stands, or is a plain css import.
fn handle_imports(
    item: &Item,
    names: &Vec<SassString>,
    args: &Value,
    pos: SourcePos,
    cx: &mut Context,
    rule: &mut Option<Rule>,
    buf: &mut CssBuf,
    sels: &Vec<Vec<u8>>,
    fuel: usize,
) -> (r: Result<(), Error>)
    requires
        old(cx).scope.wf(),
        *item == Item::Import(*names, *args, pos),
    ensures
        handled(
            r,
            spec_import_item(
                *item,
                world(*old(cx), *old(rule), *old(buf)),
                texts_view(sels@),
                fuel as nat,
                names.len() as int,
            ),
            world(*final(cx), *final(rule), *final(buf)),
        ),
        r is Ok ==> kept(*old(cx), *old(buf), *final(cx), *final(buf)),
    decreases fuel, item, 0nat, 0nat,
{
    let ghost w0 = world(*cx, *rule, *buf);
    let ghost sv = texts_view(sels@);
    let ghost nf = cx.scope.frames.len();
    let ghost ind = buf.indent;
    let mut i: usize = 0;
    while i < names.len()
        invariant
            i <= names.len(),
            *item == Item::Import(*names, *args, pos),
            w0 == world(*old(cx), *old(rule), *old(buf)),
            sv == texts_view(sels@),
            cx.scope.frames.len() == nf,
            nf > 0,
            content_shape(cx.contents@) == content_shape(old(cx).contents@),
            cx.limit == old(cx).limit,
            nf == old(cx).scope.frames.len(),
            buf.indent == ind,
            ind == old(buf).indent,
            spec_import_item(*item, w0, sv, fuel as nat, i as int) == Ok::<WorldV, ErrorV>(
                world(*cx, *rule, *buf),
            ),
        decreases names.len() - i,
    {
        let ghost wi = world(*cx, *rule, *buf);
        let r = match import_file_exec(&names[i], args, cx, rule, buf) {
            Err(e) => Err(e),
            Ok(Some(items)) => {
                if fuel == 0 {
                    Err(Error::S(str_bytes("Too deeply nested imports.")))
                } else {
                    handle_body(&items, cx, rule, buf, sels, fuel - 1)
                }
            },
            Ok(None) => import_one(&names[i], args, pos, cx, rule, buf),
        };
        match r {
            Err(e) => {
                proof {
                    assert(spec_import_item(*item, w0, sv, fuel as nat, i + 1) == Err::<
                        WorldV,
                        ErrorV,
                    >(e.view()));
                    lemma_imports_err(*item, w0, sv, fuel as nat, i + 1, names.len() as int);
                }
                return Err(e);
            },
            Ok(()) => {},
        }
        i += 1;
    }
    Ok(())
}

proof fn lemma_imports_err(item: Item, w: WorldV, sels: Seq<Seq<u8>>, fuel: nat, k: int, n: int)
    requires
        item is Import,
        0 < k <= n <= item->Import_0.len(),
        spec_import_item(item, w, sels, fuel, k) is Err,
    ensures
        spec_import_item(item, w, sels, fuel, n) == spec_import_item(item, w, sels, fuel, k),
    decreases n - k,
{
    if n > k {
        lemma_imports_err(item, w, sels, fuel, k, n - 1);
    }
}

// ---------------------------------------------------------------------
// Parsed sources
// ---------------------------------------------------------------------

/// A parsed source: the items of a Sass stylesheet, or plain css text,
/// which is written as it is.
#[derive(Debug)]
pub enum Parsed {
    Scss(Vec<Item>),
    Css(Vec<u8>),
}

/// What handling a parsed source gives: the items of a stylesheet are
/// handled in order; css text is added to the output.
pub open spec fn spec_handle_parsed(items: Parsed, w: WorldV, sels: Seq<Seq<u8>>, fuel: nat) -> Result<
    WorldV,
    ErrorV,
> {
    match items {
        Parsed::Scss(its) => spec_handle_body(its@, w, sels, fuel, its.len() as int),
        Parsed::Css(t) => Ok(with_buf(w, buf_add(w.buf, t@))),
    }
}

/// Handles a parsed source: the items of a stylesheet in order, or css
/// text added to the output.
pub fn handle_parsed(
    items: Parsed,
    cx: &mut Context,
    rule: &mut Option<Rule>,
    buf: &mut CssBuf,
    sels: &Vec<Vec<u8>>,
    fuel: usize,
) -> (r: Result<(), Error>)
    requires
        old(cx).scope.wf(),
    ensures
        handled(
            r,
            spec_handle_parsed(
                items,
                world(*old(cx), *old(rule), *old(buf)),
                texts_view(sels@),
                fuel as nat,
            ),
            world(*final(cx), *final(rule), *final(buf)),
        ),
        items is Css ==> r is Ok,
        r is Ok ==> kept(*old(cx), *old(buf), *final(cx), *final(buf)),
        items is Scss && r is Err ==> exists|k: int|
            stopped_at(
                items->Scss_0@,
                world(*old(cx), *old(rule), *old(buf)),
                texts_view(sels@),
                fuel as nat,
                k,
                world(*final(cx), *final(rule), *final(buf)),
            ),
{
    match items {
        Parsed::Scss(its) => handle_body(&its, cx, rule, buf, sels, fuel),
        Parsed::Css(t) => {
            buf.add(t.as_slice());
            Ok(())
        },
    }
}


// ---------------------------------------------------------------------
// Laws
// ---------------------------------------------------------------------

/// The checks of a body go through its items in order: two bodies one
/// after the other pass when both do, and otherwise give the first
/// error.
pub proof fn law_check_body_sequence(a: Seq<Item>, b: Seq<Item>, context: BodyContext)
    ensures
        spec_check_body(a + b, context) == match spec_check_body(a, context) {
            Err(e) => Err(e),
            Ok(_) => spec_check_body(b, context),
        },
    decreases a.len(),
{
    if a.len() == 0 {
        assert(a + b =~= b);
    } else {
        assert((a + b).drop_first() =~= a.drop_first() + b);
        assert((a + b)[0] == a[0]);
        law_check_body_sequence(a.drop_first(), b, context);
    }
}

/// The first item that does not pass the checks decides them: the body
/// gives the error that this item alone gives, whatever follows it.
pub proof fn law_check_body_first_error(body: Seq<Item>, context: BodyContext, k: int)
    requires
        0 <= k < body.len(),
        check_item(&body[k], context) is Some,
        forall|j: int| 0 <= j < k ==> check_item(&body[j], context) is None,
    ensures
        spec_check_body(body, context) == spec_check_body(body.subrange(k, k + 1), context),
        spec_check_body(body, context) == Err::<(), Error>(check_item(&body[k], context).unwrap()),
    decreases k,
{
    let one = body.subrange(k, k + 1);
    assert(one.drop_first() =~= Seq::<Item>::empty());
    assert(one[0] == body[k]);
    if k > 0 {
        let rest = body.drop_first();
        assert forall|j: int| 0 <= j < k - 1 implies check_item(&rest[j], context) is None by {
            assert(rest[j] == body[j + 1]);
        }
        assert(rest[k - 1] == body[k]);
        assert(check_item(&body[0], context) is None);
        law_check_body_first_error(rest, context, k - 1);
        assert(rest.subrange(k - 1, k) =~= one);
    }
}

/// Handling a stylesheet is handling its items as a body.
pub proof fn law_parsed_is_body(items: Vec<Item>, w: WorldV, sels: Seq<Seq<u8>>, fuel: nat)
    ensures
        spec_handle_parsed(Parsed::Scss(items), w, sels, fuel) == spec_handle_body(
            items@,
            w,
            sels,
            fuel,
            items.len() as int,
        ),
{
}

/// The first `n` items of a body are handled the same in any body that
/// agrees on them.
proof fn lemma_body_prefix(
    a: Seq<Item>,
    b: Seq<Item>,
    w: WorldV,
    sels: Seq<Seq<u8>>,
    fuel: nat,
    n: int,
)
    requires
        0 <= n <= a.len(),
        n <= b.len(),
        forall|k: int| 0 <= k < n ==> a[k] == b[k],
    ensures
        spec_handle_body(a, w, sels, fuel, n) == spec_handle_body(b, w, sels, fuel, n),
    decreases n,
{
    if n > 0 {
        lemma_body_prefix(a, b, w, sels, fuel, n - 1);
    }
}

/// Items are handled in order: handling two bodies one after the other
/// is handling the two together, and the first error ends it.
pub proof fn law_body_sequence(
    a: Seq<Item>,
    b: Seq<Item>,
    w: WorldV,
    sels: Seq<Seq<u8>>,
    fuel: nat,
)
    ensures
        spec_handle_body(a + b, w, sels, fuel, (a + b).len() as int) == match spec_handle_body(
            a,
            w,
            sels,
            fuel,
            a.len() as int,
        ) {
            Err(e) => Err(e),
            Ok(w1) => spec_handle_body(b, w1, sels, fuel, b.len() as int),
        },
    decreases b.len(),
{
    if b.len() == 0 {
        assert(a + b =~= a);
    } else {
        let b0 = b.drop_last();
        law_body_sequence(a, b0, w, sels, fuel);
        lemma_body_prefix(a + b, a + b0, w, sels, fuel, (a + b0).len() as int);
        assert((a + b)[(a + b0).len() as int] == b[b0.len() as int]);
        match spec_handle_body(a, w, sels, fuel, a.len() as int) {
            Ok(w1) => {
                lemma_body_prefix(b, b0, w1, sels, fuel, b0.len() as int);
            },
            Err(_) => {},
        }
    }
}

/// A property outside of any rule is an error, whatever its value.
pub proof fn law_global_property(name: SassString, value: Value, w: WorldV)
    requires
        w.rule is None,
    ensures
        spec_property(name, value, false, w) == Err::<WorldV, ErrorV>(
            ErrorV::S(kw("Global property not allowed")),
        ),
{
    reveal(spec_property);
}

/// A mixin call puts the caller's frames aside and takes them back: when
/// the body changes nothing, leaving the call gives back the caller's
/// scope and the calls being handled as they were.
pub proof fn law_mixin_call_restores(
    name: Vec<u8>,
    args: Vec<CallArg>,
    content: Option<Rc<Callable>>,
    pos: SourcePos,
    w: WorldV,
)
    requires
        w.scope.len() > 0,
    ensures
        spec_mixin_enter(name, args, content, pos, w) matches Ok((_, inner)) ==> {
            &&& mixin_leave(inner).scope == w.scope
            &&& mixin_leave(inner).contents == w.contents
        },
{
    if let Ok((_, inner)) = spec_mixin_enter(name, args, content, pos, w) {
        assert(inner.contents.last().1 == w.scope.drop_first());
        assert(mixin_leave(inner).scope =~= w.scope);
        assert(mixin_leave(inner).contents =~= w.contents);
    }
}

/// `@content` puts the mixin's frames aside and takes them back: when
/// the content block changes nothing, leaving it gives back the mixin's
/// scope and the calls being handled as they were.
pub proof fn law_content_restores(args: Vec<CallArg>, pos: SourcePos, w: WorldV)
    requires
        w.scope.len() > 0,
    ensures
        spec_content_enter(args, pos, w) matches Ok(Some((b, inner))) ==> {
            &&& content_leave(w.scope.drop_first(), b, inner).scope == w.scope
            &&& content_leave(w.scope.drop_first(), b, inner).contents == w.contents
        },
{
    if let Ok(Some((b, inner))) = spec_content_enter(args, pos, w) {
        let cf = w.contents.last().1;
        assert(inner.scope.drop_last().drop_first() =~= cf);
        assert(w.contents.last().0 == Some(b));
        assert(content_leave(w.scope.drop_first(), b, inner).scope =~= w.scope);
        assert(content_leave(w.scope.drop_first(), b, inner).contents =~= w.contents);
    }
}

/// The bytes of the starts and end that make an import a plain css one.
proof fn lemma_url_words()
    ensures
        kw("http://") == seq![104u8, 116u8, 116u8, 112u8, 58u8, 47u8, 47u8],
        kw("https://") == seq![104u8, 116u8, 116u8, 112u8, 115u8, 58u8, 47u8, 47u8],
        kw("//") == seq![47u8, 47u8],
        kw(".css") == seq![46u8, 99u8, 115u8, 115u8],
{
    reveal_strlit("http://");
    reveal_strlit("https://");
    reveal_strlit("//");
    reveal_strlit(".css");
    vstd::string::is_ascii_spec_bytes("http://");
    vstd::string::is_ascii_spec_bytes("https://");
    vstd::string::is_ascii_spec_bytes("//");
    vstd::string::is_ascii_spec_bytes(".css");
    assert(kw("http://") =~= seq![104u8, 116u8, 116u8, 112u8, 58u8, 47u8, 47u8]);
    assert(kw("https://") =~= seq![104u8, 116u8, 116u8, 112u8, 115u8, 58u8, 47u8, 47u8]);
    assert(kw("//") =~= seq![47u8, 47u8]);
    assert(kw(".css") =~= seq![46u8, 99u8, 115u8, 115u8]);
}

/// An url that an `@import` leaves to css: one that starts with
/// `http://`, `https://` or `//`, or ends with `.css`.
pub open spec fn is_url_import(t: Seq<u8>) -> bool {
    ||| t.len() >= 7 && t.take(7) == seq![104u8, 116u8, 116u8, 112u8, 58u8, 47u8, 47u8]
    ||| t.len() >= 8 && t.take(8) == seq![104u8, 116u8, 116u8, 112u8, 115u8, 58u8, 47u8, 47u8]
    ||| t.len() >= 2 && t.take(2) == seq![47u8, 47u8]
    ||| t.len() >= 4 && t.skip(t.len() - 4) == seq![46u8, 99u8, 115u8, 115u8]
}

proof fn lemma_url_is_css(t: Seq<u8>)
    requires
        is_url_import(t),
    ensures
        is_css_import(t),
{
    lemma_url_words();
    if t.len() >= 7 && t.take(7) == seq![104u8, 116u8, 116u8, 112u8, 58u8, 47u8, 47u8] {
        assert(t.subrange(0, 7) =~= t.take(7));
    } else if t.len() >= 8 && t.take(8) == seq![104u8, 116u8, 116u8, 112u8, 115u8, 58u8, 47u8, 47u8] {
        assert(t.subrange(0, 8) =~= t.take(8));
    } else if t.len() >= 2 && t.take(2) == seq![47u8, 47u8] {
        assert(t.subrange(0, 2) =~= t.take(2));
    } else {
        assert(t.subrange(t.len() - 4, t.len() as int) =~= t.skip(t.len() - 4));
    }
}

#[verifier::rlimit(50)]
proof fn lemma_url_import_one(name: SassString, args: Value, pos: SourcePos, w: WorldV, t: Seq<u8>)
    requires
        text_of(name, w.scope, w.functions, w.limit) == Ok::<Seq<u8>, ErrorV>(t),
        args.view() == ValueV::Null,
        is_url_import(t),
        w.rule is None,
        w.buf.indent == 0,
    ensures
        spec_import_one(name, args, pos, w) == Ok::<WorldV, ErrorV>(
            with_import(w, quoted(t, name.quotes)),
        ),
{
    reveal(spec_import_one);
    lemma_url_is_css(t);
    let a = spec_eval(ValueV::Null, w.scope, w.functions, w.limit);
    assert(a == Ok::<CssValueV, ErrorV>(CssValueV::Null));
    assert(is_null(CssValueV::Null));
    let q = quoted(t, name.quotes);
    assert(q + Seq::<u8>::empty() =~= q);
    let text = q + if is_null(CssValueV::Null) {
        Seq::<u8>::empty()
    } else {
        seq![32u8] + format_value(CssValueV::Null)
    };
    assert(text == q);
}

/// An `@import` of one name without media arguments, whose text is an
/// url (`http://`, `https://`, `//`) or a `.css` file that no stylesheet
/// answers, is never an error: at the top level it is kept as a css
/// import of the quoted name.
pub proof fn law_url_import_kept(
    names: Vec<SassString>,
    args: Value,
    pos: SourcePos,
    w: WorldV,
    sels: Seq<Seq<u8>>,
    fuel: nat,
    t: Seq<u8>,
)
    requires
        names@.len() == 1,
        text_of(names@[0], w.scope, w.functions, w.limit) == Ok::<Seq<u8>, ErrorV>(t),
        args.view() == ValueV::Null,
        resolve_import(w.files, t) is None,
        is_url_import(t),
        w.rule is None,
        w.buf.indent == 0,
    ensures
        spec_handle_item(Item::Import(names, args, pos), w, sels, fuel) == Ok::<WorldV, ErrorV>(
            with_import(w, quoted(t, names@[0].quotes)),
        ),
{
    let item = Item::Import(names, args, pos);
    lemma_url_import_one(names@[0], args, pos, w, t);
    assert(import_file(names@[0], args, w) == Ok::<Option<Rc<Vec<Item>>>, ErrorV>(None));
    assert(spec_import_item(item, w, sels, fuel, 0) == Ok::<WorldV, ErrorV>(w));
    assert(spec_import_item(item, w, sels, fuel, 1) == spec_import_one(names@[0], args, pos, w));
    assert(spec_handle_item(item, w, sels, fuel) == spec_import_item(item, w, sels, fuel, 1));
}

} // verus!
