//! Evaluation of value expressions in a scope of variables.
use crate::error::{Decl, DeclV, Error, ErrorV, Invalid, InvalidV};
use crate::output::transform::{find_mixin, find_mixin_exec, mixins_view, MixinDef, MixinV};
use crate::parser::bytes_eq;
use crate::parser::value::kw;
use crate::sass::{
    push_part, opt_bytes_view, args_view, lemma_call_view, lemma_list_view, lemma_sstring_view, parts_view, values_view,
    Callable, CallArg, CallArgV, FormalArg, Item, ListSep, Number, NumberV, Quotes, SassString, SassStringV,
    SourcePos, StringPart, StringPartV, Value, ValueV,
};
use crate::value::{
    color_by_name, color_by_name_exec, css_values_view, dec_digits, format_fixed, format_number,
    format_value, format_value_exec, unquoted_text, unquoted_text_exec, lemma_css_list_view, one, push_bytes, push_str, dec_digits_exec, format_fixed_exec, Color, CssValue,
    CssValueV,
};
use vstd::pervasive::VecAdditionalExecFns;
use vstd::prelude::*;
use std::rc::Rc;
use vstd::slice::slice_to_vec;
use vstd::string::StringSliceAdditionalSpecFns;

verus! {

// ---------------------------------------------------------------------
// Scope
// ---------------------------------------------------------------------

/// A variable and its value.
#[derive(Debug)]
pub struct Var {
    pub name: Vec<u8>,
    pub value: CssValue,
}

/// The variables in scope: a stack of frames, the global frame first.
#[derive(Debug)]
pub struct Scope {
    pub frames: Vec<Vec<Var>>,
}

pub type FrameV = Seq<(Seq<u8>, CssValueV)>;

pub type ScopeV = Seq<FrameV>;

pub open spec fn frame_view(fr: Seq<Var>) -> FrameV {
    Seq::new(fr.len(), |i: int| (fr[i].name@, fr[i].value.view()))
}

/// The views of a stack of frames.
pub open spec fn frames_view(fs: Seq<Vec<Var>>) -> Seq<FrameV> {
    Seq::new(fs.len(), |i: int| frame_view(fs[i]@))
}

impl Scope {
    pub open spec fn view(&self) -> ScopeV {
        Seq::new(self.frames.len() as nat, |i: int| frame_view(self.frames@[i]@))
    }

    /// A scope has a global frame.
    pub open spec fn wf(&self) -> bool {
        self.frames.len() > 0
    }
}

/// The first index at or after `i` of a variable named `n` in a frame.
pub open spec fn frame_find(fr: FrameV, n: Seq<u8>, i: int) -> Option<int>
    decreases fr.len() - i,
{
    if i < 0 || i >= fr.len() {
        None
    } else if fr[i].0 == n {
        Some(i)
    } else {
        frame_find(fr, n, i + 1)
    }
}

/// The innermost frame that holds `n`, and the index of `n` in it.
pub open spec fn scope_find(sc: ScopeV, n: Seq<u8>) -> Option<(int, int)>
    decreases sc.len(),
{
    if sc.len() == 0 {
        None
    } else {
        match frame_find(sc.last(), n, 0) {
            Some(i) => Some(((sc.len() - 1) as int, i)),
            None => scope_find(sc.drop_last(), n),
        }
    }
}

/// The value of the variable `n` in the innermost frame that holds it.
pub open spec fn scope_get(sc: ScopeV, n: Seq<u8>) -> Option<CssValueV> {
    match scope_find(sc, n) {
        Some((k, i)) => Some(sc[k][i].1),
        None => None,
    }
}

/// A frame with `n` set to `v`: replaced where it is, else added.
pub open spec fn frame_set(fr: FrameV, n: Seq<u8>, v: CssValueV) -> FrameV {
    match frame_find(fr, n, 0) {
        Some(i) => fr.update(i, (n, v)),
        None => fr.push((n, v)),
    }
}

/// A scope with `n` defined in its innermost frame.
pub open spec fn scope_define(sc: ScopeV, n: Seq<u8>, v: CssValueV) -> ScopeV {
    if sc.len() == 0 {
        sc
    } else {
        sc.update(sc.len() - 1, frame_set(sc.last(), n, v))
    }
}

/// A frame without the variable `n`.
pub open spec fn frame_remove(fr: FrameV, n: Seq<u8>) -> FrameV {
    match frame_find(fr, n, 0) {
        Some(i) => fr.remove(i),
        None => fr,
    }
}

/// The value of `n` in the innermost frame itself.
pub open spec fn local_get(sc: ScopeV, n: Seq<u8>) -> Option<CssValueV> {
    if sc.len() == 0 {
        None
    } else {
        match frame_find(sc.last(), n, 0) {
            Some(i) => Some(sc.last()[i].1),
            None => None,
        }
    }
}

/// The innermost frame with `n` given back the value `prev` it had
/// there: set to it, or removed where it had none.
pub open spec fn scope_restore(sc: ScopeV, n: Seq<u8>, prev: Option<CssValueV>) -> ScopeV {
    if sc.len() == 0 {
        sc
    } else {
        sc.update(
            sc.len() - 1,
            match prev {
                Some(v) => frame_set(sc.last(), n, v),
                None => frame_remove(sc.last(), n),
            },
        )
    }
}

/// A variable declaration: with `default`, a variable that has a value
/// other than null keeps it; with `global`, the global frame gets the
/// value; else the innermost frame that holds the variable gets it, and
/// if none does, the innermost frame.
pub open spec fn spec_set_variable(
    sc: ScopeV,
    n: Seq<u8>,
    v: CssValueV,
    default: bool,
    global: bool,
) -> ScopeV {
    if default && (scope_get(sc, n) matches Some(x) && !(x is Null)) {
        sc
    } else if global {
        if sc.len() == 0 {
            sc
        } else {
            sc.update(0, frame_set(sc[0], n, v))
        }
    } else {
        match scope_find(sc, n) {
            Some((k, i)) => sc.update(k, sc[k].update(i, (n, v))),
            None => scope_define(sc, n, v),
        }
    }
}

// ---------------------------------------------------------------------
// Evaluation
// ---------------------------------------------------------------------

/// The text that an interpolated value gives: a string without quotes,
/// a list with its strings unquoted, anything else as css.
pub open spec fn interp_text(v: CssValueV) -> Seq<u8> {
    unquoted_text(v)
}

/// The value of a string literal with text `t`: an unquoted literal
/// that is just the name of a color is that color.
pub open spec fn literal_value(t: Seq<u8>, ss: SassStringV) -> CssValueV {
    if ss.quotes == Quotes::NoQuotes && ss.parts.len() == 1 && ss.parts[0] is Raw && color_by_name(
        t,
    ) is Some {
        let (r, g, b) = color_by_name(t).unwrap();
        CssValueV::Color(Color { r, g, b, alpha: 10000000000i128 })
    } else {
        CssValueV::Str(t, ss.quotes)
    }
}

/// An evaluated argument: its name, if it is named, and its value.
pub type ArgV = (Option<Seq<u8>>, CssValueV);

/// Evaluates a value expression.
pub open spec fn spec_eval(v: ValueV, sc: ScopeV, fns: Seq<MixinV>, fuel: nat) -> Result<CssValueV, ErrorV>
    decreases fuel, 0nat, v, 0nat,
{
    match v {
        ValueV::Null => Ok(CssValueV::Null),
        ValueV::True => Ok(CssValueV::Bool(true)),
        ValueV::False => Ok(CssValueV::Bool(false)),
        ValueV::Numeric(n) => Ok(CssValueV::Numeric(n)),
        ValueV::Literal(ss) => match spec_eval_parts(ss.parts, sc, fns, fuel, ss.parts.len() as int) {
            Ok(t) => Ok(literal_value(t, ss)),
            Err(e) => Err(e),
        },
        ValueV::Variable(n, pos) => match scope_get(sc, n) {
            Some(x) => Ok(x),
            None => Err(ErrorV::At(kw("Undefined variable."), pos)),
        },
        ValueV::Call(n, args, pos) => match spec_eval_args(args, sc, fns, fuel, args.len() as int) {
            Ok(avs) => match find_mixin(fns, n) {
                Some(c) => if fuel == 0 {
                    Err(ErrorV::S(kw("Too deeply nested function calls.")))
                } else {
                    spec_call_user(c, avs, pos, global_frame(sc), fns, (fuel - 1) as nat)
                },
                None => spec_call_function(n, avs, pos),
            },
            Err(e) => Err(e),
        },
        ValueV::Plus(a, b) => match spec_eval(*a, sc, fns, fuel) {
            Ok(x) => match spec_eval(*b, sc, fns, fuel) {
                Ok(y) => spec_op_plus(x, y),
                Err(e) => Err(e),
            },
            Err(e) => Err(e),
        },
        ValueV::List(vs, sep) => match spec_eval_list(vs, sc, fns, fuel, vs.len() as int) {
            Ok(xs) => Ok(CssValueV::List(xs, sep)),
            Err(e) => Err(e),
        },
    }
}

/// The text of the first `n` parts of a string, evaluated in order.
pub open spec fn spec_eval_parts(ps: Seq<StringPartV>, sc: ScopeV, fns: Seq<MixinV>, fuel: nat, n: int) -> Result<
    Seq<u8>,
    ErrorV,
>
    decreases fuel, 0nat, ps, n,
{
    if n <= 0 || n > ps.len() {
        Ok(seq![])
    } else {
        match spec_eval_parts(ps, sc, fns, fuel, n - 1) {
            Ok(t) => match ps[n - 1] {
                StringPartV::Raw(b) => Ok(t + b),
                StringPartV::Interpolation(x) => match spec_eval(x, sc, fns, fuel) {
                    Ok(xv) => Ok(t + interp_text(xv)),
                    Err(e) => Err(e),
                },
            },
            Err(e) => Err(e),
        }
    }
}

/// The first `n` items of a list, evaluated in order.
pub open spec fn spec_eval_list(vs: Seq<ValueV>, sc: ScopeV, fns: Seq<MixinV>, fuel: nat, n: int) -> Result<
    Seq<CssValueV>,
    ErrorV,
>
    decreases fuel, 0nat, vs, n,
{
    if n <= 0 || n > vs.len() {
        Ok(seq![])
    } else {
        match spec_eval_list(vs, sc, fns, fuel, n - 1) {
            Ok(xs) => match spec_eval(vs[n - 1], sc, fns, fuel) {
                Ok(x) => Ok(xs.push(x)),
                Err(e) => Err(e),
            },
            Err(e) => Err(e),
        }
    }
}

/// The first `n` arguments of a call, evaluated in order.
pub open spec fn spec_eval_args(args: Seq<CallArgV>, sc: ScopeV, fns: Seq<MixinV>, fuel: nat, n: int) -> Result<
    Seq<ArgV>,
    ErrorV,
>
    decreases fuel, 0nat, args, n,
{
    if n <= 0 || n > args.len() {
        Ok(seq![])
    } else {
        match spec_eval_args(args, sc, fns, fuel, n - 1) {
            Ok(xs) => match spec_eval(args[n - 1].value, sc, fns, fuel) {
                Ok(x) => Ok(xs.push((args[n - 1].name, x))),
                Err(e) => Err(e),
            },
            Err(e) => Err(e),
        }
    }
}

/// The text of a value where it is joined to a string.
pub open spec fn concat_text(v: CssValueV) -> Seq<u8> {
    match v {
        CssValueV::Str(b, _) => b,
        _ => format_value(v),
    }
}

/// `a + b`: numbers with the same unit, or one without unit, add up; a
/// string joins the text of the other side, and keeps its quotes (those
/// of the left side when both are strings); anything else is an error.
pub open spec fn spec_op_plus(a: CssValueV, b: CssValueV) -> Result<CssValueV, ErrorV> {
    match (a, b) {
        (CssValueV::Numeric(x), CssValueV::Numeric(y)) => if x.unit == y.unit || y.unit.len() == 0
            || x.unit.len() == 0 {
            let s = x.value + y.value;
            if i128::MIN <= s <= i128::MAX {
                Ok(
                    CssValueV::Numeric(
                        NumberV {
                            value: s as i128,
                            unit: if x.unit.len() == 0 {
                                y.unit
                            } else {
                                x.unit
                            },
                        },
                    ),
                )
            } else {
                Err(ErrorV::S(kw("Number too large.")))
            }
        } else {
            Err(ErrorV::S(kw("Incompatible units.")))
        },
        (CssValueV::Str(x, q), _) => Ok(CssValueV::Str(x + concat_text(b), q)),
        (_, CssValueV::Str(y, q)) => Ok(CssValueV::Str(concat_text(a) + y, q)),
        _ => Err(ErrorV::S(kw("Undefined operation."))),
    }
}

// ---------------------------------------------------------------------
// Calls
// ---------------------------------------------------------------------

/// A formal argument of a built-in function: its name, and its default.
pub type FormalV = (Seq<u8>, Option<CssValueV>);

/// The values of the positional arguments, in order.
pub open spec fn positional(avs: Seq<ArgV>) -> Seq<CssValueV>
    decreases avs.len(),
{
    if avs.len() == 0 {
        seq![]
    } else if avs.last().0 is None {
        positional(avs.drop_last()).push(avs.last().1)
    } else {
        positional(avs.drop_last())
    }
}

/// The value of the last argument named `n`.
pub open spec fn named_arg(avs: Seq<ArgV>, n: Seq<u8>) -> Option<CssValueV>
    decreases avs.len(),
{
    if avs.len() == 0 {
        None
    } else if avs.last().0 == Some(n) {
        Some(avs.last().1)
    } else {
        named_arg(avs.drop_last(), n)
    }
}

/// Whether a formal argument has the name `n`.
pub open spec fn is_formal(fs: Seq<FormalV>, n: Seq<u8>) -> bool {
    exists|i: int| 0 <= i < fs.len() && fs[i].0 == n
}

/// The first named argument that names no formal argument.
pub open spec fn unknown_named(avs: Seq<ArgV>, fs: Seq<FormalV>, i: int) -> Option<Seq<u8>>
    decreases avs.len() - i,
{
    if i < 0 || i >= avs.len() {
        None
    } else if avs[i].0 is Some && !is_formal(fs, avs[i].0.unwrap()) {
        avs[i].0
    } else {
        unknown_named(avs, fs, i + 1)
    }
}

/// `argument` or `arguments`.
pub open spec fn arguments_word(n: nat) -> Seq<u8> {
    if n == 1 {
        kw(" argument")
    } else {
        kw(" arguments")
    }
}

/// The message for more positional arguments than formal ones.
pub open spec fn too_many_message(allowed: nat, passed: nat) -> Seq<u8> {
    kw("Only ") + dec_digits(allowed) + arguments_word(allowed) + kw(" allowed, but ")
        + dec_digits(passed) + if passed == 1 {
        kw(" was passed.")
    } else {
        kw(" were passed.")
    }
}

/// The values of the first `k` formal arguments, or the name of the first
/// of them that has no value.
pub open spec fn bind_values(fs: Seq<FormalV>, avs: Seq<ArgV>, k: int) -> Result<
    Seq<CssValueV>,
    Seq<u8>,
>
    decreases k,
{
    if k <= 0 || k > fs.len() {
        Ok(seq![])
    } else {
        match bind_values(fs, avs, k - 1) {
            Ok(vals) => {
                let pos = positional(avs);
                if k - 1 < pos.len() {
                    Ok(vals.push(pos[k - 1]))
                } else {
                    match named_arg(avs, fs[k - 1].0) {
                        Some(v) => Ok(vals.push(v)),
                        None => match fs[k - 1].1 {
                            Some(d) => Ok(vals.push(d)),
                            None => Err(fs[k - 1].0),
                        },
                    }
                }
            },
            Err(n) => Err(n),
        }
    }
}

/// Binds the arguments of a call to the formal arguments: too many
/// positional arguments, a formal argument without value, and a named
/// argument that names no formal argument are errors, in that order.
pub open spec fn spec_bind(fs: Seq<FormalV>, avs: Seq<ArgV>, pos: SourcePos, decl: DeclV) -> Result<
    Seq<CssValueV>,
    ErrorV,
> {
    let np = positional(avs).len();
    if np > fs.len() {
        Err(ErrorV::BadCall(too_many_message(fs.len(), np), pos, Some(decl)))
    } else {
        match bind_values(fs, avs, fs.len() as int) {
            Err(n) => Err(
                ErrorV::BadCall(kw("Missing argument $") + n + kw("."), pos, Some(decl)),
            ),
            Ok(vals) => match unknown_named(avs, fs, 0) {
                Some(n) => Err(
                    ErrorV::BadCall(kw("No argument named $") + n + kw("."), pos, Some(decl)),
                ),
                None => Ok(vals),
            },
        }
    }
}

/// The formal arguments of a built-in function, written as in a
/// declaration: `$a, $b: default`.
pub open spec fn formals_text(fs: Seq<FormalV>) -> Seq<u8>
    decreases fs.len(),
{
    if fs.len() == 0 {
        seq![]
    } else {
        let prev = formals_text(fs.drop_last());
        let this = kw("$") + fs.last().0 + match fs.last().1 {
            Some(d) => kw(": ") + format_value(d),
            None => seq![],
        };
        if fs.len() == 1 {
            this
        } else {
            prev + kw(", ") + this
        }
    }
}

/// Where a built-in function of the color module is declared: a line
/// `@function name(formals) {`, with the span of `name(formals)`.
pub open spec fn builtin_decl(n: Seq<u8>, fs: Seq<FormalV>) -> DeclV {
    let sig = n + kw("(") + formals_text(fs) + kw(")");
    let at = kw("@function ");
    DeclV::Builtin(
        kw("sass:color"),
        at + sig + kw(" {"),
        at.len() as usize,
        (at.len() + sig.len()) as usize,
    )
}

pub open spec fn formal(n: Seq<u8>) -> FormalV {
    (n, None)
}

/// The formal arguments of the functions that change the alpha channel.
pub open spec fn alpha_formals() -> Seq<FormalV> {
    seq![formal(kw("color")), formal(kw("amount"))]
}

/// The message for an argument of the wrong type.
pub open spec fn not_a(arg: Seq<u8>, v: CssValueV, what: Seq<u8>) -> Seq<u8> {
    kw("$") + arg + kw(": ") + format_value(v) + kw(" is not ") + what + kw(".")
}

/// `v` kept between `lo` and `hi`.
pub open spec fn clamp(v: int, lo: int, hi: int) -> int {
    if v < lo {
        lo
    } else if v > hi {
        hi
    } else {
        v
    }
}

/// `fade-out`/`transparentize` (`dir` false) and `fade-in`/`opacify`
/// (`dir` true): the alpha channel of `$color` lowered or raised by
/// `$amount`, which must be a number from 0 to 1; the result stays from 0
/// to 1.
pub open spec fn spec_adjust_alpha(n: Seq<u8>, avs: Seq<ArgV>, pos: SourcePos, dir: bool) -> Result<
    CssValueV,
    ErrorV,
> {
    match spec_bind(alpha_formals(), avs, pos, builtin_decl(n, alpha_formals())) {
        Err(e) => Err(e),
        Ok(vals) => {
            let c = vals[0];
            let a = vals[1];
            if !(c is Color) {
                Err(ErrorV::At(not_a(kw("color"), c, kw("a color")), pos))
            } else if !(a is Numeric) {
                Err(ErrorV::At(not_a(kw("amount"), a, kw("a number")), pos))
            } else if (a->Numeric_0.value as int) < 0 || (a->Numeric_0.value as int) > one() {
                Err(
                    ErrorV::At(
                        kw("$amount: Expected ") + format_number(a->Numeric_0) + kw(
                            " to be within 0 and 1.",
                        ),
                        pos,
                    ),
                )
            } else {
                let col = c->Color_0;
                let na = if dir {
                    col.alpha as int + a->Numeric_0.value as int
                } else {
                    col.alpha as int - a->Numeric_0.value as int
                };
                Ok(
                    CssValueV::Color(
                        Color { r: col.r, g: col.g, b: col.b, alpha: clamp(na, 0, one()) as i128 },
                    ),
                )
            }
        },
    }
}

/// A channel from a number: rounded, and kept from 0 to 255; a
/// percentage is of 255.
pub open spec fn channel(n: NumberV) -> u8 {
    let v = if n.unit == kw("%") {
        clamp(n.value as int, 0, 100 * one()) * 255 / 100
    } else {
        clamp(n.value as int, 0, 255 * one())
    };
    ((v + one() / 2) / one()) as u8
}

/// The formal arguments of `rgba` and `rgb` with a color.
pub open spec fn rgba2_formals() -> Seq<FormalV> {
    seq![formal(kw("color")), formal(kw("alpha"))]
}

/// The formal arguments of `rgba` and `rgb` with channels.
pub open spec fn rgba4_formals() -> Seq<FormalV> {
    seq![
        formal(kw("red")),
        formal(kw("green")),
        formal(kw("blue")),
        (kw("alpha"), Some(CssValueV::Numeric(NumberV { value: 10000000000i128, unit: seq![] }))),
    ]
}

/// `rgba` and `rgb`: with two arguments, a color and an alpha; else
/// red, green, blue and an alpha that is 1 by default. The alpha is kept
/// from 0 to 1.
pub open spec fn spec_rgba(n: Seq<u8>, avs: Seq<ArgV>, pos: SourcePos) -> Result<
    CssValueV,
    ErrorV,
> {
    if avs.len() == 2 {
        match spec_bind(rgba2_formals(), avs, pos, builtin_decl(n, rgba2_formals())) {
            Err(e) => Err(e),
            Ok(vals) => {
                let c = vals[0];
                let a = vals[1];
                if !(c is Color) {
                    Err(ErrorV::At(not_a(kw("color"), c, kw("a color")), pos))
                } else if !(a is Numeric) {
                    Err(ErrorV::At(not_a(kw("alpha"), a, kw("a number")), pos))
                } else {
                    let col = c->Color_0;
                    Ok(
                        CssValueV::Color(
                            Color {
                                r: col.r,
                                g: col.g,
                                b: col.b,
                                alpha: clamp(a->Numeric_0.value as int, 0, one()) as i128,
                            },
                        ),
                    )
                }
            },
        }
    } else {
        match spec_bind(rgba4_formals(), avs, pos, builtin_decl(n, rgba4_formals())) {
            Err(e) => Err(e),
            Ok(vals) => if !(vals[0] is Numeric) {
                Err(ErrorV::At(not_a(kw("red"), vals[0], kw("a number")), pos))
            } else if !(vals[1] is Numeric) {
                Err(ErrorV::At(not_a(kw("green"), vals[1], kw("a number")), pos))
            } else if !(vals[2] is Numeric) {
                Err(ErrorV::At(not_a(kw("blue"), vals[2], kw("a number")), pos))
            } else if !(vals[3] is Numeric) {
                Err(ErrorV::At(not_a(kw("alpha"), vals[3], kw("a number")), pos))
            } else {
                Ok(
                    CssValueV::Color(
                        Color {
                            r: channel(vals[0]->Numeric_0),
                            g: channel(vals[1]->Numeric_0),
                            b: channel(vals[2]->Numeric_0),
                            alpha: clamp(vals[3]->Numeric_0.value as int, 0, one()) as i128,
                        },
                    ),
                )
            },
        }
    }
}

/// The values of arguments written as css and joined by `, `.
pub open spec fn join_args(avs: Seq<ArgV>) -> Seq<u8>
    decreases avs.len(),
{
    if avs.len() == 0 {
        seq![]
    } else if avs.len() == 1 {
        format_value(avs[0].1)
    } else {
        join_args(avs.drop_last()) + kw(", ") + format_value(avs.last().1)
    }
}

/// Whether some argument is named.
pub open spec fn has_named(avs: Seq<ArgV>) -> bool {
    exists|i: int| 0 <= i < avs.len() && avs[i].0 is Some
}

/// A function that is not built in is a plain css function: its name
/// and arguments are written as they are; named arguments are an error.
pub open spec fn spec_plain_call(n: Seq<u8>, avs: Seq<ArgV>, pos: SourcePos) -> Result<
    CssValueV,
    ErrorV,
> {
    if has_named(avs) {
        Err(ErrorV::At(kw("Plain CSS functions don't support keyword arguments."), pos))
    } else {
        Ok(CssValueV::Str(n + kw("(") + join_args(avs) + kw(")"), Quotes::NoQuotes))
    }
}

/// A call of the function `n` with evaluated arguments.
#[verifier::opaque]
pub open spec fn spec_call_function(n: Seq<u8>, avs: Seq<ArgV>, pos: SourcePos) -> Result<
    CssValueV,
    ErrorV,
> {
    if n == kw("rgba") || n == kw("rgb") {
        spec_rgba(n, avs, pos)
    } else if n == kw("fade-out") || n == kw("transparentize") {
        spec_adjust_alpha(n, avs, pos, false)
    } else if n == kw("fade-in") || n == kw("opacify") {
        spec_adjust_alpha(n, avs, pos, true)
    } else {
        spec_plain_call(n, avs, pos)
    }
}


// ---------------------------------------------------------------------
// Exec: copies and scope operations
// ---------------------------------------------------------------------

/// A copy of a number.
pub fn clone_number(n: &Number) -> (r: Number)
    ensures
        r@ == n@,
{
    Number { value: n.value, unit: slice_to_vec(n.unit.as_slice()) }
}

/// A copy of a value.
pub fn clone_css(v: &CssValue) -> (r: CssValue)
    ensures
        r.view() == v.view(),
    decreases v,
{
    match v {
        CssValue::Null => CssValue::Null,
        CssValue::Bool(b) => CssValue::Bool(*b),
        CssValue::Numeric(n) => CssValue::Numeric(clone_number(n)),
        CssValue::Color(c) => CssValue::Color(*c),
        CssValue::Str(b, q) => CssValue::Str(slice_to_vec(b.as_slice()), *q),
        CssValue::List(vs, sep) => {
            let xs = clone_css_list(vs);
            let r = CssValue::List(xs, *sep);
            proof {
                lemma_css_list_view(v);
                lemma_css_list_view(&r);
            }
            r
        },
    }
}

fn clone_css_list(vs: &Vec<CssValue>) -> (r: Vec<CssValue>)
    ensures
        css_values_view(r@) == css_values_view(vs@),
    decreases vs,
{
    let mut r: Vec<CssValue> = Vec::new();
    let mut i: usize = 0;
    while i < vs.len()
        invariant
            i <= vs.len(),
            css_values_view(r@) == css_values_view(vs@).take(i as int),
        decreases vs.len() - i,
    {
        proof {
            vstd::std_specs::vec::axiom_vec_index_decreases(*vs, i as int);
        }
        let x = clone_css(&vs[i]);
        let ghost r0 = r@;
        r.push(x);
        proof {
            assert(css_values_view(r@) =~= css_values_view(r0).push(vs@[i as int].view()));
            assert(css_values_view(vs@).take(i + 1) =~= css_values_view(vs@).take(i as int).push(
                vs@[i as int].view(),
            ));
        }
        i += 1;
    }
    proof {
        assert(css_values_view(vs@).take(i as int) =~= css_values_view(vs@));
    }
    r
}

/// The bytes of a text.
pub fn str_bytes(s: &str) -> (r: Vec<u8>)
    ensures
        r@ == s.spec_bytes(),
{
    slice_to_vec(s.as_bytes())
}

pub fn frame_find_exec(fr: &Vec<Var>, n: &[u8]) -> (r: Option<usize>)
    ensures
        match r {
            Some(i) => frame_find(frame_view(fr@), n@, 0) == Some(i as int),
            None => frame_find(frame_view(fr@), n@, 0) is None,
        },
{
    let ghost fv = frame_view(fr@);
    let mut i: usize = 0;
    while i < fr.len()
        invariant
            i <= fr.len(),
            fv == frame_view(fr@),
            frame_find(fv, n@, 0) == frame_find(fv, n@, i as int),
        decreases fr.len() - i,
    {
        if bytes_eq(fr[i].name.as_slice(), n) {
            return Some(i);
        }
        i += 1;
    }
    None
}

impl Scope {
    /// A scope with an empty global frame.
    pub fn new() -> (s: Scope)
        ensures
            s.view() == seq![Seq::<(Seq<u8>, CssValueV)>::empty()],
            s.wf(),
    {
        let mut frames: Vec<Vec<Var>> = Vec::new();
        frames.push(Vec::new());
        let s = Scope { frames };
        proof {
            assert(frame_view(s.frames@[0]@) =~= Seq::<(Seq<u8>, CssValueV)>::empty());
            assert(s.view() =~= seq![Seq::<(Seq<u8>, CssValueV)>::empty()]);
        }
        s
    }

    /// Opens an inner frame.
    pub fn push_frame(&mut self)
        ensures
            final(self).view() == old(self).view().push(Seq::empty()),
            final(self).frames.len() == old(self).frames.len() + 1,
    {
        self.frames.push(Vec::new());
        proof {
            let last = self.frames.len() - 1;
            assert(frame_view(self.frames@[last as int]@) =~= Seq::<(Seq<u8>, CssValueV)>::empty());
            assert(self.view() =~= old(self).view().push(Seq::empty()));
        }
    }

    /// Closes the innermost frame.
    pub fn pop_frame(&mut self)
        requires
            old(self).frames.len() > 1,
        ensures
            final(self).view() == old(self).view().drop_last(),
            final(self).frames.len() == old(self).frames.len() - 1,
    {
        self.frames.pop();
        proof {
            assert(self.view() =~= old(self).view().drop_last());
        }
    }

    fn find(&self, n: &[u8]) -> (r: Option<(usize, usize)>)
        ensures
            match r {
                Some((k, i)) => scope_find(self.view(), n@) == Some((k as int, i as int)) && k
                    < self.frames.len() && i < self.frames@[k as int].len(),
                None => scope_find(self.view(), n@) is None,
            },
    {
        let ghost sv = self.view();
        let mut k = self.frames.len();
        proof {
            assert(sv.take(k as int) =~= sv);
        }
        while k > 0
            invariant
                k <= self.frames.len(),
                sv == self.view(),
                scope_find(sv, n@) == scope_find(sv.take(k as int), n@),
            decreases k,
        {
            let ghost t = sv.take(k as int);
            proof {
                assert(t.last() == frame_view(self.frames@[k - 1]@));
                assert(t.drop_last() =~= sv.take(k - 1));
            }
            match frame_find_exec(&self.frames[k - 1], n) {
                Some(i) => {
                    proof {
                        lemma_frame_find_bounds(frame_view(self.frames@[k - 1]@), n@, 0);
                    }
                    return Some((k - 1, i));
                },
                None => {},
            }
            k -= 1;
        }
        None
    }

    /// The value of a variable, if it is defined.
    pub fn get(&self, n: &[u8]) -> (r: Option<CssValue>)
        ensures
            match r {
                Some(x) => scope_get(self.view(), n@) == Some(x.view()),
                None => scope_get(self.view(), n@) is None,
            },
    {
        match self.find(n) {
            Some((k, i)) => Some(clone_css(&self.frames[k][i].value)),
            None => None,
        }
    }

    fn set_in_frame(&mut self, k: usize, n: Vec<u8>, v: CssValue)
        requires
            k < old(self).frames.len(),
        ensures
            final(self).view() == old(self).view().update(
                k as int,
                frame_set(old(self).view()[k as int], n@, v.view()),
            ),
            final(self).frames.len() == old(self).frames.len(),
    {
        let ghost nv = n@;
        let ghost vv = v.view();
        let ghost s0 = self.view();
        let mut fr: Vec<Var> = Vec::new();
        self.frames.set_and_swap(k, &mut fr);
        proof {
            assert(frame_view(fr@) == s0[k as int]);
        }
        match frame_find_exec(&fr, n.as_slice()) {
            Some(i) => {
                proof {
                    lemma_frame_find_bounds(frame_view(fr@), nv, 0);
                }
                let ghost f0 = frame_view(fr@);
                fr.set(i, Var { name: n, value: v });
                proof {
                    assert(frame_view(fr@) =~= f0.update(i as int, (nv, vv)));
                }
            },
            None => {
                let ghost f0 = frame_view(fr@);
                fr.push(Var { name: n, value: v });
                proof {
                    assert(frame_view(fr@) =~= f0.push((nv, vv)));
                }
            },
        }
        let ghost fv = frame_view(fr@);
        self.frames.set(k, fr);
        proof {
            assert(self.view() =~= s0.update(k as int, fv));
        }
    }

    /// Defines a variable in the innermost frame.
    pub fn define(&mut self, n: Vec<u8>, v: CssValue)
        requires
            old(self).wf(),
        ensures
            final(self).view() == scope_define(old(self).view(), n@, v.view()),
            final(self).frames.len() == old(self).frames.len(),
    {
        let k = self.frames.len() - 1;
        self.set_in_frame(k, n, v);
    }

    /// The value of a variable in the innermost frame itself.
    pub fn get_local(&self, n: &[u8]) -> (r: Option<CssValue>)
        requires
            self.wf(),
        ensures
            match r {
                Some(x) => local_get(self.view(), n@) == Some(x.view()),
                None => local_get(self.view(), n@) is None,
            },
    {
        let k = self.frames.len() - 1;
        proof {
            assert(self.view().last() == frame_view(self.frames@[k as int]@));
        }
        match frame_find_exec(&self.frames[k], n) {
            Some(i) => {
                proof {
                    lemma_frame_find_bounds(frame_view(self.frames@[k as int]@), n@, 0);
                }
                Some(clone_css(&self.frames[k][i].value))
            },
            None => None,
        }
    }

    /// Gives `n` back, in the innermost frame, the value `prev` it had there.
    pub fn restore_local(&mut self, n: Vec<u8>, prev: Option<CssValue>)
        requires
            old(self).wf(),
        ensures
            final(self).view() == scope_restore(
                old(self).view(),
                n@,
                match prev {
                    Some(v) => Some(v.view()),
                    None => None,
                },
            ),
            final(self).frames.len() == old(self).frames.len(),
    {
        let k = self.frames.len() - 1;
        match prev {
            Some(v) => {
                self.set_in_frame(k, n, v);
            },
            None => {
                let ghost s0 = self.view();
                let mut fr: Vec<Var> = Vec::new();
                self.frames.set_and_swap(k, &mut fr);
                proof {
                    assert(frame_view(fr@) == s0[k as int]);
                }
                match frame_find_exec(&fr, n.as_slice()) {
                    Some(i) => {
                        proof {
                            lemma_frame_find_bounds(frame_view(fr@), n@, 0);
                        }
                        let ghost f0 = frame_view(fr@);
                        fr.remove(i);
                        proof {
                            assert(frame_view(fr@) =~= f0.remove(i as int));
                        }
                    },
                    None => {},
                }
                let ghost fv = frame_view(fr@);
                self.frames.set(k, fr);
                proof {
                    assert(self.view() =~= s0.update(k as int, fv));
                }
            },
        }
    }

    /// Sets a variable as a declaration does.
    pub fn set_variable(&mut self, n: Vec<u8>, v: CssValue, default: bool, global: bool)
        requires
            old(self).wf(),
        ensures
            final(self).view() == spec_set_variable(
                old(self).view(),
                n@,
                v.view(),
                default,
                global,
            ),
            final(self).frames.len() == old(self).frames.len(),
    {
        if default {
            match self.get(n.as_slice()) {
                Some(x) => {
                    match x {
                        CssValue::Null => {},
                        _ => {
                            return ;
                        },
                    }
                },
                None => {},
            }
        }
        if global {
            self.set_in_frame(0, n, v);
            return ;
        }
        match self.find(n.as_slice()) {
            Some((k, i)) => {
                let ghost s0 = self.view();
                let ghost nv = n@;
                let ghost vv = v.view();
                proof {
                    lemma_frame_find_value(s0[k as int], nv, 0);
                }
                self.set_in_frame(k, n, v);
                proof {
                    lemma_scope_find_frame(s0, nv);
                    assert(frame_set(s0[k as int], nv, vv) == s0[k as int].update(
                        i as int,
                        (nv, vv),
                    ));
                }
            },
            None => {
                let k = self.frames.len() - 1;
                self.set_in_frame(k, n, v);
            },
        }
    }
}

pub proof fn lemma_frame_find_bounds(fr: FrameV, n: Seq<u8>, i: int)
    ensures
        frame_find(fr, n, i) matches Some(j) ==> i <= j < fr.len() && fr[j].0 == n,
    decreases fr.len() - i,
{
    if !(i < 0 || i >= fr.len()) && fr[i].0 != n {
        lemma_frame_find_bounds(fr, n, i + 1);
    }
}

pub proof fn lemma_frame_find_value(fr: FrameV, n: Seq<u8>, i: int)
    ensures
        frame_find(fr, n, i) matches Some(j) ==> fr[j].0 == n,
{
    lemma_frame_find_bounds(fr, n, i);
}

/// The frame that `scope_find` gives holds the name where it says.
pub proof fn lemma_scope_find_frame(sc: ScopeV, n: Seq<u8>)
    ensures
        scope_find(sc, n) matches Some((k, i)) ==> 0 <= k < sc.len() && frame_find(sc[k], n, 0)
            == Some(i),
    decreases sc.len(),
{
    if sc.len() > 0 {
        match frame_find(sc.last(), n, 0) {
            Some(i) => {},
            None => {
                lemma_scope_find_frame(sc.drop_last(), n);
            },
        }
    }
}


// ---------------------------------------------------------------------
// Exec: evaluation
// ---------------------------------------------------------------------

/// A result of evaluation, taken by its view.
pub open spec fn vres(r: Result<CssValue, Error>) -> Result<CssValueV, ErrorV> {
    match r {
        Ok(x) => Ok(x.view()),
        Err(e) => Err(e.view()),
    }
}

/// An evaluated argument of a call.
#[derive(Debug)]
pub struct Arg {
    pub name: Option<Vec<u8>>,
    pub value: CssValue,
}

pub open spec fn arg_views(avs: Seq<Arg>) -> Seq<ArgV> {
    Seq::new(avs.len(), |i: int| (opt_bytes_view(avs[i].name), avs[i].value.view()))
}

/// Once the first `k` parts fail, so do all longer prefixes.
proof fn lemma_parts_err(ps: Seq<StringPartV>, sc: ScopeV, fns: Seq<MixinV>, fuel: nat, k: int, n: int)
    requires
        0 < k <= n <= ps.len(),
        spec_eval_parts(ps, sc, fns, fuel, k) is Err,
    ensures
        spec_eval_parts(ps, sc, fns, fuel, n) == spec_eval_parts(ps, sc, fns, fuel, k),
    decreases n - k,
{
    if n > k {
        lemma_parts_err(ps, sc, fns, fuel, k, n - 1);
    }
}

proof fn lemma_list_err(vs: Seq<ValueV>, sc: ScopeV, fns: Seq<MixinV>, fuel: nat, k: int, n: int)
    requires
        0 < k <= n <= vs.len(),
        spec_eval_list(vs, sc, fns, fuel, k) is Err,
    ensures
        spec_eval_list(vs, sc, fns, fuel, n) == spec_eval_list(vs, sc, fns, fuel, k),
    decreases n - k,
{
    if n > k {
        lemma_list_err(vs, sc, fns, fuel, k, n - 1);
    }
}

proof fn lemma_args_err(args: Seq<CallArgV>, sc: ScopeV, fns: Seq<MixinV>, fuel: nat, k: int, n: int)
    requires
        0 < k <= n <= args.len(),
        spec_eval_args(args, sc, fns, fuel, k) is Err,
    ensures
        spec_eval_args(args, sc, fns, fuel, n) == spec_eval_args(args, sc, fns, fuel, k),
    decreases n - k,
{
    if n > k {
        lemma_args_err(args, sc, fns, fuel, k, n - 1);
    }
}

/// The text of an interpolated value.
fn interp_text_exec(v: &CssValue) -> (r: Vec<u8>)
    ensures
        r@ == interp_text(v.view()),
{
    unquoted_text_exec(v)
}

/// The value of a string literal with the text `t`.
fn literal_value_exec(t: Vec<u8>, ss: &SassString) -> (r: CssValue)
    ensures
        r.view() == literal_value(t@, ss.view()),
{
    proof {
        lemma_sstring_view(ss);
    }
    let single_raw = match ss.quotes {
        Quotes::NoQuotes => ss.parts.len() == 1 && match &ss.parts[0] {
            StringPart::Raw(_) => true,
            _ => false,
        },
        _ => false,
    };
    if single_raw {
        match color_by_name_exec(t.as_slice()) {
            Some((r, g, b)) => {
                return CssValue::Color(Color { r, g, b, alpha: 10000000000i128 });
            },
            None => {},
        }
    }
    CssValue::Str(t, ss.quotes)
}

/// Evaluates a value expression in a scope.
pub fn eval(v: &Value, sc: &Scope, fns: &Vec<MixinDef>, fuel: usize) -> (r: Result<CssValue, Error>)
    ensures
        vres(r) == spec_eval(v.view(), sc.view(), mixins_view(fns@), fuel as nat),
    decreases fuel, 0nat, v, 0nat,
{
    match v {
        Value::Null => Ok(CssValue::Null),
        Value::True => Ok(CssValue::Bool(true)),
        Value::False => Ok(CssValue::Bool(false)),
        Value::Numeric(n) => Ok(CssValue::Numeric(clone_number(n))),
        Value::Literal(ss) => {
            proof {
                lemma_sstring_view(ss);
            }
            match eval_parts(&ss.parts, sc, fns, fuel) {
                Ok(t) => Ok(literal_value_exec(t, ss)),
                Err(e) => Err(e),
            }
        },
        Value::Variable(n, pos) => match sc.get(n.as_slice()) {
            Some(x) => Ok(x),
            None => Err(Error::At(str_bytes("Undefined variable."), *pos)),
        },
        Value::Call(n, args, pos) => {
            proof {
                lemma_call_view(v);
            }
            match eval_args(args, sc, fns, fuel) {
                Ok(avs) => match find_mixin_exec(fns, n.as_slice()) {
                    Some(c) => if fuel == 0 {
                        Err(Error::S(str_bytes("Too deeply nested function calls.")))
                    } else {
                        call_user(&c, &avs, *pos, sc, fns, fuel - 1)
                    },
                    None => call_function(n.as_slice(), &avs, *pos),
                },
                Err(e) => Err(e),
            }
        },
        Value::Plus(a, b) => match eval(a, sc, fns, fuel) {
            Ok(x) => match eval(b, sc, fns, fuel) {
                Ok(y) => op_plus(x, y),
                Err(e) => Err(e),
            },
            Err(e) => Err(e),
        },
        Value::List(vs, sep) => {
            proof {
                lemma_list_view(v);
            }
            match eval_list(vs, sc, fns, fuel) {
                Ok(xs) => {
                    let r = CssValue::List(xs, *sep);
                    proof {
                        lemma_css_list_view(&r);
                    }
                    Ok(r)
                },
                Err(e) => Err(e),
            }
        },
    }
}

pub fn eval_parts(ps: &Vec<StringPart>, sc: &Scope, fns: &Vec<MixinDef>, fuel: usize) -> (r: Result<Vec<u8>, Error>)
    ensures
        match r {
            Ok(t) => spec_eval_parts(parts_view(ps@), sc.view(), mixins_view(fns@), fuel as nat, ps.len() as int) == Ok::<
                Seq<u8>,
                ErrorV,
            >(t@),
            Err(e) => spec_eval_parts(parts_view(ps@), sc.view(), mixins_view(fns@), fuel as nat, ps.len() as int) == Err::<
                Seq<u8>,
                ErrorV,
            >(e.view()),
        },
    decreases fuel, 0nat, ps, 0nat,
{
    let ghost pv = parts_view(ps@);
    let mut t: Vec<u8> = Vec::new();
    let mut i: usize = 0;
    while i < ps.len()
        invariant
            i <= ps.len(),
            pv == parts_view(ps@),
            spec_eval_parts(pv, sc.view(), mixins_view(fns@), fuel as nat, i as int) == Ok::<Seq<u8>, ErrorV>(t@),
        decreases ps.len() - i,
    {
        proof {
            vstd::std_specs::vec::axiom_vec_index_decreases(*ps, i as int);
        }
        match &ps[i] {
            StringPart::Raw(b) => {
                push_bytes(&mut t, b.as_slice());
            },
            StringPart::Interpolation(x) => {
                match eval(x, sc, fns, fuel) {
                    Ok(xv) => {
                        let it = interp_text_exec(&xv);
                        push_bytes(&mut t, it.as_slice());
                    },
                    Err(e) => {
                        proof {
                            lemma_parts_err(pv, sc.view(), mixins_view(fns@), fuel as nat, i + 1, ps.len() as int);
                        }
                        return Err(e);
                    },
                }
            },
        }
        i += 1;
    }
    Ok(t)
}

fn eval_list(vs: &Vec<Value>, sc: &Scope, fns: &Vec<MixinDef>, fuel: usize) -> (r: Result<Vec<CssValue>, Error>)
    ensures
        match r {
            Ok(xs) => spec_eval_list(values_view(vs@), sc.view(), mixins_view(fns@), fuel as nat, vs.len() as int) == Ok::<
                Seq<CssValueV>,
                ErrorV,
            >(css_values_view(xs@)),
            Err(e) => spec_eval_list(values_view(vs@), sc.view(), mixins_view(fns@), fuel as nat, vs.len() as int) == Err::<
                Seq<CssValueV>,
                ErrorV,
            >(e.view()),
        },
    decreases fuel, 0nat, vs, 0nat,
{
    let ghost vv = values_view(vs@);
    let mut xs: Vec<CssValue> = Vec::new();
    let mut i: usize = 0;
    proof {
        assert(css_values_view(xs@) =~= Seq::<CssValueV>::empty());
    }
    while i < vs.len()
        invariant
            i <= vs.len(),
            vv == values_view(vs@),
            spec_eval_list(vv, sc.view(), mixins_view(fns@), fuel as nat, i as int) == Ok::<Seq<CssValueV>, ErrorV>(
                css_values_view(xs@),
            ),
        decreases vs.len() - i,
    {
        proof {
            vstd::std_specs::vec::axiom_vec_index_decreases(*vs, i as int);
        }
        match eval(&vs[i], sc, fns, fuel) {
            Ok(x) => {
                let ghost x0 = xs@;
                let ghost xv = x.view();
                xs.push(x);
                proof {
                    assert(css_values_view(xs@) =~= css_values_view(x0).push(xv));
                }
            },
            Err(e) => {
                proof {
                    lemma_list_err(vv, sc.view(), mixins_view(fns@), fuel as nat, i + 1, vs.len() as int);
                }
                return Err(e);
            },
        }
        i += 1;
    }
    Ok(xs)
}

pub fn eval_args(args: &Vec<CallArg>, sc: &Scope, fns: &Vec<MixinDef>, fuel: usize) -> (r: Result<Vec<Arg>, Error>)
    ensures
        match r {
            Ok(xs) => spec_eval_args(args_view(args@), sc.view(), mixins_view(fns@), fuel as nat, args.len() as int) == Ok::<
                Seq<ArgV>,
                ErrorV,
            >(arg_views(xs@)),
            Err(e) => spec_eval_args(args_view(args@), sc.view(), mixins_view(fns@), fuel as nat, args.len() as int) == Err::<
                Seq<ArgV>,
                ErrorV,
            >(e.view()),
        },
    decreases fuel, 0nat, args, 0nat,
{
    let ghost av = args_view(args@);
    let mut xs: Vec<Arg> = Vec::new();
    let mut i: usize = 0;
    proof {
        assert(arg_views(xs@) =~= Seq::<ArgV>::empty());
    }
    while i < args.len()
        invariant
            i <= args.len(),
            av == args_view(args@),
            spec_eval_args(av, sc.view(), mixins_view(fns@), fuel as nat, i as int) == Ok::<Seq<ArgV>, ErrorV>(arg_views(xs@)),
        decreases args.len() - i,
    {
        proof {
            vstd::std_specs::vec::axiom_vec_index_decreases(*args, i as int);
        }
        match eval(&args[i].value, sc, fns, fuel) {
            Ok(x) => {
                let name = match &args[i].name {
                    Some(n) => Some(slice_to_vec(n.as_slice())),
                    None => None,
                };
                let ghost x0 = xs@;
                let a = Arg { name, value: x };
                let ghost a_v = (opt_bytes_view(a.name), a.value.view());
                xs.push(a);
                proof {
                    assert(arg_views(xs@) =~= arg_views(x0).push(a_v));
                }
            },
            Err(e) => {
                proof {
                    lemma_args_err(av, sc.view(), mixins_view(fns@), fuel as nat, i + 1, args.len() as int);
                }
                return Err(e);
            },
        }
        i += 1;
    }
    Ok(xs)
}

fn concat_text_exec(v: &CssValue) -> (r: Vec<u8>)
    ensures
        r@ == concat_text(v.view()),
{
    match v {
        CssValue::Str(b, _) => slice_to_vec(b.as_slice()),
        _ => format_value_exec(v),
    }
}

/// `a + b`.
pub fn op_plus(a: CssValue, b: CssValue) -> (r: Result<CssValue, Error>)
    ensures
        vres(r) == spec_op_plus(a.view(), b.view()),
{
    match (&a, &b) {
        (CssValue::Numeric(x), CssValue::Numeric(y)) => {
            if bytes_eq(x.unit.as_slice(), y.unit.as_slice()) || y.unit.len() == 0
                || x.unit.len() == 0 {
                match x.value.checked_add(y.value) {
                    Some(s) => {
                        let unit = if x.unit.len() == 0 {
                            slice_to_vec(y.unit.as_slice())
                        } else {
                            slice_to_vec(x.unit.as_slice())
                        };
                        Ok(CssValue::Numeric(Number { value: s, unit }))
                    },
                    None => Err(Error::S(str_bytes("Number too large."))),
                }
            } else {
                Err(Error::S(str_bytes("Incompatible units.")))
            }
        },
        (CssValue::Str(x, q), _) => {
            let mut t = slice_to_vec(x.as_slice());
            let c = concat_text_exec(&b);
            push_bytes(&mut t, c.as_slice());
            Ok(CssValue::Str(t, *q))
        },
        (_, CssValue::Str(y, q)) => {
            let mut t = concat_text_exec(&a);
            push_bytes(&mut t, y.as_slice());
            Ok(CssValue::Str(t, *q))
        },
        _ => Err(Error::S(str_bytes("Undefined operation."))),
    }
}


// ---------------------------------------------------------------------
// Exec: calls of built-in functions
// ---------------------------------------------------------------------

/// A formal argument of a built-in function.
#[derive(Debug)]
pub struct Formal {
    pub name: Vec<u8>,
    pub default: Option<CssValue>,
}

pub open spec fn formal_views(fs: Seq<Formal>) -> Seq<FormalV> {
    Seq::new(
        fs.len(),
        |i: int|
            (
                fs[i].name@,
                match fs[i].default {
                    Some(d) => Some(d.view()),
                    None => None,
                },
            ),
    )
}

fn formal_exec(n: &str) -> (r: Formal)
    ensures
        r.name@ == kw(n),
        r.default is None,
{
    Formal { name: str_bytes(n), default: None }
}

fn alpha_formals_exec() -> (r: Vec<Formal>)
    ensures
        formal_views(r@) == alpha_formals(),
{
    let mut r: Vec<Formal> = Vec::new();
    r.push(formal_exec("color"));
    r.push(formal_exec("amount"));
    proof {
        assert(formal_views(r@) =~= alpha_formals());
    }
    r
}

fn rgba2_formals_exec() -> (r: Vec<Formal>)
    ensures
        formal_views(r@) == rgba2_formals(),
{
    let mut r: Vec<Formal> = Vec::new();
    r.push(formal_exec("color"));
    r.push(formal_exec("alpha"));
    proof {
        assert(formal_views(r@) =~= rgba2_formals());
    }
    r
}

fn rgba4_formals_exec() -> (r: Vec<Formal>)
    ensures
        formal_views(r@) == rgba4_formals(),
{
    let mut r: Vec<Formal> = Vec::new();
    r.push(formal_exec("red"));
    r.push(formal_exec("green"));
    r.push(formal_exec("blue"));
    let one_v = CssValue::Numeric(Number { value: 10000000000i128, unit: Vec::new() });
    r.push(Formal { name: str_bytes("alpha"), default: Some(one_v) });
    proof {
        assert(r@[3].default.unwrap().view() == CssValueV::Numeric(
            NumberV { value: 10000000000i128, unit: seq![] },
        ));
        assert(formal_views(r@) =~= rgba4_formals());
    }
    r
}

fn positional_exec(avs: &Vec<Arg>) -> (r: Vec<CssValue>)
    ensures
        css_values_view(r@) == positional(arg_views(avs@)),
{
    let ghost av = arg_views(avs@);
    let mut r: Vec<CssValue> = Vec::new();
    let mut i: usize = 0;
    proof {
        assert(css_values_view(r@) =~= Seq::<CssValueV>::empty());
        assert(av.take(0) =~= Seq::<ArgV>::empty());
    }
    while i < avs.len()
        invariant
            i <= avs.len(),
            av == arg_views(avs@),
            css_values_view(r@) == positional(av.take(i as int)),
        decreases avs.len() - i,
    {
        proof {
            assert(av.take(i + 1).drop_last() =~= av.take(i as int));
            assert(av.take(i + 1).last() == av[i as int]);
        }
        match &avs[i].name {
            None => {
                let ghost r0 = r@;
                let x = clone_css(&avs[i].value);
                r.push(x);
                proof {
                    assert(css_values_view(r@) =~= css_values_view(r0).push(av[i as int].1));
                }
            },
            Some(_) => {},
        }
        i += 1;
    }
    proof {
        assert(av.take(avs.len() as int) =~= av);
    }
    r
}

fn named_arg_exec(avs: &Vec<Arg>, n: &[u8]) -> (r: Option<CssValue>)
    ensures
        match r {
            Some(x) => named_arg(arg_views(avs@), n@) == Some(x.view()),
            None => named_arg(arg_views(avs@), n@) is None,
        },
{
    let ghost av = arg_views(avs@);
    let mut k: usize = avs.len();
    proof {
        assert(av.take(k as int) =~= av);
    }
    while k > 0
        invariant
            k <= avs.len(),
            av == arg_views(avs@),
            named_arg(av, n@) == named_arg(av.take(k as int), n@),
        decreases k,
    {
        proof {
            assert(av.take(k as int).drop_last() =~= av.take(k - 1));
            assert(av.take(k as int).last() == av[k - 1]);
        }
        match &avs[k - 1].name {
            Some(m) => {
                if bytes_eq(m.as_slice(), n) {
                    return Some(clone_css(&avs[k - 1].value));
                }
            },
            None => {},
        }
        k -= 1;
    }
    None
}

fn is_formal_exec(fs: &Vec<Formal>, n: &[u8]) -> (r: bool)
    ensures
        r == is_formal(formal_views(fs@), n@),
{
    let ghost fv = formal_views(fs@);
    let mut i: usize = 0;
    while i < fs.len()
        invariant
            i <= fs.len(),
            fv == formal_views(fs@),
            forall|j: int| 0 <= j < i ==> fv[j].0 != n@,
        decreases fs.len() - i,
    {
        if bytes_eq(fs[i].name.as_slice(), n) {
            assert(fv[i as int].0 == n@);
            return true;
        }
        i += 1;
    }
    false
}

fn unknown_named_exec(avs: &Vec<Arg>, fs: &Vec<Formal>) -> (r: Option<Vec<u8>>)
    ensures
        opt_bytes_view(r) == unknown_named(arg_views(avs@), formal_views(fs@), 0),
{
    let ghost av = arg_views(avs@);
    let ghost fv = formal_views(fs@);
    let mut i: usize = 0;
    while i < avs.len()
        invariant
            i <= avs.len(),
            av == arg_views(avs@),
            fv == formal_views(fs@),
            unknown_named(av, fv, 0) == unknown_named(av, fv, i as int),
        decreases avs.len() - i,
    {
        match &avs[i].name {
            Some(m) => {
                if !is_formal_exec(fs, m.as_slice()) {
                    return Some(slice_to_vec(m.as_slice()));
                }
            },
            None => {},
        }
        i += 1;
    }
    None
}

proof fn lemma_bind_values_err(fs: Seq<FormalV>, avs: Seq<ArgV>, k: int, n: int)
    requires
        0 < k <= n <= fs.len(),
        bind_values(fs, avs, k) is Err,
    ensures
        bind_values(fs, avs, n) == bind_values(fs, avs, k),
    decreases n - k,
{
    if n > k {
        lemma_bind_values_err(fs, avs, k, n - 1);
    }
}

proof fn lemma_bind_values_len(fs: Seq<FormalV>, avs: Seq<ArgV>, k: int)
    requires
        0 <= k <= fs.len(),
    ensures
        bind_values(fs, avs, k) matches Ok(vals) ==> vals.len() == k,
    decreases k,
{
    if k > 0 {
        lemma_bind_values_len(fs, avs, k - 1);
    }
}

fn bind_values_exec(fs: &Vec<Formal>, avs: &Vec<Arg>) -> (r: Result<Vec<CssValue>, Vec<u8>>)
    ensures
        match r {
            Ok(vals) => bind_values(formal_views(fs@), arg_views(avs@), fs.len() as int) == Ok::<
                Seq<CssValueV>,
                Seq<u8>,
            >(css_values_view(vals@)),
            Err(n) => bind_values(formal_views(fs@), arg_views(avs@), fs.len() as int) == Err::<
                Seq<CssValueV>,
                Seq<u8>,
            >(n@),
        },
{
    let ghost fv = formal_views(fs@);
    let ghost av = arg_views(avs@);
    let pos = positional_exec(avs);
    let mut vals: Vec<CssValue> = Vec::new();
    let mut k: usize = 0;
    proof {
        assert(css_values_view(vals@) =~= Seq::<CssValueV>::empty());
    }
    while k < fs.len()
        invariant
            k <= fs.len(),
            fv == formal_views(fs@),
            av == arg_views(avs@),
            css_values_view(pos@) == positional(av),
            bind_values(fv, av, k as int) == Ok::<Seq<CssValueV>, Seq<u8>>(css_values_view(vals@)),
        decreases fs.len() - k,
    {
        let ghost v0 = vals@;
        if k < pos.len() {
            let x = clone_css(&pos[k]);
            vals.push(x);
            proof {
                assert(css_values_view(vals@) =~= css_values_view(v0).push(positional(av)[k as int]));
            }
        } else {
            match named_arg_exec(avs, fs[k].name.as_slice()) {
                Some(x) => {
                    let ghost xv = x.view();
                    vals.push(x);
                    proof {
                        assert(css_values_view(vals@) =~= css_values_view(v0).push(xv));
                    }
                },
                None => {
                    match &fs[k].default {
                        Some(d) => {
                            let x = clone_css(d);
                            vals.push(x);
                            proof {
                                assert(css_values_view(vals@) =~= css_values_view(v0).push(
                                    fv[k as int].1.unwrap(),
                                ));
                            }
                        },
                        None => {
                            proof {
                                lemma_bind_values_err(fv, av, k + 1, fs.len() as int);
                            }
                            return Err(slice_to_vec(fs[k].name.as_slice()));
                        },
                    }
                },
            }
        }
        k += 1;
    }
    Ok(vals)
}

fn too_many_exec(allowed: usize, passed: usize) -> (r: Vec<u8>)
    ensures
        r@ == too_many_message(allowed as nat, passed as nat),
{
    let mut r = str_bytes("Only ");
    let d = dec_digits_exec(allowed as u128);
    push_bytes(&mut r, d.as_slice());
    if allowed == 1 {
        push_str(&mut r, " argument");
    } else {
        push_str(&mut r, " arguments");
    }
    push_str(&mut r, " allowed, but ");
    let d2 = dec_digits_exec(passed as u128);
    push_bytes(&mut r, d2.as_slice());
    if passed == 1 {
        push_str(&mut r, " was passed.");
    } else {
        push_str(&mut r, " were passed.");
    }
    proof {
        assert(r@ =~= too_many_message(allowed as nat, passed as nat));
    }
    r
}

/// Binds the arguments of a call to the formal arguments of a built-in
/// function declared at `decl`.
fn bind(fs: &Vec<Formal>, avs: &Vec<Arg>, pos: SourcePos, decl: Decl) -> (r: Result<
    Vec<CssValue>,
    Error,
>)
    ensures
        match r {
            Ok(vals) => spec_bind(formal_views(fs@), arg_views(avs@), pos, decl.view()) == Ok::<
                Seq<CssValueV>,
                ErrorV,
            >(css_values_view(vals@)) && vals.len() == fs.len(),
            Err(e) => spec_bind(formal_views(fs@), arg_views(avs@), pos, decl.view()) == Err::<
                Seq<CssValueV>,
                ErrorV,
            >(e.view()),
        },
{
    let ghost dv = decl.view();
    let pos_args = positional_exec(avs);
    if pos_args.len() > fs.len() {
        let m = too_many_exec(fs.len(), pos_args.len());
        return Err(Error::BadCall(m, pos, Some(decl)));
    }
    match bind_values_exec(fs, avs) {
        Err(n) => {
            let mut m = str_bytes("Missing argument $");
            push_bytes(&mut m, n.as_slice());
            push_str(&mut m, ".");
            Err(Error::BadCall(m, pos, Some(decl)))
        },
        Ok(vals) => {
            proof {
                lemma_bind_values_len(formal_views(fs@), arg_views(avs@), fs.len() as int);
            }
            match unknown_named_exec(avs, fs) {
                Some(n) => {
                    let mut m = str_bytes("No argument named $");
                    push_bytes(&mut m, n.as_slice());
                    push_str(&mut m, ".");
                    Err(Error::BadCall(m, pos, Some(decl)))
                },
                None => Ok(vals),
            }
        },
    }
}

// ---------------------------------------------------------------------
// Declared mixins and content blocks
// ---------------------------------------------------------------------

/// The formal arguments of a declaration, by name only.
pub open spec fn formal_names(fs: Seq<FormalArg>) -> Seq<FormalV> {
    Seq::new(fs.len(), |i: int| (fs[i].name@, None::<CssValueV>))
}

/// The frame of the first `k` formal arguments of a declaration bound to
/// the arguments of a call: each takes its positional argument, else the
/// argument named like it, else its default, evaluated with the global
/// frame `g` and the frame of the arguments before it; one with none of
/// these is missing.
pub open spec fn callable_frame(
    fs: Seq<FormalArg>,
    avs: Seq<ArgV>,
    g: FrameV,
    pos: SourcePos,
    decl: DeclV,
    fns: Seq<MixinV>,
    fuel: nat,
    k: int,
) -> Result<FrameV, ErrorV>
    decreases fuel, 6nat, avs, k,
{
    if k <= 0 || k > fs.len() {
        Ok(seq![])
    } else {
        match callable_frame(fs, avs, g, pos, decl, fns, fuel, k - 1) {
            Err(e) => Err(e),
            Ok(fr) => {
                let n = fs[k - 1].name@;
                let p = positional(avs);
                if k - 1 < p.len() {
                    Ok(fr.push((n, p[k - 1])))
                } else {
                    match named_arg(avs, n) {
                        Some(v) => Ok(fr.push((n, v))),
                        None => match fs[k - 1].default {
                            Some(d) => match spec_eval(d.view(), seq![g, fr], fns, fuel) {
                                Ok(v) => Ok(fr.push((n, v))),
                                Err(e) => Err(e),
                            },
                            None => Err(
                                ErrorV::BadCall(
                                    kw("Missing argument $") + n + kw("."),
                                    pos,
                                    Some(decl),
                                ),
                            ),
                        },
                    }
                }
            },
        }
    }
}

/// Binds the arguments of a call to the formal arguments of a declared
/// mixin or content block, into a new frame: too many positional
/// arguments, a missing argument, and a named argument that names no
/// formal argument are errors, in that order.
pub open spec fn spec_bind_callable(
    fs: Seq<FormalArg>,
    avs: Seq<ArgV>,
    g: FrameV,
    pos: SourcePos,
    decl: DeclV,
    fns: Seq<MixinV>,
    fuel: nat,
) -> Result<FrameV, ErrorV>
    decreases fuel, 8nat, avs, 0nat,
{
    let np = positional(avs).len();
    if np > fs.len() {
        Err(ErrorV::BadCall(too_many_message(fs.len(), np), pos, Some(decl)))
    } else {
        match callable_frame(fs, avs, g, pos, decl, fns, fuel, fs.len() as int) {
            Err(e) => Err(e),
            Ok(fr) => match unknown_named(avs, formal_names(fs), 0) {
                Some(n) => Err(
                    ErrorV::BadCall(kw("No argument named $") + n + kw("."), pos, Some(decl)),
                ),
                None => Ok(fr),
            },
        }
    }
}

proof fn lemma_callable_frame_err(
    fs: Seq<FormalArg>,
    avs: Seq<ArgV>,
    g: FrameV,
    pos: SourcePos,
    decl: DeclV,
    fns: Seq<MixinV>,
    fuel: nat,
    k: int,
    n: int,
)
    requires
        0 < k <= n <= fs.len(),
        callable_frame(fs, avs, g, pos, decl, fns, fuel, k) is Err,
    ensures
        callable_frame(fs, avs, g, pos, decl, fns, fuel, n) == callable_frame(
            fs,
            avs,
            g,
            pos,
            decl,
            fns,
            fuel,
            k,
        ),
    decreases n - k,
{
    if n > k {
        lemma_callable_frame_err(fs, avs, g, pos, decl, fns, fuel, k, n - 1);
    }
}

/// The global frame of a scope.
pub open spec fn global_frame(sc: ScopeV) -> FrameV {
    if sc.len() > 0 {
        sc[0]
    } else {
        seq![]
    }
}

/// A call of a declared function: its arguments are bound in a frame over
/// the global frame `g`, and its body runs there until `@return`; a body
/// that ends without one is an error.
pub open spec fn spec_call_user(
    c: Rc<Callable>,
    avs: Seq<ArgV>,
    pos: SourcePos,
    g: FrameV,
    fns: Seq<MixinV>,
    fuel: nat,
) -> Result<CssValueV, ErrorV>
    decreases fuel, 9nat, avs, 0nat,
{
    match spec_bind_callable(c.args@, avs, g, pos, DeclV::File(c.decl), fns, fuel) {
        Err(e) => Err(e),
        Ok(fr) => match spec_fn_body(c.body@, seq![g, fr], fns, fuel, c.body.len() as int) {
            Err(e) => Err(e),
            Ok((_, Some(x))) => Ok(x),
            Ok((_, None)) => Err(ErrorV::S(kw("Function finished without @return."))),
        },
    }
}

/// The first `n` statements of a function body, in order, until one
/// returns: the scope they leave, and the value returned, if one was.
pub open spec fn spec_fn_body(
    items: Seq<Item>,
    sc: ScopeV,
    fns: Seq<MixinV>,
    fuel: nat,
    n: int,
) -> Result<(ScopeV, Option<CssValueV>), ErrorV>
    decreases fuel, 7nat, items, n,
{
    if n <= 0 || n > items.len() {
        Ok((sc, None))
    } else {
        match spec_fn_body(items, sc, fns, fuel, n - 1) {
            Err(e) => Err(e),
            Ok((sc1, Some(x))) => Ok((sc1, Some(x))),
            Ok((sc1, None)) => spec_fn_item(items[n - 1], sc1, fns, fuel),
        }
    }
}

/// Whether a value counts as true in a condition.
pub open spec fn is_true(v: CssValueV) -> bool {
    !(v is Null) && v != CssValueV::Bool(false)
}

/// One statement of a function body: a variable declaration, `@return`,
/// `@if`, `@error`, `@debug` and `@warn` (evaluated, their message not
/// kept), and comments; any other statement is an error.
pub open spec fn spec_fn_item(item: Item, sc: ScopeV, fns: Seq<MixinV>, fuel: nat) -> Result<
    (ScopeV, Option<CssValueV>),
    ErrorV,
>
    decreases fuel, 7nat, item, 0nat,
{
    match item {
        Item::VariableDeclaration { name, val, default, global, pos } => match spec_eval(
            val.view(),
            sc,
            fns,
            fuel,
        ) {
            Ok(x) => Ok((spec_set_variable(sc, name@, x, default, global), None)),
            Err(e) => Err(e),
        },
        Item::Return(v, _) => match spec_eval(v.view(), sc, fns, fuel) {
            Ok(x) => Ok((sc, Some(x))),
            Err(e) => Err(e),
        },
        Item::IfStatement(cond, do_if, do_else) => match spec_eval(cond.view(), sc, fns, fuel) {
            Err(e) => Err(e),
            Ok(c) => if is_true(c) {
                spec_fn_body(do_if@, sc, fns, fuel, do_if.len() as int)
            } else {
                spec_fn_body(do_else@, sc, fns, fuel, do_else.len() as int)
            },
        },
        Item::Error(v, pos) => match spec_eval(v.view(), sc, fns, fuel) {
            Ok(x) => Err(ErrorV::Invalid(InvalidV::AtError(format_value(x)), pos)),
            Err(e) => Err(e),
        },
        Item::Debug(v) => match spec_eval(v.view(), sc, fns, fuel) {
            Ok(_) => Ok((sc, None)),
            Err(e) => Err(e),
        },
        Item::Warn(v) => match spec_eval(v.view(), sc, fns, fuel) {
            Ok(_) => Ok((sc, None)),
            Err(e) => Err(e),
        },
        Item::Comment(_) => Ok((sc, None)),
        Item::Empty => Ok((sc, None)),
        _ => Err(ErrorV::S(kw("This statement is not allowed in a function."))),
    }
}


/// The formal arguments of a declaration, by name only.
fn formal_name_list(fs: &Vec<FormalArg>) -> (r: Vec<Formal>)
    ensures
        formal_views(r@) == formal_names(fs@),
{
    let mut r: Vec<Formal> = Vec::new();
    let mut i: usize = 0;
    while i < fs.len()
        invariant
            i <= fs.len(),
            r.len() == i,
            formal_views(r@) == formal_names(fs@).take(i as int),
        decreases fs.len() - i,
    {
        let ghost r0 = r@;
        let nm = slice_to_vec(fs[i].name.as_slice());
        r.push(Formal { name: nm, default: None });
        proof {
            assert(r@.len() == i + 1);
            assert(r@[i as int].name@ == fs@[i as int].name@);
            assert(r@[i as int].default is None);
            assert forall|j: int| 0 <= j <= i implies #[trigger] formal_views(r@)[j] == formal_names(
                fs@,
            ).take(i + 1)[j] by {
                if j < i {
                    assert(r@[j] == r0[j]);
                    assert(formal_views(r0)[j] == formal_names(fs@).take(i as int)[j]);
                }
            }
            assert(formal_views(r@) =~= formal_names(fs@).take(i + 1));
        }
        i += 1;
    }
    proof {
        assert(formal_names(fs@).take(fs.len() as int) =~= formal_names(fs@));
    }
    r
}

/// Binds the arguments of a call to the formal arguments of a declared
/// mixin or content block, declared at `decl`: `sc` holds the global
/// frame and an empty frame, which gets the arguments.
pub fn bind_callable(
    fs: &Vec<FormalArg>,
    avs: &Vec<Arg>,
    sc: &mut Scope,
    pos: SourcePos,
    decl: SourcePos,
    fns: &Vec<MixinDef>,
    fuel: usize,
) -> (r: Result<(), Error>)
    requires
        old(sc).frames.len() == 2,
        old(sc).frames@[1].len() == 0,
    ensures
        final(sc).frames.len() == 2,
        final(sc).frames@[0] == old(sc).frames@[0],
        match r {
            Ok(()) => spec_bind_callable(
                fs@,
                arg_views(avs@),
                frame_view(old(sc).frames@[0]@),
                pos,
                DeclV::File(decl),
                mixins_view(fns@),
                fuel as nat,
            ) == Ok::<FrameV, ErrorV>(frame_view(final(sc).frames@[1]@)),
            Err(e) => spec_bind_callable(
                fs@,
                arg_views(avs@),
                frame_view(old(sc).frames@[0]@),
                pos,
                DeclV::File(decl),
                mixins_view(fns@),
                fuel as nat,
            ) == Err::<FrameV, ErrorV>(e.view()),
        },
    decreases fuel, 8nat, avs, 0nat,
{
    let ghost g = frame_view(sc.frames@[0]@);
    let ghost av = arg_views(avs@);
    let ghost dv = DeclV::File(decl);
    let pos_args = positional_exec(avs);
    if pos_args.len() > fs.len() {
        let m = too_many_exec(fs.len(), pos_args.len());
        return Err(Error::BadCall(m, pos, Some(Decl::File(decl))));
    }
    proof {
        assert(frame_view(sc.frames@[1]@) =~= Seq::<(Seq<u8>, CssValueV)>::empty());
    }
    let mut k: usize = 0;
    while k < fs.len()
        invariant
            k <= fs.len(),
            sc.frames.len() == 2,
            sc.frames@[0] == old(sc).frames@[0],
            g == frame_view(old(sc).frames@[0]@),
            av == arg_views(avs@),
            dv == DeclV::File(decl),
            css_values_view(pos_args@) == positional(av),
            pos_args.len() <= fs.len(),
            callable_frame(fs@, av, g, pos, dv, mixins_view(fns@), fuel as nat, k as int) == Ok::<FrameV, ErrorV>(
                frame_view(sc.frames@[1]@),
            ),
        decreases fs.len() - k,
    {
        let ghost fr0 = frame_view(sc.frames@[1]@);
        let v: CssValue = if k < pos_args.len() {
            clone_css(&pos_args[k])
        } else {
            match named_arg_exec(avs, fs[k].name.as_slice()) {
                Some(v) => v,
                None => match &fs[k].default {
                    Some(d) => {
                        proof {
                            assert(sc.view() =~= seq![g, fr0]);
                        }
                        match eval(d, &*sc, fns, fuel) {
                            Ok(v) => v,
                            Err(e) => {
                                proof {
                                    lemma_callable_frame_err(fs@, av, g, pos, dv, mixins_view(fns@), fuel as nat, k + 1, fs.len() as int);
                                }
                                return Err(e);
                            },
                        }
                    },
                    None => {
                        let mut m = str_bytes("Missing argument $");
                        push_bytes(&mut m, fs[k].name.as_slice());
                        push_str(&mut m, ".");
                        proof {
                            lemma_callable_frame_err(fs@, av, g, pos, dv, mixins_view(fns@), fuel as nat, k + 1, fs.len() as int);
                        }
                        return Err(Error::BadCall(m, pos, Some(Decl::File(decl))));
                    },
                },
            }
        };
        let mut fr = sc.frames.pop().unwrap();
        fr.push(Var { name: slice_to_vec(fs[k].name.as_slice()), value: v });
        sc.frames.push(fr);
        proof {
            assert(frame_view(sc.frames@[1]@) =~= fr0.push((fs@[k as int].name@, v.view())));
        }
        k += 1;
    }
    let names = formal_name_list(fs);
    match unknown_named_exec(avs, &names) {
        Some(n) => {
            let mut m = str_bytes("No argument named $");
            push_bytes(&mut m, n.as_slice());
            push_str(&mut m, ".");
            Err(Error::BadCall(m, pos, Some(Decl::File(decl))))
        },
        None => Ok(()),
    }
}

/// A copy of a frame.
fn clone_frame(fr: &Vec<Var>) -> (r: Vec<Var>)
    ensures
        frame_view(r@) == frame_view(fr@),
{
    let mut r: Vec<Var> = Vec::new();
    let mut i: usize = 0;
    while i < fr.len()
        invariant
            i <= fr.len(),
            frame_view(r@) == frame_view(fr@).take(i as int),
        decreases fr.len() - i,
    {
        let ghost r0 = r@;
        r.push(Var { name: slice_to_vec(fr[i].name.as_slice()), value: clone_css(&fr[i].value) });
        proof {
            assert(frame_view(r@) =~= frame_view(r0).push(frame_view(fr@)[i as int]));
            assert(frame_view(fr@).take(i + 1) =~= frame_view(fr@).take(i as int).push(
                frame_view(fr@)[i as int],
            ));
        }
        i += 1;
    }
    proof {
        assert(frame_view(fr@).take(fr.len() as int) =~= frame_view(fr@));
    }
    r
}

/// A copy of the global frame of a scope.
fn global_frame_exec(sc: &Scope) -> (r: Vec<Var>)
    ensures
        frame_view(r@) == global_frame(sc.view()),
{
    if sc.frames.len() > 0 {
        clone_frame(&sc.frames[0])
    } else {
        let r: Vec<Var> = Vec::new();
        proof {
            assert(frame_view(r@) =~= Seq::<(Seq<u8>, CssValueV)>::empty());
        }
        r
    }
}

/// An optional value, by its view.
pub open spec fn opt_css_view(o: Option<CssValue>) -> Option<CssValueV> {
    match o {
        Some(x) => Some(x.view()),
        None => None,
    }
}

/// Calls a declared function with evaluated arguments.
fn call_user(
    c: &Rc<Callable>,
    avs: &Vec<Arg>,
    pos: SourcePos,
    sc: &Scope,
    fns: &Vec<MixinDef>,
    fuel: usize,
) -> (r: Result<CssValue, Error>)
    ensures
        vres(r) == spec_call_user(
            *c,
            arg_views(avs@),
            pos,
            global_frame(sc.view()),
            mixins_view(fns@),
            fuel as nat,
        ),
    decreases fuel, 9nat, avs, 0nat,
{
    let g = global_frame_exec(sc);
    let ghost gv = frame_view(g@);
    let mut frames: Vec<Vec<Var>> = Vec::new();
    frames.push(g);
    frames.push(Vec::new());
    let mut fsc = Scope { frames };
    match bind_callable(&c.args, avs, &mut fsc, pos, c.decl, fns, fuel) {
        Err(e) => {
            return Err(e);
        },
        Ok(()) => {},
    }
    proof {
        assert(fsc.view() =~= seq![gv, frame_view(fsc.frames@[1]@)]);
    }
    match run_fn_body(&c.body, &mut fsc, fns, fuel) {
        Err(e) => Err(e),
        Ok(Some(x)) => Ok(x),
        Ok(None) => Err(Error::S(str_bytes("Function finished without @return."))),
    }
}

/// Once the first `k` statements of a function body fail or return,
/// longer prefixes give the same.
proof fn lemma_fn_body_done(
    items: Seq<Item>,
    sc: ScopeV,
    fns: Seq<MixinV>,
    fuel: nat,
    k: int,
    n: int,
)
    requires
        0 < k <= n <= items.len(),
        !(spec_fn_body(items, sc, fns, fuel, k) matches Ok((_, None))),
    ensures
        spec_fn_body(items, sc, fns, fuel, n) == spec_fn_body(items, sc, fns, fuel, k),
    decreases n - k,
{
    if n > k {
        lemma_fn_body_done(items, sc, fns, fuel, k, n - 1);
    }
}

/// Runs the statements of a function body in order until one returns.
fn run_fn_body(items: &Vec<Item>, sc: &mut Scope, fns: &Vec<MixinDef>, fuel: usize) -> (r: Result<
    Option<CssValue>,
    Error,
>)
    requires
        old(sc).wf(),
    ensures
        final(sc).wf(),
        match r {
            Ok(o) => spec_fn_body(items@, old(sc).view(), mixins_view(fns@), fuel as nat, items.len() as int)
                == Ok::<(ScopeV, Option<CssValueV>), ErrorV>((final(sc).view(), opt_css_view(o))),
            Err(e) => spec_fn_body(items@, old(sc).view(), mixins_view(fns@), fuel as nat, items.len() as int)
                == Err::<(ScopeV, Option<CssValueV>), ErrorV>(e.view()),
        },
    decreases fuel, 7nat, items, 0nat,
{
    let ghost sc0 = sc.view();
    let ghost mv = mixins_view(fns@);
    let mut i: usize = 0;
    while i < items.len()
        invariant
            i <= items.len(),
            sc.wf(),
            sc0 == old(sc).view(),
            mv == mixins_view(fns@),
            spec_fn_body(items@, sc0, mv, fuel as nat, i as int) == Ok::<
                (ScopeV, Option<CssValueV>),
                ErrorV,
            >((sc.view(), None)),
        decreases items.len() - i,
    {
        proof {
            vstd::std_specs::vec::axiom_vec_index_decreases(*items, i as int);
        }
        match run_fn_item(&items[i], sc, fns, fuel) {
            Err(e) => {
                proof {
                    lemma_fn_body_done(items@, sc0, mv, fuel as nat, i + 1, items.len() as int);
                }
                return Err(e);
            },
            Ok(Some(x)) => {
                proof {
                    lemma_fn_body_done(items@, sc0, mv, fuel as nat, i + 1, items.len() as int);
                }
                return Ok(Some(x));
            },
            Ok(None) => {},
        }
        i += 1;
    }
    Ok(None)
}

/// Runs one statement of a function body.
fn run_fn_item(item: &Item, sc: &mut Scope, fns: &Vec<MixinDef>, fuel: usize) -> (r: Result<
    Option<CssValue>,
    Error,
>)
    requires
        old(sc).wf(),
    ensures
        final(sc).wf(),
        match r {
            Ok(o) => spec_fn_item(*item, old(sc).view(), mixins_view(fns@), fuel as nat) == Ok::<
                (ScopeV, Option<CssValueV>),
                ErrorV,
            >((final(sc).view(), opt_css_view(o))),
            Err(e) => spec_fn_item(*item, old(sc).view(), mixins_view(fns@), fuel as nat) == Err::<
                (ScopeV, Option<CssValueV>),
                ErrorV,
            >(e.view()),
        },
    decreases fuel, 7nat, item, 0nat,
{
    match item {
        Item::VariableDeclaration { name, val, default, global, pos } => {
            match eval(val, sc, fns, fuel) {
                Ok(x) => {
                    sc.set_variable(slice_to_vec(name.as_slice()), x, *default, *global);
                    Ok(None)
                },
                Err(e) => Err(e),
            }
        },
        Item::Return(v, _) => match eval(v, sc, fns, fuel) {
            Ok(x) => Ok(Some(x)),
            Err(e) => Err(e),
        },
        Item::IfStatement(cond, do_if, do_else) => match eval(cond, sc, fns, fuel) {
            Err(e) => Err(e),
            Ok(c) => {
                let t = match &c {
                    CssValue::Null => false,
                    CssValue::Bool(b) => *b,
                    _ => true,
                };
                if t {
                    run_fn_body(do_if, sc, fns, fuel)
                } else {
                    run_fn_body(do_else, sc, fns, fuel)
                }
            },
        },
        Item::Error(v, pos) => match eval(v, sc, fns, fuel) {
            Ok(x) => Err(Error::Invalid(Invalid::AtError(format_value_exec(&x)), *pos)),
            Err(e) => Err(e),
        },
        Item::Debug(v) => match eval(v, sc, fns, fuel) {
            Ok(_) => Ok(None),
            Err(e) => Err(e),
        },
        Item::Warn(v) => match eval(v, sc, fns, fuel) {
            Ok(_) => Ok(None),
            Err(e) => Err(e),
        },
        Item::Comment(_) => Ok(None),
        Item::Empty => Ok(None),
        _ => Err(Error::S(str_bytes("This statement is not allowed in a function."))),
    }
}

fn formals_text_exec(fs: &Vec<Formal>) -> (r: Vec<u8>)
    ensures
        r@ == formals_text(formal_views(fs@)),
{
    let ghost fv = formal_views(fs@);
    let mut r: Vec<u8> = Vec::new();
    let mut i: usize = 0;
    while i < fs.len()
        invariant
            i <= fs.len(),
            fv == formal_views(fs@),
            r@ == formals_text(fv.take(i as int)),
        decreases fs.len() - i,
    {
        let mut this = str_bytes("$");
        push_bytes(&mut this, fs[i].name.as_slice());
        match &fs[i].default {
            Some(d) => {
                push_str(&mut this, ": ");
                let t = format_value_exec(d);
                push_bytes(&mut this, t.as_slice());
            },
            None => {},
        }
        proof {
            assert(fv.take(i + 1).drop_last() =~= fv.take(i as int));
            assert(fv.take(i + 1).last() == fv[i as int]);
        }
        if i == 0 {
            r = this;
        } else {
            push_str(&mut r, ", ");
            push_bytes(&mut r, this.as_slice());
        }
        i += 1;
    }
    proof {
        assert(fv.take(i as int) =~= fv);
    }
    r
}

fn builtin_decl_exec(n: &[u8], fs: &Vec<Formal>) -> (r: Decl)
    ensures
        r.view() == builtin_decl(n@, formal_views(fs@)),
{
    let mut sig = slice_to_vec(n);
    push_str(&mut sig, "(");
    let ft = formals_text_exec(fs);
    push_bytes(&mut sig, ft.as_slice());
    push_str(&mut sig, ")");
    let mut line = str_bytes("@function ");
    push_bytes(&mut line, sig.as_slice());
    push_str(&mut line, " {");
    let start = "@function ".len();
    let end = line.len() - " {".len();
    proof {
        assert(sig@ =~= n@ + kw("(") + formals_text(formal_views(fs@)) + kw(")"));
        assert(line@ =~= kw("@function ") + sig@ + kw(" {"));
    }
    Decl::Builtin(str_bytes("sass:color"), line, start, end)
}

fn not_a_exec(arg: &str, v: &CssValue, what: &str) -> (r: Vec<u8>)
    ensures
        r@ == not_a(kw(arg), v.view(), kw(what)),
{
    let mut r = str_bytes("$");
    push_str(&mut r, arg);
    push_str(&mut r, ": ");
    let t = format_value_exec(v);
    push_bytes(&mut r, t.as_slice());
    push_str(&mut r, " is not ");
    push_str(&mut r, what);
    push_str(&mut r, ".");
    proof {
        assert(r@ =~= not_a(kw(arg), v.view(), kw(what)));
    }
    r
}

fn adjust_alpha(n: &[u8], avs: &Vec<Arg>, pos: SourcePos, dir: bool) -> (r: Result<
    CssValue,
    Error,
>)
    ensures
        vres(r) == spec_adjust_alpha(n@, arg_views(avs@), pos, dir),
{
    let fs = alpha_formals_exec();
    let decl = builtin_decl_exec(n, &fs);
    match bind(&fs, avs, pos, decl) {
        Err(e) => Err(e),
        Ok(vals) => {
            let ghost vv = css_values_view(vals@);
            assert(vv[0] == vals@[0].view());
            assert(vv[1] == vals@[1].view());
            match &vals[0] {
                CssValue::Color(col) => match &vals[1] {
                    CssValue::Numeric(x) => {
                        if x.value < 0 || x.value > 10000000000i128 {
                            let mut m = str_bytes("$amount: Expected ");
                            let f = format_fixed_exec(x.value);
                            push_bytes(&mut m, f.as_slice());
                            push_bytes(&mut m, x.unit.as_slice());
                            push_str(&mut m, " to be within 0 and 1.");
                            proof {
                                assert(m@ =~= kw("$amount: Expected ") + format_number(x@) + kw(
                                    " to be within 0 and 1.",
                                ));
                            }
                            Err(Error::At(m, pos))
                        } else {
                            let na: i128 = if dir {
                                if col.alpha >= 10000000000i128 {
                                    10000000000i128
                                } else {
                                    col.alpha + x.value
                                }
                            } else {
                                if col.alpha <= 0 {
                                    0
                                } else {
                                    col.alpha - x.value
                                }
                            };
                            let alpha: i128 = if na < 0 {
                                0
                            } else if na > 10000000000i128 {
                                10000000000i128
                            } else {
                                na
                            };
                            Ok(CssValue::Color(Color { r: col.r, g: col.g, b: col.b, alpha }))
                        }
                    },
                    _ => Err(Error::At(not_a_exec("amount", &vals[1], "a number"), pos)),
                },
                _ => Err(Error::At(not_a_exec("color", &vals[0], "a color"), pos)),
            }
        },
    }
}

fn channel_exec(n: &Number) -> (r: u8)
    ensures
        r == channel(n@),
{
    let one_v: i128 = 10000000000i128;
    let v: i128 = if bytes_eq(n.unit.as_slice(), "%".as_bytes()) {
        let c: i128 = if n.value < 0 {
            0
        } else if n.value > 100 * one_v {
            100 * one_v
        } else {
            n.value
        };
        assert(0 <= c * 255 <= 100 * one() * 255) by (nonlinear_arith)
            requires
                0 <= c <= 100 * one(),
                one() == 10000000000,
        ;
        c * 255 / 100
    } else {
        if n.value < 0 {
            0
        } else if n.value > 255 * one_v {
            255 * one_v
        } else {
            n.value
        }
    };
    assert(0 <= v <= 255 * one());
    let q = (v + one_v / 2) / one_v;
    assert(0 <= q <= 255) by (nonlinear_arith)
        requires
            q == (v + 5000000000) / 10000000000,
            0 <= v <= 2550000000000,
    ;
    q as u8
}

fn clamp_alpha(a: i128) -> (r: i128)
    ensures
        r == clamp(a as int, 0, one()),
{
    if a < 0 {
        0
    } else if a > 10000000000i128 {
        10000000000i128
    } else {
        a
    }
}

fn rgba2(n: &[u8], avs: &Vec<Arg>, pos: SourcePos) -> (r: Result<CssValue, Error>)
    requires
        avs.len() == 2,
    ensures
        vres(r) == spec_rgba(n@, arg_views(avs@), pos),
{
    let fs = rgba2_formals_exec();
    let decl = builtin_decl_exec(n, &fs);
    match bind(&fs, avs, pos, decl) {
        Err(e) => Err(e),
        Ok(vals) => {
            let ghost vv = css_values_view(vals@);
            assert(vv[0] == vals@[0].view());
            assert(vv[1] == vals@[1].view());
            match &vals[0] {
                CssValue::Color(col) => match &vals[1] {
                    CssValue::Numeric(x) => Ok(
                        CssValue::Color(
                            Color { r: col.r, g: col.g, b: col.b, alpha: clamp_alpha(x.value) },
                        ),
                    ),
                    _ => Err(Error::At(not_a_exec("alpha", &vals[1], "a number"), pos)),
                },
                _ => Err(Error::At(not_a_exec("color", &vals[0], "a color"), pos)),
            }
        },
    }
}

fn number_of(v: &CssValue) -> (r: Option<&Number>)
    ensures
        match r {
            Some(n) => v.view() == CssValueV::Numeric(n@),
            None => !(v.view() is Numeric),
        },
{
    match v {
        CssValue::Numeric(n) => Some(n),
        _ => None,
    }
}

fn rgba4(n: &[u8], avs: &Vec<Arg>, pos: SourcePos) -> (r: Result<CssValue, Error>)
    requires
        avs.len() != 2,
    ensures
        vres(r) == spec_rgba(n@, arg_views(avs@), pos),
{
    let fs = rgba4_formals_exec();
    let decl = builtin_decl_exec(n, &fs);
    match bind(&fs, avs, pos, decl) {
        Err(e) => Err(e),
        Ok(vals) => {
            let ghost vv = css_values_view(vals@);
            assert(vv[0] == vals@[0].view());
            assert(vv[1] == vals@[1].view());
            assert(vv[2] == vals@[2].view());
            assert(vv[3] == vals@[3].view());
            let r = match number_of(&vals[0]) {
                None => {
                    return Err(Error::At(not_a_exec("red", &vals[0], "a number"), pos));
                },
                Some(x) => channel_exec(x),
            };
            let g = match number_of(&vals[1]) {
                None => {
                    return Err(Error::At(not_a_exec("green", &vals[1], "a number"), pos));
                },
                Some(x) => channel_exec(x),
            };
            let b = match number_of(&vals[2]) {
                None => {
                    return Err(Error::At(not_a_exec("blue", &vals[2], "a number"), pos));
                },
                Some(x) => channel_exec(x),
            };
            let alpha = match number_of(&vals[3]) {
                None => {
                    return Err(Error::At(not_a_exec("alpha", &vals[3], "a number"), pos));
                },
                Some(x) => clamp_alpha(x.value),
            };
            Ok(CssValue::Color(Color { r, g, b, alpha }))
        },
    }
}

fn plain_call(n: &[u8], avs: &Vec<Arg>, pos: SourcePos) -> (r: Result<CssValue, Error>)
    ensures
        vres(r) == spec_plain_call(n@, arg_views(avs@), pos),
{
    let ghost av = arg_views(avs@);
    let mut i: usize = 0;
    while i < avs.len()
        invariant
            i <= avs.len(),
            av == arg_views(avs@),
            forall|j: int| 0 <= j < i ==> av[j].0 is None,
        decreases avs.len() - i,
    {
        match &avs[i].name {
            Some(_) => {
                assert(av[i as int].0 is Some);
                return Err(
                    Error::At(str_bytes("Plain CSS functions don't support keyword arguments."), pos),
                );
            },
            None => {},
        }
        i += 1;
    }
    let mut t = slice_to_vec(n);
    push_str(&mut t, "(");
    let mut j: usize = 0;
    let ghost t0 = t@;
    let mut args: Vec<u8> = Vec::new();
    while j < avs.len()
        invariant
            j <= avs.len(),
            av == arg_views(avs@),
            args@ == join_args(av.take(j as int)),
        decreases avs.len() - j,
    {
        proof {
            assert(av.take(j + 1).drop_last() =~= av.take(j as int));
            assert(av.take(j + 1).last() == av[j as int]);
        }
        let f = format_value_exec(&avs[j].value);
        if j > 0 {
            push_str(&mut args, ", ");
        }
        push_bytes(&mut args, f.as_slice());
        proof {
            if j == 0 {
                assert(args@ =~= format_value(av[0].1));
                assert(av.take(1)[0] == av[0]);
            }
        }
        j += 1;
    }
    proof {
        assert(av.take(j as int) =~= av);
    }
    push_bytes(&mut t, args.as_slice());
    push_str(&mut t, ")");
    proof {
        assert(t@ =~= n@ + kw("(") + join_args(av) + kw(")"));
    }
    Ok(CssValue::Str(t, Quotes::NoQuotes))
}

/// Calls the function `n` with evaluated arguments.
pub fn call_function(n: &[u8], avs: &Vec<Arg>, pos: SourcePos) -> (r: Result<CssValue, Error>)
    ensures
        vres(r) == spec_call_function(n@, arg_views(avs@), pos),
{
    reveal(spec_call_function);
    if bytes_eq(n, "rgba".as_bytes()) || bytes_eq(n, "rgb".as_bytes()) {
        if avs.len() == 2 {
            rgba2(n, avs, pos)
        } else {
            rgba4(n, avs, pos)
        }
    } else if bytes_eq(n, "fade-out".as_bytes()) || bytes_eq(n, "transparentize".as_bytes()) {
        adjust_alpha(n, avs, pos, false)
    } else if bytes_eq(n, "fade-in".as_bytes()) || bytes_eq(n, "opacify".as_bytes()) {
        adjust_alpha(n, avs, pos, true)
    } else {
        plain_call(n, avs, pos)
    }
}


// ---------------------------------------------------------------------
// Laws
// ---------------------------------------------------------------------

/// `frame_find` gives the first index at or after `i` that holds `n`.
proof fn lemma_frame_find_first(fr: FrameV, n: Seq<u8>, i: int)
    requires
        0 <= i,
    ensures
        match frame_find(fr, n, i) {
            Some(j) => i <= j < fr.len() && fr[j].0 == n && forall|k: int|
                i <= k < j ==> fr[k].0 != n,
            None => forall|k: int| i <= k < fr.len() ==> fr[k].0 != n,
        },
    decreases fr.len() - i,
{
    if i < fr.len() && fr[i].0 != n {
        lemma_frame_find_first(fr, n, i + 1);
    }
}

/// A frame in which the first index from `i` that holds `n` is `j`.
proof fn lemma_frame_find_is(fr: FrameV, n: Seq<u8>, i: int, j: int)
    requires
        0 <= i <= j < fr.len(),
        fr[j].0 == n,
        forall|k: int| i <= k < j ==> fr[k].0 != n,
    ensures
        frame_find(fr, n, i) == Some(j),
    decreases j - i,
{
    if i < j {
        lemma_frame_find_is(fr, n, i + 1, j);
    }
}

/// A frame in which no index from `i` holds `n`.
proof fn lemma_frame_find_none(fr: FrameV, n: Seq<u8>, i: int)
    requires
        0 <= i,
        forall|k: int| i <= k < fr.len() ==> fr[k].0 != n,
    ensures
        frame_find(fr, n, i) is None,
    decreases fr.len() - i,
{
    if i < fr.len() {
        lemma_frame_find_none(fr, n, i + 1);
    }
}

/// `scope_find` looks at the frames from the innermost one: it finds the
/// innermost frame that holds the name.
proof fn lemma_scope_find_spec(sc: ScopeV, n: Seq<u8>)
    ensures
        match scope_find(sc, n) {
            Some((k, i)) => 0 <= k < sc.len() && frame_find(sc[k], n, 0) == Some(i) && forall|
                q: int,
            |
                k < q < sc.len() ==> #[trigger] frame_find(sc[q], n, 0) is None,
            None => forall|q: int| 0 <= q < sc.len() ==> #[trigger] frame_find(sc[q], n, 0) is None,
        },
    decreases sc.len(),
{
    if sc.len() > 0 {
        lemma_scope_find_spec(sc.drop_last(), n);
        match frame_find(sc.last(), n, 0) {
            Some(i) => {},
            None => {
                assert forall|q: int| 0 <= q < sc.len() - 1 implies sc.drop_last()[q] == sc[q] by {}
            },
        }
    }
}

/// A scope whose frames after `k` do not hold `n`, and whose frame `k`
/// holds it first at `i`, finds it there.
proof fn lemma_scope_find_is(sc: ScopeV, n: Seq<u8>, k: int, i: int)
    requires
        0 <= k < sc.len(),
        frame_find(sc[k], n, 0) == Some(i),
        forall|q: int| k < q < sc.len() ==> #[trigger] frame_find(sc[q], n, 0) is None,
    ensures
        scope_find(sc, n) == Some((k, i)),
    decreases sc.len(),
{
    if k < sc.len() - 1 {
        assert(frame_find(sc[sc.len() - 1], n, 0) is None);
        assert forall|q: int| k < q < sc.len() - 1 implies #[trigger] frame_find(
            sc.drop_last()[q],
            n,
            0,
        ) is None by {
            assert(sc.drop_last()[q] == sc[q]);
        }
        lemma_scope_find_is(sc.drop_last(), n, k, i);
    }
}

/// Read after write: after a plain declaration of a variable (neither
/// `!default` nor `!global`), the variable has the declared value.
pub proof fn law_read_after_write(sc: ScopeV, n: Seq<u8>, v: CssValueV)
    requires
        sc.len() > 0,
    ensures
        scope_get(spec_set_variable(sc, n, v, false, false), n) == Some(v),
{
    let sc2 = spec_set_variable(sc, n, v, false, false);
    lemma_scope_find_spec(sc, n);
    match scope_find(sc, n) {
        Some((k, i)) => {
            lemma_frame_find_first(sc[k], n, 0);
            let fr2 = sc[k].update(i, (n, v));
            lemma_frame_find_is(fr2, n, 0, i);
            assert forall|q: int| k < q < sc2.len() implies #[trigger] frame_find(sc2[q], n, 0) is None by {
                assert(sc2[q] == sc[q]);
            }
            lemma_scope_find_is(sc2, n, k, i);
        },
        None => {
            let last = sc.last();
            lemma_frame_find_first(last, n, 0);
            let fr2 = last.push((n, v));
            lemma_frame_find_is(fr2, n, 0, last.len() as int);
            assert(sc2 == sc.update(sc.len() - 1, fr2));
            lemma_scope_find_is(sc2, n, sc.len() - 1, last.len() as int);
        },
    }
}

/// A frame with `n` set to `v` holds `n` with the value `v`.
proof fn lemma_frame_set_get(fr: FrameV, n: Seq<u8>, v: CssValueV)
    ensures
        frame_find(frame_set(fr, n, v), n, 0) matches Some(i) && frame_set(fr, n, v)[i].1 == v,
{
    lemma_frame_find_first(fr, n, 0);
    match frame_find(fr, n, 0) {
        Some(i) => lemma_frame_find_is(fr.update(i, (n, v)), n, 0, i),
        None => lemma_frame_find_is(fr.push((n, v)), n, 0, fr.len() as int),
    }
}

/// A `!global` declaration sets the global frame: once the nested
/// frames are left, the variable has the declared value.
pub proof fn law_global_write(sc: ScopeV, n: Seq<u8>, v: CssValueV)
    requires
        sc.len() > 0,
    ensures
        scope_get(seq![spec_set_variable(sc, n, v, false, true)[0]], n) == Some(v),
{
    let g = spec_set_variable(sc, n, v, false, true)[0];
    assert(g == frame_set(sc[0], n, v));
    lemma_frame_set_get(sc[0], n, v);
    let one = seq![g];
    assert(one.last() == g);
    assert(one.drop_last().len() == 0);
}

/// A `!default` declaration leaves a variable that has a value other
/// than null as it is.
pub proof fn law_default_keeps_value(sc: ScopeV, n: Seq<u8>, v: CssValueV, global: bool)
    requires
        scope_get(sc, n) matches Some(x) && !(x is Null),
    ensures
        spec_set_variable(sc, n, v, true, global) == sc,
{
}

/// A variable that a nested frame brings in goes with that frame: when
/// no frame held it, declaring it in a new frame and leaving that frame
/// gives back the scope as it was.
pub proof fn law_local_ends_with_frame(sc: ScopeV, n: Seq<u8>, v: CssValueV)
    requires
        scope_find(sc, n) is None,
    ensures
        spec_set_variable(sc.push(Seq::empty()), n, v, false, false).drop_last() == sc,
{
    let e: FrameV = Seq::empty();
    let sc1 = sc.push(e);
    assert(sc1.last() == e);
    assert(frame_find(e, n, 0) is None);
    assert(sc1.drop_last() =~= sc);
    assert(scope_find(sc1, n) is None);
    let sc2 = spec_set_variable(sc1, n, v, false, false);
    assert(sc2 == scope_define(sc1, n, v));
    assert(sc2.drop_last() =~= sc);
}

/// Two frames that differ only in entries for the name `n` find any
/// other name at the same place, with the same value.
proof fn lemma_frame_other(fr: FrameV, fr2: FrameV, n: Seq<u8>, m: Seq<u8>)
    requires
        m != n,
        fr2.len() >= fr.len(),
        forall|j: int| 0 <= j < fr.len() && fr[j].0 != n ==> fr2[j] == fr[j],
        forall|j: int| 0 <= j < fr.len() && fr[j].0 == n ==> fr2[j].0 == n,
        forall|j: int| fr.len() <= j < fr2.len() ==> fr2[j].0 == n,
    ensures
        frame_find(fr2, m, 0) == frame_find(fr, m, 0),
        frame_find(fr, m, 0) matches Some(i) ==> fr2[i] == fr[i],
{
    lemma_frame_find_first(fr, m, 0);
    match frame_find(fr, m, 0) {
        Some(i) => {
            assert forall|k: int| 0 <= k < i implies fr2[k].0 != m by {
                if fr[k].0 == n {
                } else {
                    assert(fr2[k] == fr[k]);
                }
            }
            lemma_frame_find_is(fr2, m, 0, i);
        },
        None => {
            assert forall|k: int| 0 <= k < fr2.len() implies fr2[k].0 != m by {
                if k < fr.len() && fr[k].0 != n {
                    assert(fr2[k] == fr[k]);
                }
            }
            lemma_frame_find_none(fr2, m, 0);
        },
    }
}

/// A scope with one frame changed as `lemma_frame_other` allows has the
/// same value for any other name.
proof fn lemma_scope_other(sc: ScopeV, k: int, fr2: FrameV, n: Seq<u8>, m: Seq<u8>)
    requires
        m != n,
        0 <= k < sc.len(),
        fr2.len() >= sc[k].len(),
        forall|j: int| 0 <= j < sc[k].len() && sc[k][j].0 != n ==> fr2[j] == sc[k][j],
        forall|j: int| 0 <= j < sc[k].len() && sc[k][j].0 == n ==> fr2[j].0 == n,
        forall|j: int| sc[k].len() <= j < fr2.len() ==> fr2[j].0 == n,
    ensures
        scope_get(sc.update(k, fr2), m) == scope_get(sc, m),
{
    let sc2 = sc.update(k, fr2);
    lemma_frame_other(sc[k], fr2, n, m);
    assert forall|q: int| 0 <= q < sc.len() implies #[trigger] frame_find(sc2[q], m, 0)
        == frame_find(sc[q], m, 0) by {
        if q == k {
            lemma_frame_other(sc[k], fr2, n, m);
        }
    }
    lemma_scope_find_spec(sc, m);
    lemma_scope_find_spec(sc2, m);
    match scope_find(sc, m) {
        Some((k1, i)) => {
            lemma_scope_find_is(sc2, m, k1, i);
        },
        None => {
            match scope_find(sc2, m) {
                Some((k2, i2)) => {
                    assert(frame_find(sc2[k2], m, 0) == frame_find(sc[k2], m, 0));
                },
                None => {},
            }
        },
    }
}

/// Setting `n` in a frame changes only entries for `n`.
proof fn lemma_frame_set_other(fr: FrameV, n: Seq<u8>, v: CssValueV)
    ensures
        frame_set(fr, n, v).len() >= fr.len(),
        forall|j: int| 0 <= j < fr.len() && fr[j].0 != n ==> frame_set(fr, n, v)[j] == fr[j],
        forall|j: int| 0 <= j < fr.len() && fr[j].0 == n ==> frame_set(fr, n, v)[j].0 == n,
        forall|j: int| fr.len() <= j < frame_set(fr, n, v).len() ==> frame_set(fr, n, v)[j].0 == n,
{
    lemma_frame_find_first(fr, n, 0);
}

/// A declaration changes no other variable.
pub proof fn law_write_keeps_others(
    sc: ScopeV,
    n: Seq<u8>,
    m: Seq<u8>,
    v: CssValueV,
    default: bool,
    global: bool,
)
    requires
        sc.len() > 0,
        m != n,
    ensures
        scope_get(spec_set_variable(sc, n, v, default, global), m) == scope_get(sc, m),
{
    if default && (scope_get(sc, n) matches Some(x) && !(x is Null)) {
    } else if global {
        lemma_frame_set_other(sc[0], n, v);
        lemma_scope_other(sc, 0, frame_set(sc[0], n, v), n, m);
    } else {
        match scope_find(sc, n) {
            Some((k, i)) => {
                lemma_scope_find_frame(sc, n);
                lemma_frame_find_bounds(sc[k], n, 0);
                lemma_scope_other(sc, k, sc[k].update(i, (n, v)), n, m);
            },
            None => {
                lemma_frame_set_other(sc.last(), n, v);
                lemma_scope_other(sc, sc.len() - 1, frame_set(sc.last(), n, v), n, m);
            },
        }
    }
}

/// A call's arguments: a color and an amount, both positional.
pub open spec fn color_amount_args(c: Color, a: i128) -> Seq<ArgV> {
    seq![
        (None, CssValueV::Color(c)),
        (None, CssValueV::Numeric(NumberV { value: a, unit: seq![] })),
    ]
}

/// `c` with the alpha channel `alpha`.
pub open spec fn with_alpha(c: Color, alpha: i128) -> Color {
    Color { r: c.r, g: c.g, b: c.b, alpha }
}

proof fn lemma_color_amount_bind(n: Seq<u8>, c: Color, a: i128, pos: SourcePos)
    ensures
        spec_bind(alpha_formals(), color_amount_args(c, a), pos, builtin_decl(n, alpha_formals()))
            == Ok::<Seq<CssValueV>, ErrorV>(
            seq![CssValueV::Color(c), CssValueV::Numeric(NumberV { value: a, unit: seq![] })],
        ),
{
    let avs = color_amount_args(c, a);
    reveal_with_fuel(positional, 3);
    reveal_with_fuel(bind_values, 3);
    reveal_with_fuel(unknown_named, 3);
    assert(avs.drop_last().drop_last() =~= Seq::<ArgV>::empty());
    assert(positional(avs) =~= seq![
        CssValueV::Color(c),
        CssValueV::Numeric(NumberV { value: a, unit: seq![] }),
    ]);
    assert(bind_values(alpha_formals(), avs, 2) =~= Ok(
        seq![CssValueV::Color(c), CssValueV::Numeric(NumberV { value: a, unit: seq![] })],
    ));
}

/// Fading a color out lowers its alpha by the amount, and fading it in
/// raises it by the amount; so fading in undoes fading out when the
/// alpha does not fall below 0.
pub proof fn law_fade_in_undoes_fade_out(c: Color, a: i128, pos: SourcePos)
    requires
        0 <= a <= c.alpha <= one(),
    ensures
        spec_adjust_alpha(kw("fade-out"), color_amount_args(c, a), pos, false) == Ok::<
            CssValueV,
            ErrorV,
        >(CssValueV::Color(with_alpha(c, (c.alpha - a) as i128))),
        spec_adjust_alpha(
            kw("fade-in"),
            color_amount_args(with_alpha(c, (c.alpha - a) as i128), a),
            pos,
            true,
        ) == Ok::<CssValueV, ErrorV>(CssValueV::Color(c)),
{
    lemma_color_amount_bind(kw("fade-out"), c, a, pos);
    lemma_color_amount_bind(kw("fade-in"), with_alpha(c, (c.alpha - a) as i128), a, pos);
}

/// The first `n` parts of a string evaluate the same in any parts that
/// agree on them.
proof fn lemma_eval_parts_prefix(ps: Seq<StringPartV>, qs: Seq<StringPartV>, sc: ScopeV, fns: Seq<MixinV>, fuel: nat, n: int)
    requires
        0 <= n <= ps.len(),
        n <= qs.len(),
        forall|k: int| 0 <= k < n ==> ps[k] == qs[k],
    ensures
        spec_eval_parts(ps, sc, fns, fuel, n) == spec_eval_parts(qs, sc, fns, fuel, n),
    decreases n,
{
    if n > 0 {
        lemma_eval_parts_prefix(ps, qs, sc, fns, fuel, n - 1);
    }
}

/// Adding a part to a string as `push_part` does (dropping an empty
/// literal, joining two literals) does not change what the string
/// evaluates to.
pub proof fn law_push_part_keeps_text(acc: Seq<StringPartV>, p: StringPartV, sc: ScopeV, fns: Seq<MixinV>, fuel: nat)
    ensures
        spec_eval_parts(push_part(acc, p), sc, fns, fuel, push_part(acc, p).len() as int) == spec_eval_parts(
            acc.push(p),
            sc,
            fns,
            fuel,
            (acc.len() + 1) as int,
        ),
{
    let ap = acc.push(p);
    lemma_eval_parts_prefix(ap, acc, sc, fns, fuel, acc.len() as int);
    match p {
        StringPartV::Raw(b) => {
            if b.len() == 0 {
                assert(spec_eval_parts(ap, sc, fns, fuel, (acc.len() + 1) as int) == match spec_eval_parts(
                    ap,
                    sc,
                    fns,
                    fuel,
                    acc.len() as int,
                ) {
                    Ok(t) => Ok(t + b),
                    Err(e) => Err(e),
                });
                match spec_eval_parts(acc, sc, fns, fuel, acc.len() as int) {
                    Ok(t) => {
                        assert(t + b =~= t);
                    },
                    Err(_) => {},
                }
            } else if acc.len() > 0 && acc.last() is Raw {
                let m = acc.len() - 1;
                let lb = acc.last()->Raw_0;
                let merged = acc.drop_last().push(StringPartV::Raw(lb + b));
                lemma_eval_parts_prefix(merged, acc, sc, fns, fuel, m);
                lemma_eval_parts_prefix(acc.drop_last(), acc, sc, fns, fuel, m);
                match spec_eval_parts(acc, sc, fns, fuel, m) {
                    Ok(t) => {
                        assert(t + (lb + b) =~= (t + lb) + b);
                    },
                    Err(_) => {},
                }
            } else {
            }
        },
        StringPartV::Interpolation(_) => {},
    }
}

} // verus!
