//! Parsing what follows `@import`, `@use` and `@forward`.
use crate::parser::span::Span;
use crate::parser::strings::{any_sass_string, raw_text, spec_any_sass_string, spec_raw_text};
use crate::parser::util::{
    comments_end, ignore_comments, lemma_spacelike_end, skip_ws, space_end, spacelike_end,
    ignore_space,
};
use crate::parser::value::{
    kw, name, parsed_sstring, space_list, spec_name, spec_space_list, spec_special_url,
    spec_unquoted, special_url, unquoted,
};
use crate::parser::{at, byte_at, bytes_eq, has_tag, tag_at, PResult};
use crate::sass::{
    configs_view, lemma_sstring_view, names_view, sstrings_view, Configure, ConfigureV, Expose,
    ExposeV, Item, ItemV, Quotes, SassString, SassStringV, SourcePos, StringPart, StringPartV,
    UseAs, UseAsV, Value, ValueV,
};
use vstd::prelude::*;

verus! {

/// A parse result that gives an item, taken by its view.
pub open spec fn parsed_item(res: PResult<Item>, sp: Option<(int, ItemV)>) -> bool {
    match res {
        Some((j, it)) => sp == Some((j as int, it.view())),
        None => sp is None,
    }
}

/// A comma and any comments after it.
pub open spec fn spec_comma(s: Seq<u8>, f: usize, i: int) -> Option<int> {
    if at(s, i, 44u8) {
        Some(comments_end(s, f, i + 1))
    } else {
        None
    }
}

/// Parses a comma and any comments after it.
pub fn comma(input: &Span, pos: usize) -> (res: PResult<()>)
    requires
        pos <= input.data.len(),
    ensures
        crate::parser::end_of(res) == spec_comma(input.data@, input.file, pos as int),
        res matches Some((j, _)) ==> pos < j <= input.data.len(),
{
    if byte_at(input.data, pos, 44u8) {
        ignore_comments(input, pos + 1)
    } else {
        None
    }
}

// ---------------------------------------------------------------------
// @import
// ---------------------------------------------------------------------

/// One name of an import: a quoted string, `url(...)`, or an unquoted
/// string.
pub open spec fn spec_import_name(s: Seq<u8>, f: usize, i: int) -> Option<(int, SassStringV)> {
    if at(s, i, 34u8) || at(s, i, 39u8) {
        spec_any_sass_string(s, f, i)
    } else {
        match spec_special_url(s, i) {
            Some((j, b)) => Some(
                (j, SassStringV { parts: seq![StringPartV::Raw(b)], quotes: Quotes::NoQuotes }),
            ),
            None => spec_unquoted(s, f, i),
        }
    }
}

/// More names of an import, each after a comma.
pub open spec fn spec_import_names_tail(s: Seq<u8>, f: usize, i: int, acc: Seq<SassStringV>) -> (
    int,
    Seq<SassStringV>,
)
    decreases s.len() - i,
{
    match spec_comma(s, f, i) {
        Some(a) => if 0 <= i < a <= s.len() {
            match spec_import_name(s, f, a) {
                Some((j, n)) => if a < j <= s.len() {
                    spec_import_names_tail(s, f, j, acc.push(n))
                } else {
                    (i, acc)
                },
                None => (i, acc),
            }
        } else {
            (i, acc)
        },
        None => (i, acc),
    }
}

/// Zero or more names of an import, separated by commas.
pub open spec fn spec_import_names(s: Seq<u8>, f: usize, i: int) -> (int, Seq<SassStringV>) {
    match spec_import_name(s, f, i) {
        Some((j, n)) => if i < j <= s.len() {
            spec_import_names_tail(s, f, j, seq![n])
        } else {
            (i, seq![])
        },
        None => (i, seq![]),
    }
}

/// What follows `@import` at `i`: names, optional media arguments, and
/// `;` or the end of the input.
pub open spec fn spec_import2(s: Seq<u8>, f: usize, i: int) -> Option<(int, ItemV)> {
    let (j, names) = spec_import_names(s, f, i);
    let (a, media) = spec_raw_text(s, f, spacelike_end(s, j));
    let (k, args) = if media.parts.len() > 0 {
        (a, ValueV::Literal(media))
    } else {
        (j, ValueV::Null)
    };
    let e = space_end(s, k);
    let item = ItemV::Import(names, args, SourcePos { file: f, start: i as usize, end: j as usize });
    if at(s, e, 59u8) {
        Some((e + 1, item))
    } else if e == s.len() {
        Some((e, item))
    } else {
        None
    }
}

fn import_name(input: &Span, pos: usize) -> (res: PResult<SassString>)
    requires
        pos <= input.data.len(),
    ensures
        parsed_sstring(res, spec_import_name(input.data@, input.file, pos as int)),
        res matches Some((j, _)) ==> pos < j <= input.data.len(),
{
    let s = input.data;
    if byte_at(s, pos, 34u8) || byte_at(s, pos, 39u8) {
        return any_sass_string(input, pos);
    }
    match special_url(s, pos) {
        Some((j, b)) => {
            let ghost bv = b@;
            let mut ps: Vec<StringPart> = Vec::new();
            ps.push(StringPart::Raw(b));
            let r = SassString { parts: ps, quotes: Quotes::NoQuotes };
            proof {
                lemma_sstring_view(&r);
                assert(crate::sass::parts_view(ps@) =~= seq![StringPartV::Raw(bv)]);
            }
            Some((j, r))
        },
        None => unquoted(input, pos),
    }
}

fn import_names_tail(input: &Span, pos: usize, acc: Vec<SassString>) -> (res: (
    usize,
    Vec<SassString>,
))
    requires
        pos <= input.data.len(),
    ensures
        spec_import_names_tail(input.data@, input.file, pos as int, sstrings_view(acc@)) == (
            res.0 as int,
            sstrings_view(res.1@),
        ),
        pos <= res.0 <= input.data.len(),
    decreases input.data.len() - pos,
{
    match comma(input, pos) {
        Some((a, _)) => match import_name(input, a) {
            Some((j, n)) => {
                let mut acc = acc;
                let ghost a0 = sstrings_view(acc@);
                let ghost nv = n.view();
                acc.push(n);
                proof {
                    assert(sstrings_view(acc@) =~= a0.push(nv));
                }
                import_names_tail(input, j, acc)
            },
            None => (pos, acc),
        },
        None => (pos, acc),
    }
}

/// Parses what follows `@import`.
pub fn import2(input: &Span, pos: usize) -> (res: PResult<Item>)
    requires
        pos <= input.data.len(),
    ensures
        parsed_item(res, spec_import2(input.data@, input.file, pos as int)),
        res matches Some((j, _)) ==> pos <= j <= input.data.len(),
{
    let s = input.data;
    let (j, names) = match import_name(input, pos) {
        Some((j, n)) => {
            let ghost nv = n.view();
            let mut acc: Vec<SassString> = Vec::new();
            acc.push(n);
            proof {
                assert(sstrings_view(acc@) =~= seq![nv]);
            }
            import_names_tail(input, j, acc)
        },
        None => {
            let acc: Vec<SassString> = Vec::new();
            proof {
                assert(sstrings_view(acc@) =~= Seq::<SassStringV>::empty());
            }
            (pos, acc)
        },
    };
    let m = skip_ws(s, j);
    let (a, media) = raw_text(input, m);
    let (k, args) = if media.parts.len() > 0 {
        (a, Value::Literal(media))
    } else {
        (j, Value::Null)
    };
    let e = match ignore_space(s, k) {
        Some((e, _)) => e,
        None => k,
    };
    proof {
        crate::parser::util::lemma_space_end(s@, k as int);
    }
    let item = Item::Import(names, args, SourcePos { file: input.file, start: pos, end: j });
    proof {
        crate::sass::lemma_import_view(&item);
    }
    if byte_at(s, e, 59u8) {
        Some((e + 1, item))
    } else if e == s.len() {
        Some((e, item))
    } else {
        None
    }
}

// ---------------------------------------------------------------------
// @use and @forward
// ---------------------------------------------------------------------

/// The argument of `as`: a name, a name followed by `*` (a prefix), or
/// `*`; and any space after it.
pub open spec fn spec_as_arg(s: Seq<u8>, i: int) -> Option<(int, UseAsV)> {
    match spec_name(s, i) {
        Some((j, n)) => if at(s, j, 42u8) {
            Some((spacelike_end(s, j + 1), UseAsV::Prefix(n)))
        } else {
            Some((spacelike_end(s, j), UseAsV::Name(n)))
        },
        None => if at(s, i, 42u8) {
            Some((spacelike_end(s, i + 1), UseAsV::Star))
        } else {
            None
        },
    }
}

/// Parses the argument of `as`.
pub fn as_arg(input: &[u8], pos: usize) -> (res: PResult<UseAs>)
    requires
        pos <= input.len(),
    ensures
        match res {
            Some((j, a)) => spec_as_arg(input@, pos as int) == Some((j as int, a.view())),
            None => spec_as_arg(input@, pos as int) is None,
        },
        res matches Some((j, _)) ==> pos < j <= input.len(),
{
    match name(input, pos) {
        Some((j, n)) => {
            if byte_at(input, j, 42u8) {
                proof {
                    lemma_spacelike_end(input@, j + 1);
                }
                Some((skip_ws(input, j + 1), UseAs::Prefix(n)))
            } else {
                Some((skip_ws(input, j), UseAs::Name(n)))
            }
        },
        None => {
            if byte_at(input, pos, 42u8) {
                Some((skip_ws(input, pos + 1), UseAs::Star))
            } else {
                None
            }
        },
    }
}

/// One configured variable: `$name: value`, maybe `!default`.
pub open spec fn spec_with_one(s: Seq<u8>, f: usize, i: int) -> Option<(int, ConfigureV)> {
    if !at(s, i, 36u8) {
        None
    } else {
        match spec_name(s, i + 1) {
            Some((a, n)) => {
                let b = spacelike_end(s, a);
                if at(s, b, 58u8) {
                    let c = spacelike_end(s, b + 1);
                    match spec_space_list(s, f, c) {
                        Some((d, v)) => {
                            let e = spacelike_end(s, d);
                            if has_tag(s, e, kw("!default")) {
                                Some(
                                    (
                                        spacelike_end(s, e + kw("!default").len()),
                                        ConfigureV { name: n, value: v, default: true },
                                    ),
                                )
                            } else {
                                Some((e, ConfigureV { name: n, value: v, default: false }))
                            }
                        },
                        None => None,
                    }
                } else {
                    None
                }
            },
            None => None,
        }
    }
}

/// More configured variables, each after a comma.
pub open spec fn spec_with_tail(s: Seq<u8>, f: usize, i: int, acc: Seq<ConfigureV>) -> (
    int,
    Seq<ConfigureV>,
)
    decreases s.len() - i,
{
    match spec_comma(s, f, i) {
        Some(a) => if 0 <= i < a <= s.len() {
            match spec_with_one(s, f, a) {
                Some((j, c)) => if a < j <= s.len() {
                    spec_with_tail(s, f, j, acc.push(c))
                } else {
                    (i, acc)
                },
                None => (i, acc),
            }
        } else {
            (i, acc)
        },
        None => (i, acc),
    }
}

/// The argument of `with`: configured variables in parentheses.
pub open spec fn spec_with_arg(s: Seq<u8>, f: usize, i: int) -> Option<(int, Seq<ConfigureV>)> {
    if !at(s, i, 40u8) {
        None
    } else {
        let a = spacelike_end(s, i + 1);
        let (b, cs) = match spec_with_one(s, f, a) {
            Some((j, c)) => if a < j <= s.len() {
                spec_with_tail(s, f, j, seq![c])
            } else {
                (a, seq![])
            },
            None => (a, seq![]),
        };
        let c = match spec_comma(s, f, b) {
            Some(c) => c,
            None => b,
        };
        if at(s, c, 41u8) {
            Some((spacelike_end(s, c + 1), cs))
        } else {
            None
        }
    }
}

fn with_one(input: &Span, pos: usize) -> (res: PResult<Configure>)
    requires
        pos <= input.data.len(),
    ensures
        match res {
            Some((j, c)) => spec_with_one(input.data@, input.file, pos as int) == Some(
                (j as int, c.view()),
            ),
            None => spec_with_one(input.data@, input.file, pos as int) is None,
        },
        res matches Some((j, _)) ==> pos < j <= input.data.len(),
{
    let s = input.data;
    if !byte_at(s, pos, 36u8) {
        return None;
    }
    match name(s, pos + 1) {
        Some((a, n)) => {
            let b = skip_ws(s, a);
            if !byte_at(s, b, 58u8) {
                return None;
            }
            let c = skip_ws(s, b + 1);
            match space_list(input, c) {
                Some((d, v)) => {
                    let e = skip_ws(s, d);
                    if tag_at(s, e, "!default".as_bytes()) {
                        let k = e + "!default".len();
                        proof {
                            lemma_spacelike_end(s@, k as int);
                        }
                        Some((skip_ws(s, k), Configure { name: n, value: v, default: true }))
                    } else {
                        Some((e, Configure { name: n, value: v, default: false }))
                    }
                },
                None => None,
            }
        },
        None => None,
    }
}

fn with_tail(input: &Span, pos: usize, acc: Vec<Configure>) -> (res: (usize, Vec<Configure>))
    requires
        pos <= input.data.len(),
    ensures
        spec_with_tail(input.data@, input.file, pos as int, configs_view(acc@)) == (
            res.0 as int,
            configs_view(res.1@),
        ),
        pos <= res.0 <= input.data.len(),
    decreases input.data.len() - pos,
{
    match comma(input, pos) {
        Some((a, _)) => match with_one(input, a) {
            Some((j, c)) => {
                let mut acc = acc;
                let ghost a0 = configs_view(acc@);
                let ghost cv = c.view();
                acc.push(c);
                proof {
                    assert(configs_view(acc@) =~= a0.push(cv));
                }
                with_tail(input, j, acc)
            },
            None => (pos, acc),
        },
        None => (pos, acc),
    }
}

/// Parses the argument of `with`.
pub fn with_arg(input: &Span, pos: usize) -> (res: PResult<Vec<Configure>>)
    requires
        pos <= input.data.len(),
    ensures
        match res {
            Some((j, cs)) => spec_with_arg(input.data@, input.file, pos as int) == Some(
                (j as int, configs_view(cs@)),
            ),
            None => spec_with_arg(input.data@, input.file, pos as int) is None,
        },
        res matches Some((j, _)) ==> pos < j <= input.data.len(),
{
    let s = input.data;
    if !byte_at(s, pos, 40u8) {
        return None;
    }
    let a = skip_ws(s, pos + 1);
    let (b, cs) = match with_one(input, a) {
        Some((j, c)) => {
            let ghost cv = c.view();
            let mut acc: Vec<Configure> = Vec::new();
            acc.push(c);
            proof {
                assert(configs_view(acc@) =~= seq![cv]);
            }
            with_tail(input, j, acc)
        },
        None => {
            let acc: Vec<Configure> = Vec::new();
            proof {
                assert(configs_view(acc@) =~= Seq::<ConfigureV>::empty());
            }
            (a, acc)
        },
    };
    let c = match comma(input, b) {
        Some((c, _)) => c,
        None => b,
    };
    if byte_at(s, c, 41u8) {
        proof {
            lemma_spacelike_end(s@, c + 1);
        }
        Some((skip_ws(s, c + 1), cs))
    } else {
        None
    }
}

/// An optional `with (...)` at `b`.
pub open spec fn spec_use_with(s: Seq<u8>, f: usize, b: int) -> (int, Seq<ConfigureV>) {
    if has_tag(s, b, kw("with")) {
        match spec_with_arg(s, f, spacelike_end(s, b + kw("with").len())) {
            Some((e, w)) => (e, w),
            None => (b, seq![]),
        }
    } else {
        (b, seq![])
    }
}

/// An optional `as ...` at `c`.
pub open spec fn spec_use_as(s: Seq<u8>, c: int) -> (int, UseAsV) {
    if has_tag(s, c, kw("as")) {
        match spec_as_arg(s, spacelike_end(s, c + kw("as").len())) {
            Some((e, n)) => (e, n),
            None => (c, UseAsV::KeepName),
        }
    } else {
        (c, UseAsV::KeepName)
    }
}

/// What follows `@use` at `i`: the url, then optional `with (...)` and
/// `as ...`, and `;` or the end of the input.
pub open spec fn spec_use2(s: Seq<u8>, f: usize, i: int) -> Option<(int, ItemV)> {
    match spec_any_sass_string(s, f, i) {
        None => None,
        Some((a, url)) => {
            let b = spacelike_end(s, a);
            let (c, with) = spec_use_with(s, f, b);
            let (g, use_as) = spec_use_as(s, c);
            let item = ItemV::Use(
                url,
                use_as,
                with,
                SourcePos { file: f, start: i as usize, end: a as usize },
            );
            if at(s, g, 59u8) {
                Some((g + 1, item))
            } else if g == s.len() {
                Some((g, item))
            } else {
                None
            }
        },
    }
}

fn use_with(input: &Span, b: usize) -> (res: (usize, Vec<Configure>))
    requires
        b <= input.data.len(),
    ensures
        spec_use_with(input.data@, input.file, b as int) == (res.0 as int, configs_view(res.1@)),
        b <= res.0 <= input.data.len(),
{
    let s = input.data;
    if tag_at(s, b, "with".as_bytes()) {
        let k = b + "with".len();
        proof {
            lemma_spacelike_end(s@, k as int);
        }
        match with_arg(input, skip_ws(s, k)) {
            Some((e, w)) => {
                return (e, w);
            },
            None => {},
        }
    }
    let w: Vec<Configure> = Vec::new();
    proof {
        assert(configs_view(w@) =~= Seq::<ConfigureV>::empty());
    }
    (b, w)
}

fn use_as(input: &[u8], c: usize) -> (res: (usize, UseAs))
    requires
        c <= input.len(),
    ensures
        spec_use_as(input@, c as int) == (res.0 as int, res.1.view()),
        c <= res.0 <= input.len(),
{
    if tag_at(input, c, "as".as_bytes()) {
        let k = c + "as".len();
        proof {
            lemma_spacelike_end(input@, k as int);
        }
        match as_arg(input, skip_ws(input, k)) {
            Some((e, n)) => {
                return (e, n);
            },
            None => {},
        }
    }
    (c, UseAs::KeepName)
}

/// Parses what follows `@use`.
pub fn use2(input: &Span, pos: usize) -> (res: PResult<Item>)
    requires
        pos <= input.data.len(),
    ensures
        parsed_item(res, spec_use2(input.data@, input.file, pos as int)),
        res matches Some((j, _)) ==> pos < j <= input.data.len(),
{
    let s = input.data;
    let (a, url) = match any_sass_string(input, pos) {
        None => {
            return None;
        },
        Some(r) => r,
    };
    let b = skip_ws(s, a);
    let (c, with) = use_with(input, b);
    let (g, use_as) = use_as(s, c);
    let item = Item::Use(url, use_as, with, SourcePos { file: input.file, start: pos, end: a });
    if byte_at(s, g, 59u8) {
        Some((g + 1, item))
    } else if g == s.len() {
        Some((g, item))
    } else {
        None
    }
}

/// `s` with `x` added, unless it is in `s` already.
pub open spec fn set_add(s: Seq<Seq<u8>>, x: Seq<u8>) -> Seq<Seq<u8>> {
    if s.contains(x) {
        s
    } else {
        s.push(x)
    }
}

/// One exposed name: a variable with `$`, else a function or mixin.
pub open spec fn spec_exposed_one(s: Seq<u8>, i: int) -> Option<(int, (bool, Seq<u8>))> {
    let v = at(s, i, 36u8);
    match spec_name(s, if v {
        i + 1
    } else {
        i
    }) {
        Some((j, n)) => Some((spacelike_end(s, j), (v, n))),
        None => None,
    }
}

/// Adds an exposed name to the functions or the variables.
pub open spec fn add_exposed(acc: (Seq<Seq<u8>>, Seq<Seq<u8>>), one: (bool, Seq<u8>)) -> (
    Seq<Seq<u8>>,
    Seq<Seq<u8>>,
) {
    if one.0 {
        (acc.0, set_add(acc.1, one.1))
    } else {
        (set_add(acc.0, one.1), acc.1)
    }
}

/// More exposed names, each after a comma.
pub open spec fn spec_exposed_tail(
    s: Seq<u8>,
    i: int,
    acc: (Seq<Seq<u8>>, Seq<Seq<u8>>),
) -> (int, (Seq<Seq<u8>>, Seq<Seq<u8>>))
    decreases s.len() - i,
{
    if 0 <= i && at(s, i, 44u8) {
        let a = spacelike_end(s, i + 1);
        match spec_exposed_one(s, a) {
            Some((j, one)) => if i < j <= s.len() {
                spec_exposed_tail(s, j, add_exposed(acc, one))
            } else {
                (i, acc)
            },
            None => (i, acc),
        }
    } else {
        (i, acc)
    }
}

/// The names after `show` or `hide`: functions and mixins, and
/// variables, each a set.
pub open spec fn spec_exposed_names(s: Seq<u8>, i: int) -> Option<
    (int, (Seq<Seq<u8>>, Seq<Seq<u8>>)),
> {
    match spec_exposed_one(s, i) {
        Some((j, one)) => if i < j <= s.len() {
            Some(spec_exposed_tail(s, j, add_exposed((seq![], seq![]), one)))
        } else {
            None
        },
        None => None,
    }
}

fn set_add_exec(v: &mut Vec<Vec<u8>>, x: Vec<u8>)
    ensures
        names_view(final(v)@) == set_add(names_view(old(v)@), x@),
{
    let ghost nv = names_view(v@);
    let mut i: usize = 0;
    while i < v.len()
        invariant
            i <= v.len(),
            nv == names_view(v@),
            forall|k: int| 0 <= k < i ==> nv[k] != x@,
        decreases v.len() - i,
    {
        if bytes_eq(v[i].as_slice(), x.as_slice()) {
            assert(nv[i as int] == x@);
            assert(nv.contains(x@));
            return;
        }
        i += 1;
    }
    assert(!nv.contains(x@));
    let ghost xv = x@;
    v.push(x);
    proof {
        assert(names_view(v@) =~= nv.push(xv));
    }
}

fn exposed_one(input: &[u8], pos: usize) -> (res: PResult<(bool, Vec<u8>)>)
    requires
        pos <= input.len(),
    ensures
        match res {
            Some((j, (v, n))) => spec_exposed_one(input@, pos as int) == Some(
                (j as int, (v, n@)),
            ),
            None => spec_exposed_one(input@, pos as int) is None,
        },
        res matches Some((j, _)) ==> pos < j <= input.len(),
{
    let v = byte_at(input, pos, 36u8);
    let k = if v {
        pos + 1
    } else {
        pos
    };
    match name(input, k) {
        Some((j, n)) => {
            proof {
                lemma_spacelike_end(input@, j as int);
            }
            Some((skip_ws(input, j), (v, n)))
        },
        None => None,
    }
}

/// Parses the names after `show` or `hide`.
pub fn exposed_names(input: &[u8], pos: usize) -> (res: PResult<(Vec<Vec<u8>>, Vec<Vec<u8>>)>)
    requires
        pos <= input.len(),
    ensures
        match res {
            Some((j, (fs, vs))) => spec_exposed_names(input@, pos as int) == Some(
                (j as int, (names_view(fs@), names_view(vs@))),
            ),
            None => spec_exposed_names(input@, pos as int) is None,
        },
        res matches Some((j, _)) ==> pos < j <= input.len(),
{
    let mut funs: Vec<Vec<u8>> = Vec::new();
    let mut vars: Vec<Vec<u8>> = Vec::new();
    proof {
        assert(names_view(funs@) =~= Seq::<Seq<u8>>::empty());
        assert(names_view(vars@) =~= Seq::<Seq<u8>>::empty());
    }
    let mut i = match exposed_one(input, pos) {
        Some((j, (v, n))) => {
            if v {
                set_add_exec(&mut vars, n);
            } else {
                set_add_exec(&mut funs, n);
            }
            j
        },
        None => {
            return None;
        },
    };
    loop
        invariant
            pos < i <= input.len(),
            spec_exposed_names(input@, pos as int) == Some(
                spec_exposed_tail(input@, i as int, (names_view(funs@), names_view(vars@))),
            ),
        decreases input.len() - i,
    {
        if !byte_at(input, i, 44u8) {
            return Some((i, (funs, vars)));
        }
        let a = skip_ws(input, i + 1);
        match exposed_one(input, a) {
            Some((j, (v, n))) => {
                if v {
                    set_add_exec(&mut vars, n);
                } else {
                    set_add_exec(&mut funs, n);
                }
                i = j;
            },
            None => {
                return Some((i, (funs, vars)));
            },
        }
    }
}

/// What follows `@forward` at `i`, after its url: any of `as`, `hide`
/// or `show`, and `with`, each at most once (`hide` and `show` not
/// together), then `;` or the end of the input.
pub open spec fn spec_forward_args(
    s: Seq<u8>,
    f: usize,
    i: int,
    url: SassStringV,
    found_as: Option<UseAsV>,
    expose: ExposeV,
    found_with: Option<Seq<ConfigureV>>,
    pos: SourcePos,
) -> Option<(int, ItemV)>
    decreases s.len() - i,
{
    if !(0 <= i <= s.len()) {
        None
    } else {
        match spec_name(s, i) {
            Some((j, n)) => {
                let r = spacelike_end(s, j);
                if n == kw("as") && found_as is None {
                    match spec_as_arg(s, r) {
                        Some((k, a)) => if i < k <= s.len() {
                            spec_forward_args(s, f, k, url, Some(a), expose, found_with, pos)
                        } else {
                            None
                        },
                        None => None,
                    }
                } else if (n == kw("hide") || n == kw("show")) && expose is All {
                    match spec_exposed_names(s, r) {
                        Some((k, (fu, va))) => if i < k <= s.len() {
                            spec_forward_args(
                                s,
                                f,
                                k,
                                url,
                                found_as,
                                if n == kw("hide") {
                                    ExposeV::Hide(fu, va)
                                } else {
                                    ExposeV::Show(fu, va)
                                },
                                found_with,
                                pos,
                            )
                        } else {
                            None
                        },
                        None => None,
                    }
                } else if n == kw("with") && found_with is None {
                    match spec_with_arg(s, f, r) {
                        Some((k, w)) => if i < k <= s.len() {
                            spec_forward_args(s, f, k, url, found_as, expose, Some(w), pos)
                        } else {
                            None
                        },
                        None => None,
                    }
                } else {
                    None
                }
            },
            None => {
                let item = ItemV::Forward(
                    url,
                    match found_as {
                        Some(a) => a,
                        None => UseAsV::Star,
                    },
                    expose,
                    match found_with {
                        Some(w) => w,
                        None => seq![],
                    },
                    pos,
                );
                if at(s, i, 59u8) {
                    Some((i + 1, item))
                } else if i == s.len() {
                    Some((i, item))
                } else {
                    None
                }
            },
        }
    }
}

/// What follows `@forward` at `i`.
pub open spec fn spec_forward2(s: Seq<u8>, f: usize, i: int) -> Option<(int, ItemV)> {
    match spec_any_sass_string(s, f, i) {
        None => None,
        Some((a, url)) => spec_forward_args(
            s,
            f,
            spacelike_end(s, a),
            url,
            None,
            ExposeV::All,
            None,
            SourcePos { file: f, start: i as usize, end: a as usize },
        ),
    }
}

fn forward_args(
    input: &Span,
    i: usize,
    url: SassString,
    found_as: Option<UseAs>,
    expose: Expose,
    found_with: Option<Vec<Configure>>,
    pos: SourcePos,
) -> (res: PResult<Item>)
    requires
        i <= input.data.len(),
    ensures
        parsed_item(
            res,
            spec_forward_args(
                input.data@,
                input.file,
                i as int,
                url.view(),
                match found_as {
                    Some(a) => Some(a.view()),
                    None => None,
                },
                expose.view(),
                match found_with {
                    Some(w) => Some(configs_view(w@)),
                    None => None,
                },
                pos,
            ),
        ),
        res matches Some((j, _)) ==> i <= j <= input.data.len(),
    decreases input.data.len() - i,
{
    let s = input.data;
    match name(s, i) {
        Some((j, n)) => {
            proof {
                lemma_spacelike_end(s@, j as int);
            }
            let r = skip_ws(s, j);
            let no_expose = match expose {
                Expose::All => true,
                _ => false,
            };
            if bytes_eq(n.as_slice(), "as".as_bytes()) && found_as.is_none() {
                match as_arg(s, r) {
                    Some((k, a)) => forward_args(input, k, url, Some(a), expose, found_with, pos),
                    None => None,
                }
            } else if (bytes_eq(n.as_slice(), "hide".as_bytes()) || bytes_eq(
                n.as_slice(),
                "show".as_bytes(),
            )) && no_expose {
                match exposed_names(s, r) {
                    Some((k, (fu, va))) => {
                        let e = if bytes_eq(n.as_slice(), "hide".as_bytes()) {
                            Expose::Hide(fu, va)
                        } else {
                            Expose::Show(fu, va)
                        };
                        forward_args(input, k, url, found_as, e, found_with, pos)
                    },
                    None => None,
                }
            } else if bytes_eq(n.as_slice(), "with".as_bytes()) && found_with.is_none() {
                match with_arg(input, r) {
                    Some((k, w)) => forward_args(input, k, url, found_as, expose, Some(w), pos),
                    None => None,
                }
            } else {
                None
            }
        },
        None => {
            let a = match found_as {
                Some(a) => a,
                None => UseAs::Star,
            };
            let w = match found_with {
                Some(w) => w,
                None => {
                    let w: Vec<Configure> = Vec::new();
                    proof {
                        assert(configs_view(w@) =~= Seq::<ConfigureV>::empty());
                    }
                    w
                },
            };
            let item = Item::Forward(url, a, expose, w, pos);
            if byte_at(s, i, 59u8) {
                Some((i + 1, item))
            } else if i == s.len() {
                Some((i, item))
            } else {
                None
            }
        },
    }
}

/// Parses what follows `@forward`.
pub fn forward2(input: &Span, pos: usize) -> (res: PResult<Item>)
    requires
        pos <= input.data.len(),
    ensures
        parsed_item(res, spec_forward2(input.data@, input.file, pos as int)),
        res matches Some((j, _)) ==> pos < j <= input.data.len(),
{
    let s = input.data;
    match any_sass_string(input, pos) {
        None => None,
        Some((a, url)) => {
            proof {
                lemma_spacelike_end(s@, a as int);
            }
            forward_args(
                input,
                skip_ws(s, a),
                url,
                None,
                Expose::All,
                None,
                SourcePos { file: input.file, start: pos, end: a },
            )
        },
    }
}

// ---------------------------------------------------------------------
// Laws
// ---------------------------------------------------------------------

proof fn lemma_set_add(a: Seq<Seq<u8>>, x: Seq<u8>)
    requires
        a.no_duplicates(),
    ensures
        set_add(a, x).no_duplicates(),
{
    if !a.contains(x) {
        assert forall|i: int, j: int| 0 <= i < a.len() + 1 && 0 <= j < a.len() + 1 && i != j implies
            a.push(x)[i] != a.push(x)[j] by {
            if i == a.len() as int {
                assert(a[j] != x);
            } else if j == a.len() as int {
                assert(a[i] != x);
            }
        }
    }
}

proof fn lemma_exposed_tail(s: Seq<u8>, i: int, acc: (Seq<Seq<u8>>, Seq<Seq<u8>>))
    requires
        acc.0.no_duplicates(),
        acc.1.no_duplicates(),
    ensures
        spec_exposed_tail(s, i, acc).1.0.no_duplicates(),
        spec_exposed_tail(s, i, acc).1.1.no_duplicates(),
    decreases s.len() - i,
{
    if 0 <= i && at(s, i, 44u8) {
        let a = spacelike_end(s, i + 1);
        if let Some((j, one)) = spec_exposed_one(s, a) {
            if i < j <= s.len() {
                lemma_set_add(acc.0, one.1);
                lemma_set_add(acc.1, one.1);
                lemma_exposed_tail(s, j, add_exposed(acc, one));
            }
        }
    }
}

/// The names after `show` or `hide` are sets: a name listed twice is
/// there once.
pub proof fn law_exposed_names_are_sets(s: Seq<u8>, i: int)
    ensures
        spec_exposed_names(s, i) matches Some((_, (fs, vs))) ==> fs.no_duplicates()
            && vs.no_duplicates(),
{
    if let Some((j, one)) = spec_exposed_one(s, i) {
        if i < j <= s.len() {
            let e: Seq<Seq<u8>> = seq![];
            lemma_set_add(e, one.1);
            lemma_exposed_tail(s, j, add_exposed((e, e), one));
        }
    }
}

/// An `as` clause of `@forward` at `i`: the keyword and its argument.
pub open spec fn as_clause(s: Seq<u8>, i: int) -> Option<(int, UseAsV)> {
    match spec_name(s, i) {
        Some((j, n)) => if n == kw("as") {
            match spec_as_arg(s, spacelike_end(s, j)) {
                Some((k, a)) => if i < k <= s.len() {
                    Some((k, a))
                } else {
                    None
                },
                None => None,
            }
        } else {
            None
        },
        None => None,
    }
}

/// A `show` or `hide` clause of `@forward` at `i`: the keyword and its
/// names.
pub open spec fn expose_clause(s: Seq<u8>, i: int) -> Option<(int, ExposeV)> {
    match spec_name(s, i) {
        Some((j, n)) => if n == kw("hide") || n == kw("show") {
            match spec_exposed_names(s, spacelike_end(s, j)) {
                Some((k, (fu, va))) => if i < k <= s.len() {
                    Some(
                        (
                            k,
                            if n == kw("hide") {
                                ExposeV::Hide(fu, va)
                            } else {
                                ExposeV::Show(fu, va)
                            },
                        ),
                    )
                } else {
                    None
                },
                None => None,
            }
        } else {
            None
        },
        None => None,
    }
}

/// A `with` clause of `@forward` at `i`: the keyword and its
/// configuration.
pub open spec fn with_clause(s: Seq<u8>, f: usize, i: int) -> Option<(int, Seq<ConfigureV>)> {
    match spec_name(s, i) {
        Some((j, n)) => if n == kw("with") {
            match spec_with_arg(s, f, spacelike_end(s, j)) {
                Some((k, w)) => if i < k <= s.len() {
                    Some((k, w))
                } else {
                    None
                },
                None => None,
            }
        } else {
            None
        },
        None => None,
    }
}

/// The bytes of the words that start the clauses of `@forward`.
proof fn lemma_clause_words()
    ensures
        kw("as") == seq![97u8, 115u8],
        kw("hide") == seq![104u8, 105u8, 100u8, 101u8],
        kw("show") == seq![115u8, 104u8, 111u8, 119u8],
        kw("with") == seq![119u8, 105u8, 116u8, 104u8],
{
    reveal_strlit("as");
    reveal_strlit("hide");
    reveal_strlit("show");
    reveal_strlit("with");
    vstd::string::is_ascii_spec_bytes("as");
    vstd::string::is_ascii_spec_bytes("hide");
    vstd::string::is_ascii_spec_bytes("show");
    vstd::string::is_ascii_spec_bytes("with");
    assert(kw("as") =~= seq![97u8, 115u8]);
    assert(kw("hide") =~= seq![104u8, 105u8, 100u8, 101u8]);
    assert(kw("show") =~= seq![115u8, 104u8, 111u8, 119u8]);
    assert(kw("with") =~= seq![119u8, 105u8, 116u8, 104u8]);
}

proof fn lemma_forward_as_step(
    s: Seq<u8>,
    f: usize,
    i: int,
    url: SassStringV,
    e: ExposeV,
    fw: Option<Seq<ConfigureV>>,
    pos: SourcePos,
)
    requires
        0 <= i <= s.len(),
        as_clause(s, i) is Some,
    ensures
        spec_forward_args(s, f, i, url, None, e, fw, pos) == spec_forward_args(
            s,
            f,
            as_clause(s, i)->Some_0.0,
            url,
            Some(as_clause(s, i)->Some_0.1),
            e,
            fw,
            pos,
        ),
{
}

proof fn lemma_forward_expose_step(
    s: Seq<u8>,
    f: usize,
    i: int,
    url: SassStringV,
    fa: Option<UseAsV>,
    fw: Option<Seq<ConfigureV>>,
    pos: SourcePos,
)
    requires
        0 <= i <= s.len(),
        expose_clause(s, i) is Some,
    ensures
        spec_forward_args(s, f, i, url, fa, ExposeV::All, fw, pos) == spec_forward_args(
            s,
            f,
            expose_clause(s, i)->Some_0.0,
            url,
            fa,
            expose_clause(s, i)->Some_0.1,
            fw,
            pos,
        ),
{
    lemma_clause_words();
}

proof fn lemma_forward_with_step(
    s: Seq<u8>,
    f: usize,
    i: int,
    url: SassStringV,
    fa: Option<UseAsV>,
    e: ExposeV,
    pos: SourcePos,
)
    requires
        0 <= i <= s.len(),
        with_clause(s, f, i) is Some,
    ensures
        spec_forward_args(s, f, i, url, fa, e, None, pos) == spec_forward_args(
            s,
            f,
            with_clause(s, f, i)->Some_0.0,
            url,
            fa,
            e,
            Some(with_clause(s, f, i)->Some_0.1),
            pos,
        ),
{
    lemma_clause_words();
}

proof fn lemma_forward_end(
    s: Seq<u8>,
    f: usize,
    k: int,
    url: SassStringV,
    fa: Option<UseAsV>,
    e: ExposeV,
    fw: Option<Seq<ConfigureV>>,
    pos: SourcePos,
)
    requires
        at(s, k, 59u8),
    ensures
        spec_forward_args(s, f, k, url, fa, e, fw, pos) == Some(
            (
                k + 1,
                ItemV::Forward(
                    url,
                    match fa {
                        Some(a) => a,
                        None => UseAsV::Star,
                    },
                    e,
                    match fw {
                        Some(w) => w,
                        None => seq![],
                    },
                    pos,
                ),
            ),
        ),
{
    assert(spec_name(s, k) is None);
}

/// The clauses of `@forward` may come in either order: where `s1` has an
/// `as` clause and then a `show` or `hide` clause from `i`, and `s2` has
/// the same two clauses the other way round, both ending at the `;` at
/// `k`, the two give the same item and end.
pub proof fn law_forward_as_expose_order(
    s1: Seq<u8>,
    s2: Seq<u8>,
    f: usize,
    i: int,
    j1: int,
    j2: int,
    k: int,
    url: SassStringV,
    pos: SourcePos,
    a: UseAsV,
    e: ExposeV,
)
    requires
        0 <= i,
        as_clause(s1, i) == Some((j1, a)),
        expose_clause(s1, j1) == Some((k, e)),
        expose_clause(s2, i) == Some((j2, e)),
        as_clause(s2, j2) == Some((k, a)),
        at(s1, k, 59u8),
        at(s2, k, 59u8),
    ensures
        spec_forward_args(s1, f, i, url, None, ExposeV::All, None, pos) == spec_forward_args(
            s2,
            f,
            i,
            url,
            None,
            ExposeV::All,
            None,
            pos,
        ),
        spec_forward_args(s1, f, i, url, None, ExposeV::All, None, pos) == Some(
            (k + 1, ItemV::Forward(url, a, e, seq![], pos)),
        ),
{
    lemma_forward_as_step(s1, f, i, url, ExposeV::All, None, pos);
    lemma_forward_expose_step(s1, f, j1, url, Some(a), None, pos);
    lemma_forward_end(s1, f, k, url, Some(a), e, None, pos);
    lemma_forward_expose_step(s2, f, i, url, None, None, pos);
    lemma_forward_as_step(s2, f, j2, url, e, None, pos);
    lemma_forward_end(s2, f, k, url, Some(a), e, None, pos);
}

/// The clauses of `@forward` may come in either order: an `as` clause
/// and a `with` clause, as `law_forward_as_expose_order` says.
pub proof fn law_forward_as_with_order(
    s1: Seq<u8>,
    s2: Seq<u8>,
    f: usize,
    i: int,
    j1: int,
    j2: int,
    k: int,
    url: SassStringV,
    pos: SourcePos,
    a: UseAsV,
    w: Seq<ConfigureV>,
)
    requires
        0 <= i,
        as_clause(s1, i) == Some((j1, a)),
        with_clause(s1, f, j1) == Some((k, w)),
        with_clause(s2, f, i) == Some((j2, w)),
        as_clause(s2, j2) == Some((k, a)),
        at(s1, k, 59u8),
        at(s2, k, 59u8),
    ensures
        spec_forward_args(s1, f, i, url, None, ExposeV::All, None, pos) == spec_forward_args(
            s2,
            f,
            i,
            url,
            None,
            ExposeV::All,
            None,
            pos,
        ),
        spec_forward_args(s1, f, i, url, None, ExposeV::All, None, pos) == Some(
            (k + 1, ItemV::Forward(url, a, ExposeV::All, w, pos)),
        ),
{
    lemma_forward_as_step(s1, f, i, url, ExposeV::All, None, pos);
    lemma_forward_with_step(s1, f, j1, url, Some(a), ExposeV::All, pos);
    lemma_forward_end(s1, f, k, url, Some(a), ExposeV::All, Some(w), pos);
    lemma_forward_with_step(s2, f, i, url, None, ExposeV::All, pos);
    lemma_forward_as_step(s2, f, j2, url, ExposeV::All, Some(w), pos);
    lemma_forward_end(s2, f, k, url, Some(a), ExposeV::All, Some(w), pos);
}

/// The clauses of `@forward` may come in either order: a `show` or
/// `hide` clause and a `with` clause, as `law_forward_as_expose_order`
/// says.
pub proof fn law_forward_expose_with_order(
    s1: Seq<u8>,
    s2: Seq<u8>,
    f: usize,
    i: int,
    j1: int,
    j2: int,
    k: int,
    url: SassStringV,
    pos: SourcePos,
    e: ExposeV,
    w: Seq<ConfigureV>,
)
    requires
        0 <= i,
        expose_clause(s1, i) == Some((j1, e)),
        with_clause(s1, f, j1) == Some((k, w)),
        with_clause(s2, f, i) == Some((j2, w)),
        expose_clause(s2, j2) == Some((k, e)),
        at(s1, k, 59u8),
        at(s2, k, 59u8),
    ensures
        spec_forward_args(s1, f, i, url, None, ExposeV::All, None, pos) == spec_forward_args(
            s2,
            f,
            i,
            url,
            None,
            ExposeV::All,
            None,
            pos,
        ),
        spec_forward_args(s1, f, i, url, None, ExposeV::All, None, pos) == Some(
            (k + 1, ItemV::Forward(url, UseAsV::Star, e, w, pos)),
        ),
{
    lemma_forward_expose_step(s1, f, i, url, None, None, pos);
    lemma_forward_with_step(s1, f, j1, url, None, e, pos);
    lemma_forward_end(s1, f, k, url, None, e, Some(w), pos);
    lemma_forward_with_step(s2, f, i, url, None, ExposeV::All, pos);
    lemma_forward_expose_step(s2, f, j2, url, None, Some(w), pos);
    lemma_forward_end(s2, f, k, url, None, e, Some(w), pos);
}

/// The name that follows a comma at `i`, if one does.
pub open spec fn name_after_comma(s: Seq<u8>, f: usize, i: int) -> Option<SassStringV> {
    match spec_comma(s, f, i) {
        Some(a) => if 0 <= i < a <= s.len() {
            match spec_import_name(s, f, a) {
                Some((j, n)) => if a < j <= s.len() {
                    Some(n)
                } else {
                    None
                },
                None => None,
            }
        } else {
            None
        },
        None => None,
    }
}

/// The name that stands at `i`, if one does.
pub open spec fn name_at(s: Seq<u8>, f: usize, i: int) -> Option<SassStringV> {
    match spec_import_name(s, f, i) {
        Some((j, n)) => if i < j <= s.len() {
            Some(n)
        } else {
            None
        },
        None => None,
    }
}

/// Each name after a comma is kept, in order: what the tail of an import
/// gives starts with the names before it, and when a comma and a name
/// stand at `i`, that name comes next.
pub proof fn law_import_names_tail_keeps(s: Seq<u8>, f: usize, i: int, acc: Seq<SassStringV>)
    ensures
        spec_import_names_tail(s, f, i, acc).1.len() >= acc.len(),
        spec_import_names_tail(s, f, i, acc).1.take(acc.len() as int) == acc,
        name_after_comma(s, f, i) is Some ==> spec_import_names_tail(s, f, i, acc).1.len() > acc.len()
            && spec_import_names_tail(s, f, i, acc).1[acc.len() as int] == name_after_comma(
            s,
            f,
            i,
        )->Some_0,
    decreases s.len() - i,
{
    if let Some(a) = spec_comma(s, f, i) {
        if 0 <= i < a <= s.len() {
            if let Some((j, n)) = spec_import_name(s, f, a) {
                if a < j <= s.len() {
                    law_import_names_tail_keeps(s, f, j, acc.push(n));
                    let r = spec_import_names_tail(s, f, j, acc.push(n)).1;
                    assert(r.take(acc.len() as int) =~= r.take(acc.len() + 1int).take(acc.len() as int));
                    assert(acc.push(n).take(acc.len() as int) =~= acc);
                    assert(r[acc.len() as int] == r.take(acc.len() + 1int)[acc.len() as int]);
                }
            }
        }
    }
    assert(acc.take(acc.len() as int) =~= acc);
}

/// The first name of an import is kept first, and what follows it comes
/// after it.
pub proof fn law_import_names_keeps_first(s: Seq<u8>, f: usize, i: int)
    ensures
        name_at(s, f, i) is Some ==> spec_import_names(s, f, i).1.len() >= 1 && spec_import_names(
            s,
            f,
            i,
        ).1[0] == name_at(s, f, i)->Some_0,
        (name_at(s, f, i) is Some && name_after_comma(s, f, spec_import_name(s, f, i)->Some_0.0)
            is Some) ==> spec_import_names(s, f, i).1.len() >= 2 && spec_import_names(s, f, i).1[1]
            == name_after_comma(s, f, spec_import_name(s, f, i)->Some_0.0)->Some_0,
{
    if let Some((j, n)) = spec_import_name(s, f, i) {
        if i < j <= s.len() {
            law_import_names_tail_keeps(s, f, j, seq![n]);
            let r = spec_import_names_tail(s, f, j, seq![n]).1;
            assert(r[0] == r.take(1)[0]);
        }
    }
}

} // verus!
