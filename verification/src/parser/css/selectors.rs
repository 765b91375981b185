//! Parsing css selectors, as they stand after interpolation.
use crate::css::{
    lemma_selector_view, lemma_selectors_view, sel_parts_view, sels_view, CssString, PartV,
    Selector, SelectorPart, Selectors,
};
use crate::parser::span::Span;
use crate::parser::util::{
    comments_end, ignore_comments, is_space, lemma_space_step, lemma_spacelike_end, skip_ws, space_end, spacelike2,
    spacelike_end, spec_comments_step, spec_ignore_comments, spec_space_step, spec_spacelike2,
};
use crate::parser::value::{bytes_between, is_alpha, is_name_char};
use crate::parser::{at, byte_at, PResult};
use crate::sass::Quotes;
use vstd::prelude::*;

verus! {

// ---------------------------------------------------------------------
// Css strings
// ---------------------------------------------------------------------

/// A byte of a name in a selector: a name byte, `.`, `#` or `%`.
pub open spec fn is_sel_char(b: u8) -> bool {
    is_name_char(b) || b == 46u8 || b == 35u8 || b == 37u8
}

pub open spec fn sel_char_end(s: Seq<u8>, i: int) -> int
    decreases s.len() - i,
{
    if 0 <= i < s.len() && is_sel_char(s[i]) {
        sel_char_end(s, i + 1)
    } else {
        i
    }
}

pub proof fn lemma_sel_char_end(s: Seq<u8>, i: int)
    requires
        0 <= i <= s.len(),
    ensures
        i <= sel_char_end(s, i) <= s.len(),
    decreases s.len() - i,
{
    if i < s.len() && is_sel_char(s[i]) {
        lemma_sel_char_end(s, i + 1);
    }
}

/// An unquoted css string: one or more name bytes.
pub open spec fn spec_css_string(s: Seq<u8>, i: int) -> Option<(int, Seq<u8>)> {
    if 0 <= i < s.len() && is_sel_char(s[i]) {
        let j = sel_char_end(s, i);
        Some((j, s.subrange(i, j)))
    } else {
        None
    }
}

/// The first index at or after `i` that holds `q`, or the end.
pub open spec fn byte_end(s: Seq<u8>, i: int, q: u8) -> int
    decreases s.len() - i,
{
    if 0 <= i < s.len() && s[i] != q {
        byte_end(s, i + 1, q)
    } else {
        i
    }
}

pub proof fn lemma_byte_end(s: Seq<u8>, i: int, q: u8)
    requires
        0 <= i <= s.len(),
    ensures
        i <= byte_end(s, i, q) <= s.len(),
        byte_end(s, i, q) < s.len() ==> s[byte_end(s, i, q)] == q,
    decreases s.len() - i,
{
    if i < s.len() && s[i] != q {
        lemma_byte_end(s, i + 1, q);
    }
}

/// A quoted css string, or an unquoted one.
pub open spec fn spec_css_string_any(s: Seq<u8>, i: int) -> Option<(int, (Seq<u8>, Quotes))> {
    if at(s, i, 34u8) || at(s, i, 39u8) {
        let q = s[i];
        let e = byte_end(s, i + 1, q);
        if e < s.len() {
            Some(
                (
                    e + 1,
                    (
                        s.subrange(i + 1, e),
                        if q == 34u8 {
                            Quotes::Double
                        } else {
                            Quotes::Single
                        },
                    ),
                ),
            )
        } else {
            None
        }
    } else {
        match spec_css_string(s, i) {
            Some((j, v)) => Some((j, (v, Quotes::NoQuotes))),
            None => None,
        }
    }
}

fn sel_char_run(input: &[u8], pos: usize) -> (j: usize)
    requires
        pos <= input.len(),
    ensures
        j == sel_char_end(input@, pos as int),
        pos <= j <= input.len(),
{
    let mut j = pos;
    while j < input.len() && ((65u8 <= input[j] && input[j] <= 90u8) || (97u8 <= input[j]
        && input[j] <= 122u8) || input[j] == 95u8 || input[j] >= 128u8 || (48u8 <= input[j]
        && input[j] <= 57u8) || input[j] == 45u8 || input[j] == 46u8 || input[j] == 35u8
        || input[j] == 37u8)
        invariant
            pos <= j <= input.len(),
            sel_char_end(input@, pos as int) == sel_char_end(input@, j as int),
        decreases input.len() - j,
    {
        j = j + 1;
    }
    j
}

/// Parses an unquoted css string.
pub fn css_string(input: &[u8], pos: usize) -> (res: PResult<Vec<u8>>)
    requires
        pos <= input.len(),
    ensures
        match res {
            Some((j, v)) => spec_css_string(input@, pos as int) == Some((j as int, v@)),
            None => spec_css_string(input@, pos as int) is None,
        },
        res matches Some((j, _)) ==> pos < j <= input.len(),
{
    if pos < input.len() {
        let b = input[pos];
        if (65u8 <= b && b <= 90u8) || (97u8 <= b && b <= 122u8) || b == 95u8 || b >= 128u8 || (
        48u8 <= b && b <= 57u8) || b == 45u8 || b == 46u8 || b == 35u8 || b == 37u8 {
            let j = sel_char_run(input, pos + 1);
            return Some((j, bytes_between(input, pos, j)));
        }
    }
    None
}

fn byte_run(input: &[u8], pos: usize, q: u8) -> (j: usize)
    requires
        pos <= input.len(),
    ensures
        j == byte_end(input@, pos as int, q),
        pos <= j <= input.len(),
{
    let mut j = pos;
    while j < input.len() && input[j] != q
        invariant
            pos <= j <= input.len(),
            byte_end(input@, pos as int, q) == byte_end(input@, j as int, q),
        decreases input.len() - j,
    {
        j = j + 1;
    }
    j
}

/// Parses a quoted or unquoted css string.
pub fn css_string_any(input: &[u8], pos: usize) -> (res: PResult<CssString>)
    requires
        pos <= input.len(),
    ensures
        match res {
            Some((j, v)) => spec_css_string_any(input@, pos as int) == Some(
                (j as int, (v.value@, v.quotes)),
            ),
            None => spec_css_string_any(input@, pos as int) is None,
        },
        res matches Some((j, _)) ==> pos < j <= input.len(),
{
    if byte_at(input, pos, 34u8) || byte_at(input, pos, 39u8) {
        let q = input[pos];
        let e = byte_run(input, pos + 1, q);
        if e < input.len() {
            let quotes = if q == 34u8 {
                Quotes::Double
            } else {
                Quotes::Single
            };
            Some((e + 1, CssString { value: bytes_between(input, pos + 1, e), quotes }))
        } else {
            None
        }
    } else {
        match css_string(input, pos) {
            Some((j, v)) => Some((j, CssString { value: v, quotes: Quotes::NoQuotes })),
            None => None,
        }
    }
}

// ---------------------------------------------------------------------
// Selectors
// ---------------------------------------------------------------------

/// The length of the operator of an attribute selector at `i`, if one
/// stands there: `*=`, `|=`, `=`, `$=`, `~=` or `^=`.
pub open spec fn attr_op_len(s: Seq<u8>, i: int) -> int {
    if at(s, i, 61u8) {
        1
    } else if (at(s, i, 42u8) || at(s, i, 124u8) || at(s, i, 36u8) || at(s, i, 126u8) || at(
        s,
        i,
        94u8,
    )) && at(s, i + 1, 61u8) {
        2
    } else {
        0
    }
}

/// The inside of an attribute selector with an operator and a value,
/// from `i` (after the opening bracket and any space) to the closing
/// bracket, excluded.
pub open spec fn spec_attr_full(s: Seq<u8>, i: int) -> Option<(int, PartV)> {
    match spec_css_string(s, i) {
        None => None,
        Some((n, name)) => {
            let b = spacelike_end(s, n);
            let ol = attr_op_len(s, b);
            if ol == 0 {
                None
            } else {
                let d = spacelike_end(s, b + ol);
                match spec_css_string_any(s, d) {
                    None => None,
                    Some((e, (v, q))) => {
                        let g = spacelike_end(s, e);
                        if 0 <= g < s.len() && is_alpha(s[g]) {
                            Some(
                                (
                                    spacelike_end(s, g + 1),
                                    PartV::Attribute(
                                        name,
                                        s.subrange(b, b + ol),
                                        v,
                                        q,
                                        Some(s[g]),
                                    ),
                                ),
                            )
                        } else {
                            Some((g, PartV::Attribute(name, s.subrange(b, b + ol), v, q, None)))
                        }
                    },
                }
            }
        },
    }
}

/// An attribute selector after its opening bracket at `i - 1`.
pub open spec fn spec_attribute(s: Seq<u8>, i: int) -> Option<(int, PartV)> {
    let a = spacelike_end(s, i);
    match spec_attr_full(s, a) {
        Some((h, p)) => if at(s, h, 93u8) {
            Some((h + 1, p))
        } else {
            None
        },
        None => match spec_css_string(s, a) {
            Some((n, name)) => {
                let b = spacelike_end(s, n);
                if at(s, b, 93u8) {
                    Some((b + 1, PartV::Attribute(name, seq![], seq![], Quotes::NoQuotes, None)))
                } else {
                    None
                }
            },
            None => None,
        },
    }
}

/// The optional argument of a pseudo selector at `j`: selectors in
/// parentheses.
pub open spec fn spec_pseudo_arg(s: Seq<u8>, f: usize, j: int) -> (int, Option<Seq<Seq<PartV>>>)
    decreases s.len() - j, 0nat,
{
    if at(s, j, 40u8) {
        match spec_selectors(s, f, j + 1) {
            Some((k, a)) => if j + 1 < k <= s.len() && at(s, k, 41u8) {
                (k + 1, Some(a))
            } else {
                (j, None)
            },
            None => (j, None),
        }
    } else {
        (j, None)
    }
}

/// A combinator with any space around it.
pub open spec fn spec_relop(s: Seq<u8>, i: int) -> Option<(int, PartV)> {
    let a = spacelike_end(s, i);
    if at(s, a, 62u8) || at(s, a, 43u8) || at(s, a, 126u8) || at(s, a, 92u8) {
        Some((spacelike_end(s, a + 1), PartV::RelOp(s[a])))
    } else {
        None
    }
}

/// One part of a selector.
pub open spec fn spec_selector_part(s: Seq<u8>, f: usize, i: int) -> Option<(int, PartV)>
    decreases s.len() - i, 1nat,
{
    if !(0 <= i <= s.len()) {
        None
    } else if at(s, i, 42u8) {
        Some((i + 1, PartV::Simple(seq![42u8])))
    } else if at(s, i, 38u8) {
        Some((i + 1, PartV::BackRef))
    } else if at(s, i, 58u8) {
        let elem = at(s, i + 1, 58u8);
        let k = if elem {
            i + 2
        } else {
            i + 1
        };
        match spec_css_string(s, k) {
            None => None,
            Some((j, name)) => if k < j <= s.len() {
                let (e, arg) = spec_pseudo_arg(s, f, j);
                Some(
                    (
                        e,
                        if elem {
                            PartV::PseudoElement(name, arg)
                        } else {
                            PartV::Pseudo(name, arg)
                        },
                    ),
                )
            } else {
                None
            },
        }
    } else if at(s, i, 91u8) {
        spec_attribute(s, i + 1)
    } else {
        match spec_css_string(s, i) {
            Some((j, n)) => Some((j, PartV::Simple(n))),
            None => match spec_relop(s, i) {
                Some(r) => Some(r),
                None => match spec_spacelike2(s, f, i) {
                    Some(j) => Some((j, PartV::Descendant)),
                    None => None,
                },
            },
        }
    }
}

/// More parts of a selector.
pub open spec fn spec_selector_tail(s: Seq<u8>, f: usize, i: int, acc: Seq<PartV>) -> (
    int,
    Seq<PartV>,
)
    decreases s.len() - i, 2nat,
{
    if !(0 <= i <= s.len()) {
        (i, acc)
    } else {
        match spec_selector_part(s, f, i) {
            Some((j, p)) => if i < j <= s.len() {
                spec_selector_tail(s, f, j, acc.push(p))
            } else {
                (i, acc)
            },
            None => (i, acc),
        }
    }
}

/// A selector: one or more parts, without a trailing descendant space.
pub open spec fn spec_selector(s: Seq<u8>, f: usize, i: int) -> Option<(int, Seq<PartV>)>
    decreases s.len() - i, 3nat,
{
    match spec_selector_part(s, f, i) {
        Some((j, p)) => if i < j <= s.len() {
            let (k, ps) = spec_selector_tail(s, f, j, seq![p]);
            Some(
                (
                    k,
                    if ps.len() > 0 && ps.last() is Descendant {
                        ps.drop_last()
                    } else {
                        ps
                    },
                ),
            )
        } else {
            None
        },
        None => None,
    }
}

/// More selectors, each after a comma and any comments.
pub open spec fn spec_selectors_tail(s: Seq<u8>, f: usize, i: int, acc: Seq<Seq<PartV>>) -> (
    int,
    Seq<Seq<PartV>>,
)
    decreases s.len() - i, 4nat,
{
    if !(0 <= i <= s.len()) {
        (i, acc)
    } else if at(s, i, 44u8) {
        let a = comments_end(s, f, i + 1);
        if i < a <= s.len() {
            match spec_selector(s, f, a) {
                Some((k, sel)) => if a < k <= s.len() {
                    spec_selectors_tail(s, f, k, acc.push(sel))
                } else {
                    (i, acc)
                },
                None => (i, acc),
            }
        } else {
            (i, acc)
        }
    } else {
        (i, acc)
    }
}

/// One or more selectors separated by commas.
pub open spec fn spec_selectors(s: Seq<u8>, f: usize, i: int) -> Option<(int, Seq<Seq<PartV>>)>
    decreases s.len() - i, 5nat,
{
    match spec_selector(s, f, i) {
        Some((j, sel)) => if i < j <= s.len() {
            Some(spec_selectors_tail(s, f, j, seq![sel]))
        } else {
            None
        },
        None => None,
    }
}

pub open spec fn parsed_part(res: PResult<SelectorPart>, sp: Option<(int, PartV)>) -> bool {
    match res {
        Some((j, p)) => sp == Some((j as int, p.view())),
        None => sp is None,
    }
}

pub open spec fn parsed_selector(res: PResult<Selector>, sp: Option<(int, Seq<PartV>)>) -> bool {
    match res {
        Some((j, p)) => sp == Some((j as int, p.view())),
        None => sp is None,
    }
}

pub open spec fn parsed_selectors(res: PResult<Selectors>, sp: Option<(int, Seq<Seq<PartV>>)>) -> bool {
    match res {
        Some((j, p)) => sp == Some((j as int, p.view())),
        None => sp is None,
    }
}

fn attr_op(input: &[u8], pos: usize) -> (n: usize)
    requires
        pos <= input.len(),
    ensures
        n == attr_op_len(input@, pos as int),
{
    if byte_at(input, pos, 61u8) {
        1
    } else if (byte_at(input, pos, 42u8) || byte_at(input, pos, 124u8) || byte_at(input, pos, 36u8)
        || byte_at(input, pos, 126u8) || byte_at(input, pos, 94u8)) && byte_at(
        input,
        pos + 1,
        61u8,
    ) {
        2
    } else {
        0
    }
}

fn attr_full(input: &[u8], pos: usize) -> (res: PResult<SelectorPart>)
    requires
        pos <= input.len(),
    ensures
        parsed_part(res, spec_attr_full(input@, pos as int)),
        res matches Some((j, _)) ==> pos < j <= input.len(),
{
    match css_string(input, pos) {
        None => None,
        Some((n, name)) => {
            let b = skip_ws(input, n);
            let ol = attr_op(input, b);
            if ol == 0 {
                return None;
            }
            let d = skip_ws(input, b + ol);
            match css_string_any(input, d) {
                None => None,
                Some((e, val)) => {
                    let op = bytes_between(input, b, b + ol);
                    let g = skip_ws(input, e);
                    if g < input.len() && ((65u8 <= input[g] && input[g] <= 90u8) || (97u8
                        <= input[g] && input[g] <= 122u8)) {
                        let m = input[g];
                        let h = skip_ws(input, g + 1);
                        Some((h, SelectorPart::Attribute { name, op, val, modifier: Some(m) }))
                    } else {
                        Some((g, SelectorPart::Attribute { name, op, val, modifier: None }))
                    }
                },
            }
        },
    }
}

fn attribute(input: &[u8], pos: usize) -> (res: PResult<SelectorPart>)
    requires
        pos <= input.len(),
    ensures
        parsed_part(res, spec_attribute(input@, pos as int)),
        res matches Some((j, _)) ==> pos < j <= input.len(),
{
    let a = skip_ws(input, pos);
    match attr_full(input, a) {
        Some((h, p)) => {
            if byte_at(input, h, 93u8) {
                Some((h + 1, p))
            } else {
                None
            }
        },
        None => match css_string(input, a) {
            Some((n, name)) => {
                let b = skip_ws(input, n);
                if byte_at(input, b, 93u8) {
                    let part = SelectorPart::Attribute {
                        name,
                        op: Vec::new(),
                        val: CssString { value: Vec::new(), quotes: Quotes::NoQuotes },
                        modifier: None,
                    };
                    proof {
                        assert(part.view() == PartV::Attribute(
                            name@,
                            seq![],
                            seq![],
                            Quotes::NoQuotes,
                            None,
                        ));
                    }
                    Some((b + 1, part))
                } else {
                    None
                }
            },
            None => None,
        },
    }
}

fn pseudo_arg(input: &Span, j: usize) -> (res: (usize, Option<Selectors>))
    requires
        j <= input.data.len(),
    ensures
        spec_pseudo_arg(input.data@, input.file, j as int) == (
            res.0 as int,
            match res.1 {
                Some(a) => Some(a.view()),
                None => None,
            },
        ),
        j <= res.0 <= input.data.len(),
    decreases input.data.len() - j, 0nat,
{
    if byte_at(input.data, j, 40u8) {
        match selectors(input, j + 1) {
            Some((k, a)) => {
                if byte_at(input.data, k, 41u8) {
                    (k + 1, Some(a))
                } else {
                    (j, None)
                }
            },
            None => (j, None),
        }
    } else {
        (j, None)
    }
}

/// Parses one part of a selector.
pub fn selector_part(input: &Span, pos: usize) -> (res: PResult<SelectorPart>)
    requires
        pos <= input.data.len(),
    ensures
        parsed_part(res, spec_selector_part(input.data@, input.file, pos as int)),
        res matches Some((j, _)) ==> pos < j <= input.data.len(),
    decreases input.data.len() - pos, 1nat,
{
    let s = input.data;
    if byte_at(s, pos, 42u8) {
        let mut t: Vec<u8> = Vec::new();
        t.push(42u8);
        proof {
            assert(t@ =~= seq![42u8]);
        }
        return Some((pos + 1, SelectorPart::Simple(t)));
    }
    if byte_at(s, pos, 38u8) {
        return Some((pos + 1, SelectorPart::BackRef));
    }
    if byte_at(s, pos, 58u8) {
        let elem = pos < usize::MAX && byte_at(s, pos + 1, 58u8);
        let k = if elem {
            pos + 2
        } else {
            pos + 1
        };
        return match css_string(s, k) {
            None => None,
            Some((j, name)) => {
                let (e, arg) = pseudo_arg(input, j);
                if elem {
                    Some((e, SelectorPart::PseudoElement { name, arg }))
                } else {
                    Some((e, SelectorPart::Pseudo { name, arg }))
                }
            },
        };
    }
    if byte_at(s, pos, 91u8) {
        return attribute(s, pos + 1);
    }
    match css_string(s, pos) {
        Some((j, n)) => {
            return Some((j, SelectorPart::Simple(n)));
        },
        None => {},
    }
    let a = skip_ws(s, pos);
    if byte_at(s, a, 62u8) || byte_at(s, a, 43u8) || byte_at(s, a, 126u8) || byte_at(s, a, 92u8) {
        let c = s[a];
        let e = skip_ws(s, a + 1);
        return Some((e, SelectorPart::RelOp(c)));
    }
    match spacelike2(input, pos) {
        Some((j, _)) => Some((j, SelectorPart::Descendant)),
        None => None,
    }
}

fn selector_tail(input: &Span, pos: usize, acc: Vec<SelectorPart>) -> (res: (
    usize,
    Vec<SelectorPart>,
))
    requires
        pos <= input.data.len(),
    ensures
        spec_selector_tail(input.data@, input.file, pos as int, sel_parts_view(acc@)) == (
            res.0 as int,
            sel_parts_view(res.1@),
        ),
        pos <= res.0 <= input.data.len(),
    decreases input.data.len() - pos, 2nat,
{
    match selector_part(input, pos) {
        Some((j, p)) => {
            let mut acc = acc;
            let ghost a0 = sel_parts_view(acc@);
            let ghost pv = p.view();
            acc.push(p);
            proof {
                assert(sel_parts_view(acc@) =~= a0.push(pv));
            }
            selector_tail(input, j, acc)
        },
        None => (pos, acc),
    }
}

/// Parses a selector.
pub fn selector(input: &Span, pos: usize) -> (res: PResult<Selector>)
    requires
        pos <= input.data.len(),
    ensures
        parsed_selector(res, spec_selector(input.data@, input.file, pos as int)),
        res matches Some((j, _)) ==> pos < j <= input.data.len(),
    decreases input.data.len() - pos, 3nat,
{
    match selector_part(input, pos) {
        Some((j, p)) => {
            let ghost pv = p.view();
            let mut acc: Vec<SelectorPart> = Vec::new();
            acc.push(p);
            proof {
                assert(sel_parts_view(acc@) =~= seq![pv]);
            }
            let (k, mut ps) = selector_tail(input, j, acc);
            let ghost psv = sel_parts_view(ps@);
            let n = ps.len();
            if n > 0 {
                let last_is_desc = match &ps[n - 1] {
                    SelectorPart::Descendant => true,
                    _ => false,
                };
                if last_is_desc {
                    ps.pop();
                    proof {
                        assert(sel_parts_view(ps@) =~= psv.drop_last());
                    }
                }
            }
            let r = Selector(ps);
            proof {
                lemma_selector_view(&r);
            }
            Some((k, r))
        },
        None => None,
    }
}

fn selectors_tail(input: &Span, pos: usize, acc: Vec<Selector>) -> (res: (usize, Vec<Selector>))
    requires
        pos <= input.data.len(),
    ensures
        spec_selectors_tail(input.data@, input.file, pos as int, sels_view(acc@)) == (
            res.0 as int,
            sels_view(res.1@),
        ),
        pos <= res.0 <= input.data.len(),
    decreases input.data.len() - pos, 4nat,
{
    if byte_at(input.data, pos, 44u8) {
        match ignore_comments(input, pos + 1) {
            Some((a, _)) => {
                match selector(input, a) {
                    Some((k, sel)) => {
                        let mut acc = acc;
                        let ghost a0 = sels_view(acc@);
                        let ghost sv = sel.view();
                        acc.push(sel);
                        proof {
                            assert(sels_view(acc@) =~= a0.push(sv));
                        }
                        selectors_tail(input, k, acc)
                    },
                    None => (pos, acc),
                }
            },
            None => (pos, acc),
        }
    } else {
        (pos, acc)
    }
}

/// Parses one or more selectors separated by commas.
pub fn selectors(input: &Span, pos: usize) -> (res: PResult<Selectors>)
    requires
        pos <= input.data.len(),
    ensures
        parsed_selectors(res, spec_selectors(input.data@, input.file, pos as int)),
        res matches Some((j, _)) ==> pos < j <= input.data.len(),
    decreases input.data.len() - pos, 5nat,
{
    match selector(input, pos) {
        Some((j, sel)) => {
            let ghost sv = sel.view();
            let mut acc: Vec<Selector> = Vec::new();
            acc.push(sel);
            proof {
                assert(sels_view(acc@) =~= seq![sv]);
            }
            let (k, v) = selectors_tail(input, j, acc);
            let r = Selectors(v);
            proof {
                lemma_selectors_view(&r);
            }
            Some((k, r))
        },
        None => None,
    }
}

// ---------------------------------------------------------------------
// Laws
// ---------------------------------------------------------------------

/// Where skipping spaces and comments stops, no space is left.
proof fn lemma_comments_end_settles(s: Seq<u8>, f: usize, i: int)
    requires
        0 <= i <= s.len(),
    ensures
        i <= comments_end(s, f, i) <= s.len(),
        spec_space_step(s, comments_end(s, f, i)) is None,
    decreases s.len() - i,
{
    lemma_space_step(s, i);
    if let Some(j) = spec_comments_step(s, f, i) {
        if i < j <= s.len() {
            lemma_comments_end_settles(s, f, j);
        }
    }
}

/// A descendant space is all the space there is: no space follows it.
proof fn lemma_descendant_part(s: Seq<u8>, f: usize, i: int)
    requires
        0 <= i <= s.len(),
    ensures
        spec_selector_part(s, f, i) matches Some((j, p)) ==> (p is Descendant ==> spec_space_step(
            s,
            j,
        ) is None),
        spec_space_step(s, i) is None ==> (spec_selector_part(s, f, i) matches Some((_, p)) ==> !(
        p is Descendant)),
{
    lemma_spacelike_end(s, i);
    lemma_comments_end_settles(s, f, spacelike_end(s, i));
}

/// No two descendant spaces stand next to each other.
pub open spec fn no_double_descendant(ps: Seq<PartV>) -> bool {
    forall|k: int| 0 <= k < ps.len() - 1 && #[trigger] ps[k] is Descendant ==> !(ps[k + 1] is Descendant)
}

proof fn lemma_tail_descendants(s: Seq<u8>, f: usize, i: int, acc: Seq<PartV>)
    requires
        0 <= i <= s.len(),
        acc.len() > 0,
        no_double_descendant(acc),
        acc.last() is Descendant ==> spec_space_step(s, i) is None,
    ensures
        no_double_descendant(spec_selector_tail(s, f, i, acc).1),
        spec_selector_tail(s, f, i, acc).1.len() > 0,
    decreases s.len() - i,
{
    lemma_descendant_part(s, f, i);
    if let Some((j, p)) = spec_selector_part(s, f, i) {
        if i < j <= s.len() {
            let a2 = acc.push(p);
            assert forall|k: int| 0 <= k < a2.len() - 1 && #[trigger] a2[k] is Descendant implies !(
            a2[k + 1] is Descendant) by {
                if k < acc.len() - 1 {
                    assert(acc[k] is Descendant);
                }
            }
            lemma_descendant_part(s, f, j);
            lemma_tail_descendants(s, f, j, a2);
        }
    }
}

/// A selector never ends with a descendant space, and no two
/// descendant spaces stand next to each other in it.
pub proof fn law_selector_descendants(s: Seq<u8>, f: usize, i: int)
    requires
        0 <= i <= s.len(),
    ensures
        spec_selector(s, f, i) matches Some((_, ps)) ==> {
            &&& no_double_descendant(ps)
            &&& ps.len() > 0 ==> !(ps.last() is Descendant)
        },
{
    lemma_descendant_part(s, f, i);
    if let Some((j, p)) = spec_selector_part(s, f, i) {
        if i < j <= s.len() {
            lemma_descendant_part(s, f, j);
            lemma_tail_descendants(s, f, j, seq![p]);
            let ps = spec_selector_tail(s, f, j, seq![p]).1;
            if ps.last() is Descendant {
                let q = ps.drop_last();
                assert forall|k: int| 0 <= k < q.len() - 1 && #[trigger] q[k] is Descendant implies !(
                q[k + 1] is Descendant) by {
                    assert(ps[k] is Descendant);
                }
                if q.len() > 0 {
                    assert(ps[ps.len() - 2] == q.last());
                    if q.last() is Descendant {
                        assert(ps[ps.len() - 2] is Descendant);
                    }
                }
            }
        }
    }
}

proof fn lemma_sel_run(s: Seq<u8>, a: int, b: int)
    requires
        0 <= a <= b <= s.len(),
        forall|k: int| a <= k < b ==> is_sel_char(#[trigger] s[k]),
        b == s.len() || !is_sel_char(s[b]),
    ensures
        sel_char_end(s, a) == b,
    decreases b - a,
{
    if a < b {
        lemma_sel_run(s, a + 1, b);
    }
}

proof fn lemma_no_space_at(s: Seq<u8>, x: int)
    requires
        0 <= x < s.len(),
        !is_space(s[x]),
        s[x] != 47u8,
    ensures
        spacelike_end(s, x) == x,
{
    assert(space_end(s, x) == x);
    assert(spec_space_step(s, x) is None);
}

/// An operator of an attribute selector: `=`, `*=`, `|=`, `$=`, `~=` or
/// `^=`.
pub open spec fn is_attr_op(op: Seq<u8>) -> bool {
    ||| op == seq![61u8]
    ||| op == seq![42u8, 61u8]
    ||| op == seq![124u8, 61u8]
    ||| op == seq![36u8, 61u8]
    ||| op == seq![126u8, 61u8]
    ||| op == seq![94u8, 61u8]
}

/// An attribute selector `[name op value]`, with a name and an unquoted
/// value of selector bytes and any of the operators, is one part: the
/// attribute with that name, operator and value, ending after the `]`.
pub proof fn law_attribute_selector(
    s: Seq<u8>,
    f: usize,
    pre: Seq<u8>,
    name: Seq<u8>,
    op: Seq<u8>,
    value: Seq<u8>,
    post: Seq<u8>,
)
    requires
        s == pre + seq![91u8] + name + op + value + seq![93u8] + post,
        name.len() > 0,
        value.len() > 0,
        forall|k: int| 0 <= k < name.len() ==> is_sel_char(#[trigger] name[k]),
        forall|k: int| 0 <= k < value.len() ==> is_sel_char(#[trigger] value[k]),
        is_attr_op(op),
    ensures
        spec_selector_part(s, f, pre.len() as int) == Some(
            (
                (pre.len() + name.len() + op.len() + value.len() + 2) as int,
                PartV::Attribute(name, op, value, Quotes::NoQuotes, None),
            ),
        ),
{
    let i = pre.len() as int;
    let a = i + 1;
    let n = a + name.len();
    let d = n + op.len();
    let e = d + value.len();
    assert(s[i] == 91u8);
    assert(s.subrange(a, n) =~= name);
    assert(s.subrange(n, d) =~= op);
    assert(s.subrange(d, e) =~= value);
    assert(s[e] == 93u8);
    assert forall|k: int| a <= k < n implies is_sel_char(#[trigger] s[k]) by {
        assert(s[k] == name[k - a]);
    }
    assert forall|k: int| d <= k < e implies is_sel_char(#[trigger] s[k]) by {
        assert(s[k] == value[k - d]);
    }
    assert(s[n] == op[0]);
    assert(s[d - 1] == 61u8);
    if op.len() == 2 {
        assert(s[n + 1] == op[1]);
    }
    assert(s[a] == name[0]);
    assert(s[d] == value[0]);
    lemma_sel_run(s, a, n);
    lemma_sel_run(s, d, e);
    lemma_no_space_at(s, a);
    lemma_no_space_at(s, n);
    lemma_no_space_at(s, d);
    lemma_no_space_at(s, e);
    assert(attr_op_len(s, n) == op.len());
    assert(spec_css_string(s, a) == Some((n, name)));
    assert(spec_css_string_any(s, d) == Some((e, (value, Quotes::NoQuotes))));
    assert(spec_attr_full(s, a) == Some((e, PartV::Attribute(name, op, value, Quotes::NoQuotes, None))));
}

proof fn lemma_byte_run(s: Seq<u8>, a: int, b: int, q: u8)
    requires
        0 <= a <= b < s.len(),
        forall|k: int| a <= k < b ==> #[trigger] s[k] != q,
        s[b] == q,
    ensures
        byte_end(s, a, q) == b,
    decreases b - a,
{
    if a < b {
        lemma_byte_run(s, a + 1, b, q);
    }
}

/// An attribute selector `[name op "value"]` or `[name op 'value']`, with
/// a name of selector bytes, any of the operators and a value without
/// its quote, is one part: the attribute with that name, operator, value
/// and quotes, ending after the `]`.
#[verifier::rlimit(60)]
pub proof fn law_attribute_selector_quoted(
    s: Seq<u8>,
    f: usize,
    pre: Seq<u8>,
    name: Seq<u8>,
    op: Seq<u8>,
    q: u8,
    value: Seq<u8>,
    post: Seq<u8>,
)
    requires
        s == pre + seq![91u8] + name + op + seq![q] + value + seq![q, 93u8] + post,
        q == 34u8 || q == 39u8,
        name.len() > 0,
        forall|k: int| 0 <= k < name.len() ==> is_sel_char(#[trigger] name[k]),
        forall|k: int| 0 <= k < value.len() ==> #[trigger] value[k] != q,
        is_attr_op(op),
    ensures
        spec_selector_part(s, f, pre.len() as int) == Some(
            (
                (pre.len() + name.len() + op.len() + value.len() + 4) as int,
                PartV::Attribute(
                    name,
                    op,
                    value,
                    if q == 34u8 {
                        Quotes::Double
                    } else {
                        Quotes::Single
                    },
                    None,
                ),
            ),
        ),
{
    let i = pre.len() as int;
    let a = i + 1;
    let n = a + name.len();
    let d = n + op.len();
    let v = d + 1;
    let e = v + value.len();
    assert(s[i] == 91u8);
    assert(s.subrange(a, n) =~= name);
    assert(s.subrange(n, d) =~= op);
    assert(s.subrange(v, e) =~= value);
    assert(s[d] == q);
    assert(s[e] == q);
    assert(s[e + 1] == 93u8);
    assert forall|k: int| a <= k < n implies is_sel_char(#[trigger] s[k]) by {
        assert(s[k] == name[k - a]);
    }
    assert forall|k: int| v <= k < e implies #[trigger] s[k] != q by {
        assert(s[k] == value[k - v]);
    }
    assert(s[n] == op[0]);
    assert(s[d - 1] == 61u8);
    if op.len() == 2 {
        assert(s[n + 1] == op[1]);
    }
    assert(s[a] == name[0]);
    lemma_sel_run(s, a, n);
    lemma_byte_run(s, v, e, q);
    lemma_no_space_at(s, a);
    lemma_no_space_at(s, n);
    lemma_no_space_at(s, d);
    lemma_no_space_at(s, e + 1);
    assert(attr_op_len(s, n) == op.len());
    assert(spec_css_string(s, a) == Some((n, name)));
    let qs = if q == 34u8 {
        Quotes::Double
    } else {
        Quotes::Single
    };
    assert(s.subrange(d + 1, e) =~= value);
    assert(spec_css_string_any(s, d) == Some((e + 1, (value, qs))));
    assert(!is_alpha(s[e + 1]));
    assert(spec_attr_full(s, a) == Some((e + 1, PartV::Attribute(name, op, value, qs, None))));
}

} // verus!
