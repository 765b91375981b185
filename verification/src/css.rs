//! Evaluated css selectors, and how they are written.
use crate::sass::Quotes;
use crate::value::push_bytes;
use vstd::prelude::*;
use vstd::slice::slice_to_vec;

verus! {

/// A css string: its text (without quotes) and its quotes.
#[derive(Debug)]
pub struct CssString {
    pub value: Vec<u8>,
    pub quotes: Quotes,
}

/// A part of a css selector.
#[derive(Debug)]
pub enum SelectorPart {
    /// A name, class, id, placeholder or `*`.
    Simple(Vec<u8>),
    /// The space between two compound selectors.
    Descendant,
    /// A combinator: `>`, `+`, `~` or `\`.
    RelOp(u8),
    /// An attribute selector: `[name op val modifier]`.
    Attribute { name: Vec<u8>, op: Vec<u8>, val: CssString, modifier: Option<u8> },
    /// `::name(arg)`.
    PseudoElement { name: Vec<u8>, arg: Option<Selectors> },
    /// `:name(arg)`.
    Pseudo { name: Vec<u8>, arg: Option<Selectors> },
    /// `&`, the selector of the enclosing rule.
    BackRef,
}

/// A selector: a sequence of parts.
#[derive(Debug)]
pub struct Selector(pub Vec<SelectorPart>);

/// A list of selectors, as written separated by commas.
#[derive(Debug)]
pub struct Selectors(pub Vec<Selector>);

/// The view of a selector part.
pub enum PartV {
    Simple(Seq<u8>),
    Descendant,
    RelOp(u8),
    Attribute(Seq<u8>, Seq<u8>, Seq<u8>, Quotes, Option<u8>),
    PseudoElement(Seq<u8>, Option<Seq<Seq<PartV>>>),
    Pseudo(Seq<u8>, Option<Seq<Seq<PartV>>>),
    BackRef,
}

impl SelectorPart {
    pub open spec fn view(&self) -> PartV
        decreases self,
    {
        match self {
            SelectorPart::Simple(s) => PartV::Simple(s@),
            SelectorPart::Descendant => PartV::Descendant,
            SelectorPart::RelOp(c) => PartV::RelOp(*c),
            SelectorPart::Attribute { name, op, val, modifier } => PartV::Attribute(
                name@,
                op@,
                val.value@,
                val.quotes,
                *modifier,
            ),
            SelectorPart::PseudoElement { name, arg } => PartV::PseudoElement(
                name@,
                match arg {
                    Some(a) => Some(a.view()),
                    None => None,
                },
            ),
            SelectorPart::Pseudo { name, arg } => PartV::Pseudo(
                name@,
                match arg {
                    Some(a) => Some(a.view()),
                    None => None,
                },
            ),
            SelectorPart::BackRef => PartV::BackRef,
        }
    }
}

impl Selector {
    pub open spec fn view(&self) -> Seq<PartV>
        decreases self,
    {
        Seq::new(
            self.0.len() as nat,
            |i: int|
                if 0 <= i < self.0.len() {
                    self.0@[i].view()
                } else {
                    PartV::Descendant
                },
        )
    }
}

impl Selectors {
    pub open spec fn view(&self) -> Seq<Seq<PartV>>
        decreases self,
    {
        Seq::new(
            self.0.len() as nat,
            |i: int|
                if 0 <= i < self.0.len() {
                    self.0@[i].view()
                } else {
                    seq![]
                },
        )
    }
}

/// The views of a sequence of selector parts.
pub open spec fn sel_parts_view(ps: Seq<SelectorPart>) -> Seq<PartV> {
    Seq::new(ps.len(), |i: int| ps[i].view())
}

/// The views of a sequence of selectors.
pub open spec fn sels_view(ss: Seq<Selector>) -> Seq<Seq<PartV>> {
    Seq::new(ss.len(), |i: int| ss[i].view())
}

pub proof fn lemma_selector_view(s: &Selector)
    ensures
        s.view() == sel_parts_view(s.0@),
{
    assert(s.view() =~= sel_parts_view(s.0@));
}

pub proof fn lemma_selectors_view(s: &Selectors)
    ensures
        s.view() == sels_view(s.0@),
{
    assert(s.view() =~= sels_view(s.0@));
}

// ---------------------------------------------------------------------
// Writing selectors
// ---------------------------------------------------------------------

/// A css string as written: its text between its quotes.
pub open spec fn fmt_css_string(v: Seq<u8>, q: Quotes) -> Seq<u8> {
    match q {
        Quotes::Double => seq![34u8] + v + seq![34u8],
        Quotes::Single => seq![39u8] + v + seq![39u8],
        Quotes::NoQuotes => v,
    }
}

/// A selector part as written.
pub open spec fn fmt_part(p: PartV) -> Seq<u8>
    decreases p, 0nat,
{
    match p {
        PartV::Simple(s) => s,
        PartV::Descendant => seq![32u8],
        PartV::RelOp(c) => seq![32u8, c, 32u8],
        PartV::Attribute(n, op, v, q, m) => seq![91u8] + n + op + fmt_css_string(v, q) + match m {
            Some(c) => seq![32u8, c],
            None => seq![],
        } + seq![93u8],
        PartV::PseudoElement(n, arg) => seq![58u8, 58u8] + n + match arg {
            Some(a) => seq![40u8] + fmt_sels(a, a.len() as int) + seq![41u8],
            None => seq![],
        },
        PartV::Pseudo(n, arg) => seq![58u8] + n + match arg {
            Some(a) => seq![40u8] + fmt_sels(a, a.len() as int) + seq![41u8],
            None => seq![],
        },
        PartV::BackRef => seq![38u8],
    }
}

/// The first `n` parts of a selector, written one after the other.
pub open spec fn fmt_sel(ps: Seq<PartV>, n: int) -> Seq<u8>
    decreases ps, n,
{
    if n <= 0 || n > ps.len() {
        seq![]
    } else {
        fmt_sel(ps, n - 1) + fmt_part(ps[n - 1])
    }
}

/// The first `n` selectors, written and joined by `, `.
pub open spec fn fmt_sels(ss: Seq<Seq<PartV>>, n: int) -> Seq<u8>
    decreases ss, n,
{
    if n <= 0 || n > ss.len() {
        seq![]
    } else if n == 1 {
        fmt_sel(ss[0], ss[0].len() as int)
    } else {
        fmt_sels(ss, n - 1) + seq![44u8, 32u8] + fmt_sel(ss[n - 1], ss[n - 1].len() as int)
    }
}

/// A selector as written.
pub open spec fn selector_text(ps: Seq<PartV>) -> Seq<u8> {
    fmt_sel(ps, ps.len() as int)
}

fn write_css_string(s: &CssString, out: &mut Vec<u8>)
    ensures
        final(out)@ == old(out)@ + fmt_css_string(s.value@, s.quotes),
{
    match s.quotes {
        Quotes::Double => {
            out.push(34u8);
            push_bytes(out, s.value.as_slice());
            out.push(34u8);
        },
        Quotes::Single => {
            out.push(39u8);
            push_bytes(out, s.value.as_slice());
            out.push(39u8);
        },
        Quotes::NoQuotes => {
            push_bytes(out, s.value.as_slice());
        },
    }
    proof {
        assert(final(out)@ =~= old(out)@ + fmt_css_string(s.value@, s.quotes));
    }
}

/// Writes a selector part.
pub fn write_part(p: &SelectorPart, out: &mut Vec<u8>)
    ensures
        final(out)@ == old(out)@ + fmt_part(p.view()),
    decreases p,
{
    let ghost o0 = out@;
    match p {
        SelectorPart::Simple(s) => {
            push_bytes(out, s.as_slice());
        },
        SelectorPart::Descendant => {
            out.push(32u8);
        },
        SelectorPart::RelOp(c) => {
            out.push(32u8);
            out.push(*c);
            out.push(32u8);
        },
        SelectorPart::Attribute { name, op, val, modifier } => {
            out.push(91u8);
            push_bytes(out, name.as_slice());
            push_bytes(out, op.as_slice());
            write_css_string(val, out);
            match modifier {
                Some(c) => {
                    out.push(32u8);
                    out.push(*c);
                },
                None => {},
            }
            out.push(93u8);
        },
        SelectorPart::PseudoElement { name, arg } => {
            out.push(58u8);
            out.push(58u8);
            push_bytes(out, name.as_slice());
            match arg {
                Some(a) => {
                    out.push(40u8);
                    write_selectors(a, out);
                    out.push(41u8);
                },
                None => {},
            }
        },
        SelectorPart::Pseudo { name, arg } => {
            out.push(58u8);
            push_bytes(out, name.as_slice());
            match arg {
                Some(a) => {
                    out.push(40u8);
                    write_selectors(a, out);
                    out.push(41u8);
                },
                None => {},
            }
        },
        SelectorPart::BackRef => {
            out.push(38u8);
        },
    }
    proof {
        assert(out@ =~= o0 + fmt_part(p.view()));
    }
}

/// Writes a selector.
pub fn write_selector(s: &Selector, out: &mut Vec<u8>)
    ensures
        final(out)@ == old(out)@ + selector_text(s.view()),
    decreases s,
{
    let ghost o0 = out@;
    let ghost sv = s.view();
    proof {
        lemma_selector_view(s);
    }
    let mut i: usize = 0;
    while i < s.0.len()
        invariant
            i <= s.0.len(),
            sv == s.view(),
            sv == sel_parts_view(s.0@),
            out@ == o0 + fmt_sel(sv, i as int),
        decreases s.0.len() - i,
    {
        proof {
            vstd::std_specs::vec::axiom_vec_index_decreases(s.0, i as int);
        }
        write_part(&s.0[i], out);
        i += 1;
        proof {
            assert(out@ =~= o0 + fmt_sel(sv, i as int));
        }
    }
}

/// Writes selectors, joined by `, `.
pub fn write_selectors(s: &Selectors, out: &mut Vec<u8>)
    ensures
        final(out)@ == old(out)@ + fmt_sels(s.view(), s.view().len() as int),
    decreases s,
{
    let ghost o0 = out@;
    let ghost sv = s.view();
    proof {
        lemma_selectors_view(s);
    }
    let mut i: usize = 0;
    while i < s.0.len()
        invariant
            i <= s.0.len(),
            sv == s.view(),
            sv == sels_view(s.0@),
            out@ == o0 + fmt_sels(sv, i as int),
        decreases s.0.len() - i,
    {
        proof {
            vstd::std_specs::vec::axiom_vec_index_decreases(s.0, i as int);
        }
        if i > 0 {
            out.push(44u8);
            out.push(32u8);
        }
        write_selector(&s.0[i], out);
        i += 1;
        proof {
            assert(out@ =~= o0 + fmt_sels(sv, i as int));
        }
    }
}

// ---------------------------------------------------------------------
// Nesting
// ---------------------------------------------------------------------

/// Whether a selector refers to the enclosing rule with `&`.
pub open spec fn has_backref(ps: Seq<PartV>) -> bool {
    exists|i: int| 0 <= i < ps.len() && ps[i] is BackRef
}

/// The first `n` parts of a selector written with each `&` replaced by
/// the text `p`.
pub open spec fn fmt_sel_with(ps: Seq<PartV>, p: Seq<u8>, n: int) -> Seq<u8>
    decreases n,
{
    if n <= 0 || n > ps.len() {
        seq![]
    } else {
        fmt_sel_with(ps, p, n - 1) + if ps[n - 1] is BackRef {
            p
        } else {
            fmt_part(ps[n - 1])
        }
    }
}

/// A selector inside an enclosing selector with text `p`: where it
/// refers to `p` with `&`, `p` takes that place; else it is a descendant
/// of `p`.
pub open spec fn nested_sel(c: Seq<PartV>, p: Seq<u8>) -> Seq<u8> {
    if has_backref(c) {
        fmt_sel_with(c, p, c.len() as int)
    } else {
        p + seq![32u8] + selector_text(c)
    }
}

/// Each of the selectors `cs` inside each of the first `n` enclosing
/// selectors `ps`, in that order.
pub open spec fn cross(ps: Seq<Seq<u8>>, cs: Seq<Seq<PartV>>, n: int) -> Seq<Seq<u8>>
    decreases n,
{
    if n <= 0 || n > ps.len() {
        seq![]
    } else {
        cross(ps, cs, n - 1) + Seq::new(cs.len(), |i: int| nested_sel(cs[i], ps[n - 1]))
    }
}

/// The selectors of a rule with selectors `cs` inside a rule whose
/// selectors are written `ps`; at the top level (no `ps`), the selectors
/// as written.
pub open spec fn inside(ps: Seq<Seq<u8>>, cs: Seq<Seq<PartV>>) -> Seq<Seq<u8>> {
    if ps.len() == 0 {
        Seq::new(cs.len(), |i: int| selector_text(cs[i]))
    } else {
        cross(ps, cs, ps.len() as int)
    }
}

/// The views of byte vectors.
pub open spec fn texts_view(v: Seq<Vec<u8>>) -> Seq<Seq<u8>> {
    Seq::new(v.len(), |i: int| v[i]@)
}

fn has_backref_exec(s: &Selector) -> (r: bool)
    ensures
        r == has_backref(s.view()),
{
    proof {
        lemma_selector_view(s);
    }
    let ghost sv = s.view();
    let mut i: usize = 0;
    while i < s.0.len()
        invariant
            i <= s.0.len(),
            sv == s.view(),
            sv == sel_parts_view(s.0@),
            forall|j: int| 0 <= j < i ==> !(sv[j] is BackRef),
        decreases s.0.len() - i,
    {
        match &s.0[i] {
            SelectorPart::BackRef => {
                assert(sv[i as int] is BackRef);
                assert(has_backref(sv));
                return true;
            },
            _ => {},
        }
        i += 1;
    }
    assert(!has_backref(sv));
    false
}

fn write_selector_with(s: &Selector, p: &[u8], out: &mut Vec<u8>)
    ensures
        final(out)@ == old(out)@ + fmt_sel_with(s.view(), p@, s.view().len() as int),
{
    proof {
        lemma_selector_view(s);
    }
    let ghost o0 = out@;
    let ghost sv = s.view();
    let mut i: usize = 0;
    while i < s.0.len()
        invariant
            i <= s.0.len(),
            sv == sel_parts_view(s.0@),
            out@ == o0 + fmt_sel_with(sv, p@, i as int),
        decreases s.0.len() - i,
    {
        match &s.0[i] {
            SelectorPart::BackRef => {
                push_bytes(out, p);
            },
            part => {
                write_part(part, out);
            },
        }
        i += 1;
        proof {
            assert(out@ =~= o0 + fmt_sel_with(sv, p@, i as int));
        }
    }
}

/// The text of a selector inside an enclosing selector with text `p`.
pub fn nested_selector(c: &Selector, p: &[u8]) -> (r: Vec<u8>)
    ensures
        r@ == nested_sel(c.view(), p@),
{
    let mut r: Vec<u8> = Vec::new();
    if has_backref_exec(c) {
        write_selector_with(c, p, &mut r);
    } else {
        push_bytes(&mut r, p);
        r.push(32u8);
        write_selector(c, &mut r);
    }
    proof {
        assert(r@ =~= nested_sel(c.view(), p@));
    }
    r
}

/// The selectors of a rule with selectors `cs` inside a rule whose
/// selectors are written `ps`.
pub fn inside_exec(ps: &Vec<Vec<u8>>, cs: &Selectors) -> (r: Vec<Vec<u8>>)
    ensures
        texts_view(r@) == inside(texts_view(ps@), cs.view()),
{
    proof {
        lemma_selectors_view(cs);
    }
    let ghost pv = texts_view(ps@);
    let ghost cv = cs.view();
    let mut r: Vec<Vec<u8>> = Vec::new();
    if ps.len() == 0 {
        let mut i: usize = 0;
        while i < cs.0.len()
            invariant
                i <= cs.0.len(),
                cv == sels_view(cs.0@),
                texts_view(r@) == Seq::new(i as nat, |k: int| selector_text(cv[k])),
            decreases cs.0.len() - i,
        {
            let mut t: Vec<u8> = Vec::new();
            write_selector(&cs.0[i], &mut t);
            let ghost r0 = r@;
            let ghost tv = t@;
            r.push(t);
            i += 1;
            proof {
                assert(texts_view(r@) =~= texts_view(r0).push(tv));
                assert(texts_view(r@) =~= Seq::new(i as nat, |k: int| selector_text(cv[k])));
            }
        }
        proof {
            assert(texts_view(r@) =~= inside(pv, cv));
        }
        return r;
    }
    let mut n: usize = 0;
    proof {
        assert(texts_view(r@) =~= cross(pv, cv, 0));
    }
    while n < ps.len()
        invariant
            n <= ps.len(),
            pv == texts_view(ps@),
            cv == sels_view(cs.0@),
            texts_view(r@) == cross(pv, cv, n as int),
        decreases ps.len() - n,
    {
        let ghost before = texts_view(r@);
        let mut i: usize = 0;
        while i < cs.0.len()
            invariant
                i <= cs.0.len(),
                n < ps.len(),
                pv == texts_view(ps@),
                cv == sels_view(cs.0@),
                texts_view(r@) == before + Seq::new(
                    i as nat,
                    |k: int| nested_sel(cv[k], pv[n as int]),
                ),
            decreases cs.0.len() - i,
        {
            let t = nested_selector(&cs.0[i], ps[n].as_slice());
            let ghost r0 = r@;
            let ghost tv = t@;
            r.push(t);
            i += 1;
            proof {
                assert(texts_view(r@) =~= texts_view(r0).push(tv));
                assert(texts_view(r@) =~= before + Seq::new(
                    i as nat,
                    |k: int| nested_sel(cv[k], pv[n as int]),
                ));
            }
        }
        n += 1;
        proof {
            assert(texts_view(r@) =~= cross(pv, cv, n as int));
        }
    }
    r
}

/// Selectors written, each with its `&` replaced by `p`.
pub open spec fn with_backref(cs: Seq<Seq<PartV>>, p: Seq<u8>) -> Seq<Seq<u8>> {
    Seq::new(
        cs.len(),
        |i: int|
            if has_backref(cs[i]) {
                fmt_sel_with(cs[i], p, cs[i].len() as int)
            } else {
                selector_text(cs[i])
            },
    )
}

/// Selectors written, each with its `&` replaced by `p`.
pub fn with_backref_exec(cs: &Selectors, p: &[u8]) -> (r: Vec<Vec<u8>>)
    ensures
        texts_view(r@) == with_backref(cs.view(), p@),
{
    proof {
        lemma_selectors_view(cs);
    }
    let ghost cv = cs.view();
    let mut r: Vec<Vec<u8>> = Vec::new();
    let mut i: usize = 0;
    while i < cs.0.len()
        invariant
            i <= cs.0.len(),
            cv == sels_view(cs.0@),
            texts_view(r@) == with_backref(cv, p@).take(i as int),
        decreases cs.0.len() - i,
    {
        let mut t: Vec<u8> = Vec::new();
        if has_backref_exec(&cs.0[i]) {
            write_selector_with(&cs.0[i], p, &mut t);
        } else {
            write_selector(&cs.0[i], &mut t);
        }
        let ghost r0 = r@;
        let ghost tv = t@;
        r.push(t);
        i += 1;
        proof {
            assert(texts_view(r@) =~= texts_view(r0).push(tv));
            assert(texts_view(r@) =~= with_backref(cv, p@).take(i as int));
        }
    }
    proof {
        assert(with_backref(cv, p@).take(i as int) =~= with_backref(cv, p@));
    }
    r
}

/// Texts joined by `, `.
pub open spec fn join_texts(ts: Seq<Seq<u8>>, n: int) -> Seq<u8>
    decreases n,
{
    if n <= 0 || n > ts.len() {
        seq![]
    } else if n == 1 {
        ts[0]
    } else {
        join_texts(ts, n - 1) + seq![44u8, 32u8] + ts[n - 1]
    }
}

/// Writes texts joined by `, `.
pub fn join_texts_exec(ts: &Vec<Vec<u8>>, out: &mut Vec<u8>)
    ensures
        final(out)@ == old(out)@ + join_texts(texts_view(ts@), ts.len() as int),
{
    let ghost o0 = out@;
    let ghost tv = texts_view(ts@);
    let mut i: usize = 0;
    while i < ts.len()
        invariant
            i <= ts.len(),
            tv == texts_view(ts@),
            out@ == o0 + join_texts(tv, i as int),
        decreases ts.len() - i,
    {
        if i > 0 {
            out.push(44u8);
            out.push(32u8);
        }
        push_bytes(out, ts[i].as_slice());
        i += 1;
        proof {
            assert(out@ =~= o0 + join_texts(tv, i as int));
        }
    }
}

/// A copy of texts.
pub fn clone_texts(ts: &Vec<Vec<u8>>) -> (r: Vec<Vec<u8>>)
    ensures
        texts_view(r@) == texts_view(ts@),
{
    let mut r: Vec<Vec<u8>> = Vec::new();
    let mut i: usize = 0;
    while i < ts.len()
        invariant
            i <= ts.len(),
            texts_view(r@) == texts_view(ts@).take(i as int),
        decreases ts.len() - i,
    {
        let ghost r0 = r@;
        let t = slice_to_vec(ts[i].as_slice());
        r.push(t);
        i += 1;
        proof {
            assert(texts_view(r@) =~= texts_view(r0).push(ts@[i - 1]@));
            assert(texts_view(r@) =~= texts_view(ts@).take(i as int));
        }
    }
    proof {
        assert(texts_view(ts@).take(i as int) =~= texts_view(ts@));
    }
    r
}

// ---------------------------------------------------------------------
// Laws
// ---------------------------------------------------------------------

/// `&` alone, inside an enclosing selector, is that selector.
pub proof fn law_backref_is_parent(p: Seq<u8>)
    ensures
        nested_sel(seq![PartV::BackRef], p) == p,
{
    let c = seq![PartV::BackRef];
    assert(c[0] is BackRef);
    assert(has_backref(c));
    assert(fmt_sel_with(c, p, 0) == Seq::<u8>::empty());
    assert(fmt_sel_with(c, p, 1) =~= p);
}

proof fn lemma_cross(ps: Seq<Seq<u8>>, cs: Seq<Seq<PartV>>, n: int)
    requires
        0 <= n <= ps.len(),
    ensures
        cross(ps, cs, n).len() == n * cs.len(),
        forall|k: int, i: int|
            0 <= k < n && 0 <= i < cs.len() ==> #[trigger] cross(ps, cs, n)[k * cs.len() + i]
                == nested_sel(cs[i], ps[k]),
    decreases n,
{
    let c = cs.len() as int;
    if n > 0 {
        lemma_cross(ps, cs, n - 1);
        let a = cross(ps, cs, n - 1);
        let b = Seq::new(cs.len(), |i: int| nested_sel(cs[i], ps[n - 1]));
        assert(cross(ps, cs, n) == a + b);
        assert((n - 1) * c + c == n * c) by (nonlinear_arith);
        assert forall|k: int, i: int| 0 <= k < n && 0 <= i < c implies #[trigger] cross(
            ps,
            cs,
            n,
        )[k * c + i] == nested_sel(cs[i], ps[k]) by {
            if k < n - 1 {
                assert(k * c + i < (n - 1) * c) by (nonlinear_arith)
                    requires
                        0 <= k < n - 1,
                        0 <= i < c,
                ;
                assert(0 <= k * c) by (nonlinear_arith)
                    requires
                        0 <= k,
                        0 <= c,
                ;
                assert(a[k * c + i] == nested_sel(cs[i], ps[k]));
            } else {
                assert(k * c == (n - 1) * c);
                assert(b[i] == nested_sel(cs[i], ps[k]));
            }
        }
    }
}

/// Inside enclosing selectors, a rule has one selector for each pair of
/// an enclosing selector and one of its own, the enclosing ones taken in
/// their order and its own in theirs for each.
pub proof fn law_inside_order(ps: Seq<Seq<u8>>, cs: Seq<Seq<PartV>>)
    requires
        ps.len() > 0,
    ensures
        inside(ps, cs).len() == ps.len() * cs.len(),
        forall|k: int, i: int|
            0 <= k < ps.len() && 0 <= i < cs.len() ==> #[trigger] inside(ps, cs)[k * cs.len() + i]
                == nested_sel(cs[i], ps[k]),
{
    lemma_cross(ps, cs, ps.len() as int);
}

} // verus!
