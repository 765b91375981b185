//! Strings of a stylesheet: quoted or not, and raw text with
//! interpolations, such as selectors and at-rule arguments.
use crate::parser::span::Span;
use crate::parser::util::is_space;
use crate::parser::value::{
    parsed_sstring, quoted_parts, spec_interpolation, spec_quoted_parts, spec_unquoted,
    string_part_interpolation, unquoted, bytes_between,
};
use crate::parser::{at, byte_at, PResult};
use crate::sass::{
    lemma_sstring_view, parts_view, push_part, push_part_exec, Quotes, SassString, SassStringV,
    StringPart, StringPartV,
};
use vstd::prelude::*;

verus! {

/// A quoted string, or an unquoted one.
pub open spec fn spec_any_sass_string(s: Seq<u8>, f: usize, i: int) -> Option<(int, SassStringV)> {
    if at(s, i, 34u8) || at(s, i, 39u8) {
        match spec_quoted_parts(s, f, i + 1, s[i], seq![]) {
            Some((j, ps)) => Some(
                (
                    j,
                    SassStringV {
                        parts: ps,
                        quotes: if s[i] == 34u8 {
                            Quotes::Double
                        } else {
                            Quotes::Single
                        },
                    },
                ),
            ),
            None => None,
        }
    } else {
        spec_unquoted(s, f, i)
    }
}

/// Parses a quoted or an unquoted string.
pub fn any_sass_string(input: &Span, pos: usize) -> (res: PResult<SassString>)
    requires
        pos <= input.data.len(),
    ensures
        parsed_sstring(res, spec_any_sass_string(input.data@, input.file, pos as int)),
        res matches Some((j, _)) ==> pos < j <= input.data.len(),
{
    let s = input.data;
    if byte_at(s, pos, 34u8) || byte_at(s, pos, 39u8) {
        let q = s[pos];
        let e: Vec<StringPart> = Vec::new();
        proof {
            assert(parts_view(e@) =~= Seq::<StringPartV>::empty());
        }
        match quoted_parts(input, pos + 1, q, e) {
            Some((j, ps)) => {
                let r = SassString {
                    parts: ps,
                    quotes: if q == 34u8 {
                        Quotes::Double
                    } else {
                        Quotes::Single
                    },
                };
                proof {
                    lemma_sstring_view(&r);
                }
                Some((j, r))
            },
            None => None,
        }
    } else {
        unquoted(input, pos)
    }
}

// ---------------------------------------------------------------------
// Raw text
// ---------------------------------------------------------------------

/// A byte that ends raw text: `{`, `;` or `}`.
pub open spec fn is_text_stop(b: u8) -> bool {
    b == 123u8 || b == 59u8 || b == 125u8
}

/// The end of a run of raw text bytes: none is `#` or ends the text.
pub open spec fn raw_run_end(s: Seq<u8>, i: int) -> int
    decreases s.len() - i,
{
    if 0 <= i < s.len() && s[i] != 35u8 && !is_text_stop(s[i]) {
        raw_run_end(s, i + 1)
    } else {
        i
    }
}

pub proof fn lemma_raw_run_end(s: Seq<u8>, i: int)
    requires
        0 <= i <= s.len(),
    ensures
        i <= raw_run_end(s, i) <= s.len(),
    decreases s.len() - i,
{
    if i < s.len() && s[i] != 35u8 && !is_text_stop(s[i]) {
        lemma_raw_run_end(s, i + 1);
    }
}

/// The parts of raw text from `i`, after the parts `acc`: runs of bytes
/// and interpolations, up to a byte that ends the text, the end of the
/// input, or a `#{` that does not parse.
pub open spec fn spec_text_parts(s: Seq<u8>, f: usize, i: int, acc: Seq<StringPartV>) -> (
    int,
    Seq<StringPartV>,
)
    decreases s.len() - i,
{
    if !(0 <= i < s.len()) || is_text_stop(s[i]) {
        (i, acc)
    } else if s[i] == 35u8 {
        if at(s, i + 1, 123u8) {
            match spec_interpolation(s, f, i) {
                Some((j, v)) => if i < j <= s.len() {
                    spec_text_parts(s, f, j, push_part(acc, StringPartV::Interpolation(v)))
                } else {
                    (i, acc)
                },
                None => (i, acc),
            }
        } else {
            spec_text_parts(s, f, i + 1, push_part(acc, StringPartV::Raw(seq![35u8])))
        }
    } else {
        let j = raw_run_end(s, i);
        if i < j <= s.len() {
            spec_text_parts(s, f, j, push_part(acc, StringPartV::Raw(s.subrange(i, j))))
        } else {
            (i, acc)
        }
    }
}

/// The length of `b` without its trailing spaces, from the first `n` bytes.
pub open spec fn trim_len(b: Seq<u8>, n: int) -> int
    decreases n,
{
    if n > 0 && n <= b.len() && is_space(b[n - 1]) {
        trim_len(b, n - 1)
    } else {
        n
    }
}

/// Parts without the trailing spaces of a final literal part.
pub open spec fn trim_parts(ps: Seq<StringPartV>) -> Seq<StringPartV> {
    if ps.len() > 0 && ps.last() is Raw {
        let b = ps.last()->Raw_0;
        let n = trim_len(b, b.len() as int);
        if n <= 0 {
            ps.drop_last()
        } else {
            ps.update(ps.len() - 1, StringPartV::Raw(b.take(n)))
        }
    } else {
        ps
    }
}

/// Raw text from `i`, without trailing spaces, as an unquoted string.
pub open spec fn spec_raw_text(s: Seq<u8>, f: usize, i: int) -> (int, SassStringV) {
    let (j, ps) = spec_text_parts(s, f, i, seq![]);
    (j, SassStringV { parts: trim_parts(ps), quotes: Quotes::NoQuotes })
}

fn raw_run(input: &[u8], pos: usize) -> (j: usize)
    requires
        pos <= input.len(),
    ensures
        j == raw_run_end(input@, pos as int),
        pos <= j <= input.len(),
{
    let mut j = pos;
    while j < input.len() && input[j] != 35u8 && input[j] != 123u8 && input[j] != 59u8 && input[j]
        != 125u8
        invariant
            pos <= j <= input.len(),
            raw_run_end(input@, pos as int) == raw_run_end(input@, j as int),
        decreases input.len() - j,
    {
        j = j + 1;
    }
    j
}

fn one_raw(b: u8) -> (r: StringPart)
    ensures
        r.view() == StringPartV::Raw(seq![b]),
{
    let mut v: Vec<u8> = Vec::new();
    v.push(b);
    proof {
        assert(v@ =~= seq![b]);
    }
    StringPart::Raw(v)
}

fn text_parts(input: &Span, pos: usize, acc: Vec<StringPart>) -> (res: (usize, Vec<StringPart>))
    requires
        pos <= input.data.len(),
    ensures
        spec_text_parts(input.data@, input.file, pos as int, parts_view(acc@)) == (
            res.0 as int,
            parts_view(res.1@),
        ),
        pos <= res.0 <= input.data.len(),
    decreases input.data.len() - pos,
{
    let s = input.data;
    let mut acc = acc;
    if pos >= s.len() || s[pos] == 123u8 || s[pos] == 59u8 || s[pos] == 125u8 {
        return (pos, acc);
    }
    if s[pos] == 35u8 {
        if byte_at(s, pos + 1, 123u8) {
            match string_part_interpolation(input, pos) {
                Some((j, v)) => {
                    push_part_exec(&mut acc, StringPart::Interpolation(v));
                    text_parts(input, j, acc)
                },
                None => (pos, acc),
            }
        } else {
            push_part_exec(&mut acc, one_raw(35u8));
            text_parts(input, pos + 1, acc)
        }
    } else {
        let j = raw_run(s, pos);
        proof {
            lemma_raw_run_end(s@, pos + 1);
        }
        push_part_exec(&mut acc, StringPart::Raw(bytes_between(s, pos, j)));
        text_parts(input, j, acc)
    }
}

fn trim_run(b: &[u8]) -> (n: usize)
    ensures
        n == trim_len(b@, b.len() as int),
        n <= b.len(),
{
    let mut n = b.len();
    while n > 0 && (b[n - 1] == 32u8 || b[n - 1] == 9u8 || b[n - 1] == 13u8 || b[n - 1] == 10u8)
        invariant
            n <= b.len(),
            trim_len(b@, b.len() as int) == trim_len(b@, n as int),
        decreases n,
    {
        n = n - 1;
    }
    n
}

fn trim_parts_exec(ps: &mut Vec<StringPart>)
    ensures
        parts_view(final(ps)@) == trim_parts(parts_view(old(ps)@)),
{
    let ghost p0 = parts_view(ps@);
    let k = ps.len();
    if k == 0 {
        return;
    }
    let n = match &ps[k - 1] {
        StringPart::Raw(b) => Some(trim_run(b.as_slice())),
        _ => None,
    };
    match n {
        None => {},
        Some(n) => {
            if n == 0 {
                ps.pop();
                proof {
                    assert(parts_view(ps@) =~= p0.drop_last());
                }
            } else {
                let t = match &ps[k - 1] {
                    StringPart::Raw(b) => bytes_between(b.as_slice(), 0, n),
                    _ => Vec::new(),
                };
                ps.set(k - 1, StringPart::Raw(t));
                proof {
                    assert(parts_view(ps@) =~= trim_parts(p0));
                }
            }
        },
    }
}

/// Parses raw text, without its trailing spaces.
pub fn raw_text(input: &Span, pos: usize) -> (res: (usize, SassString))
    requires
        pos <= input.data.len(),
    ensures
        spec_raw_text(input.data@, input.file, pos as int) == (res.0 as int, res.1.view()),
        pos <= res.0 <= input.data.len(),
{
    let e: Vec<StringPart> = Vec::new();
    proof {
        assert(parts_view(e@) =~= Seq::<StringPartV>::empty());
    }
    let (j, mut ps) = text_parts(input, pos, e);
    trim_parts_exec(&mut ps);
    let r = SassString { parts: ps, quotes: Quotes::NoQuotes };
    proof {
        lemma_sstring_view(&r);
    }
    (j, r)
}

} // verus!
