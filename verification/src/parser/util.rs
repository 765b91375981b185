//! Whitespace, line comments and block comments.
use super::span::Span;
use super::value::{bytes_between, parsed_parts, spec_interpolation, string_part_interpolation};
use super::{at, byte_at, end_of, PResult};
use crate::sass::{
    lemma_sstring_view, parts_view, push_part, push_part_exec, Quotes, SassString, SassStringV,
    StringPart, StringPartV,
};
use vstd::prelude::*;
use vstd::slice::slice_subrange;
use vstd::utf8::valid_utf8;

verus! {

/// Space, tab, carriage return or line feed.
pub open spec fn is_space(b: u8) -> bool {
    b == 32u8 || b == 9u8 || b == 13u8 || b == 10u8
}

/// The end of the run of space bytes that starts at `i`.
pub open spec fn space_end(s: Seq<u8>, i: int) -> int
    decreases s.len() - i,
{
    if 0 <= i < s.len() && is_space(s[i]) {
        space_end(s, i + 1)
    } else {
        i
    }
}

/// The end of the run of bytes other than line feed that starts at `i`.
pub open spec fn line_end(s: Seq<u8>, i: int) -> int
    decreases s.len() - i,
{
    if 0 <= i < s.len() && s[i] != 10u8 {
        line_end(s, i + 1)
    } else {
        i
    }
}

pub proof fn lemma_space_end(s: Seq<u8>, i: int)
    requires
        0 <= i <= s.len(),
    ensures
        i <= space_end(s, i) <= s.len(),
        space_end(s, i) < s.len() ==> !is_space(s[space_end(s, i)]),
    decreases s.len() - i,
{
    if i < s.len() && is_space(s[i]) {
        lemma_space_end(s, i + 1);
    }
}

pub proof fn lemma_line_end(s: Seq<u8>, i: int)
    requires
        0 <= i <= s.len(),
    ensures
        i <= line_end(s, i) <= s.len(),
    decreases s.len() - i,
{
    if i < s.len() && s[i] != 10u8 {
        lemma_line_end(s, i + 1);
    }
}

/// One or more space bytes.
pub open spec fn spec_ignore_space(s: Seq<u8>, i: int) -> Option<int> {
    if space_end(s, i) > i {
        Some(space_end(s, i))
    } else {
        None
    }
}

/// `//` and the rest of the line, without its line feed.
pub open spec fn spec_ignore_lcomment(s: Seq<u8>, i: int) -> Option<int> {
    if at(s, i, 47u8) && at(s, i + 1, 47u8) {
        Some(line_end(s, i + 2))
    } else {
        None
    }
}

/// One step of space-like input: spaces, else a line comment.
pub open spec fn spec_space_step(s: Seq<u8>, i: int) -> Option<int> {
    match spec_ignore_space(s, i) {
        Some(j) => Some(j),
        None => spec_ignore_lcomment(s, i),
    }
}

pub proof fn lemma_space_step(s: Seq<u8>, i: int)
    requires
        0 <= i <= s.len(),
    ensures
        spec_space_step(s, i) matches Some(j) ==> i < j <= s.len(),
{
    lemma_space_end(s, i);
    if i + 2 <= s.len() {
        lemma_line_end(s, i + 2);
    }
}

/// The end of the longest run of space steps from `i`.
pub open spec fn spacelike_end(s: Seq<u8>, i: int) -> int
    decreases s.len() - i,
{
    match spec_space_step(s, i) {
        Some(j) => if i < j <= s.len() {
            spacelike_end(s, j)
        } else {
            i
        },
        None => i,
    }
}

pub proof fn lemma_spacelike_end(s: Seq<u8>, i: int)
    requires
        0 <= i <= s.len(),
    ensures
        i <= spacelike_end(s, i) <= s.len(),
        spec_space_step(s, spacelike_end(s, i)) is None,
    decreases s.len() - i,
{
    lemma_space_step(s, i);
    if let Some(j) = spec_space_step(s, i) {
        lemma_spacelike_end(s, j);
    }
}

/// Zero or more space steps.
pub open spec fn spec_opt_spacelike(s: Seq<u8>, i: int) -> Option<int> {
    Some(spacelike_end(s, i))
}

/// One or more space steps.
pub open spec fn spec_spacelike(s: Seq<u8>, i: int) -> Option<int> {
    if spec_space_step(s, i) is Some {
        Some(spacelike_end(s, i))
    } else {
        None
    }
}

/// Recognizes one or more space bytes.
pub fn ignore_space(input: &[u8], pos: usize) -> (res: PResult<()>)
    requires
        pos <= input.len(),
    ensures
        end_of(res) == spec_ignore_space(input@, pos as int),
{
    let mut j = pos;
    while j < input.len() && (input[j] == 32u8 || input[j] == 9u8 || input[j] == 13u8 || input[j]
        == 10u8)
        invariant
            pos <= j <= input.len(),
            space_end(input@, pos as int) == space_end(input@, j as int),
        decreases input.len() - j,
    {
        j = j + 1;
    }
    if j > pos {
        Some((j, ()))
    } else {
        None
    }
}

/// Recognizes `//` and the rest of the line.
pub fn ignore_lcomment(input: &[u8], pos: usize) -> (res: PResult<()>)
    requires
        pos <= input.len(),
    ensures
        end_of(res) == spec_ignore_lcomment(input@, pos as int),
{
    if byte_at(input, pos, 47u8) && byte_at(input, pos + 1, 47u8) {
        let mut j = pos + 2;
        while j < input.len() && input[j] != 10u8
            invariant
                pos + 2 <= j <= input.len(),
                line_end(input@, pos + 2) == line_end(input@, j as int),
            decreases input.len() - j,
        {
            j = j + 1;
        }
        Some((j, ()))
    } else {
        None
    }
}

fn space_step(input: &[u8], pos: usize) -> (res: PResult<()>)
    requires
        pos <= input.len(),
    ensures
        end_of(res) == spec_space_step(input@, pos as int),
{
    match ignore_space(input, pos) {
        Some(r) => Some(r),
        None => ignore_lcomment(input, pos),
    }
}

/// Skips zero or more space steps.
pub fn opt_spacelike(input: &[u8], pos: usize) -> (res: PResult<()>)
    requires
        pos <= input.len(),
    ensures
        end_of(res) == spec_opt_spacelike(input@, pos as int),
{
    let mut j = pos;
    loop
        invariant
            pos <= j <= input.len(),
            spacelike_end(input@, pos as int) == spacelike_end(input@, j as int),
        decreases input.len() - j,
    {
        proof {
            lemma_space_step(input@, j as int);
        }
        match space_step(input, j) {
            Some((k, _)) => {
                j = k;
            },
            None => {
                return Some((j, ()));
            },
        }
    }
}

/// Skips one or more space steps.
pub fn spacelike(input: &[u8], pos: usize) -> (res: PResult<()>)
    requires
        pos <= input.len(),
    ensures
        end_of(res) == spec_spacelike(input@, pos as int),
{
    match space_step(input, pos) {
        Some(_) => opt_spacelike(input, pos),
        None => None,
    }
}

/// The end of the space-like input at `pos`.
pub fn skip_ws(input: &[u8], pos: usize) -> (j: usize)
    requires
        pos <= input.len(),
    ensures
        j == spacelike_end(input@, pos as int),
        pos <= j <= input.len(),
{
    proof {
        lemma_spacelike_end(input@, pos as int);
    }
    match opt_spacelike(input, pos) {
        Some((j, _)) => j,
        None => pos,
    }
}


// ---------------------------------------------------------------------
// Block comments
// ---------------------------------------------------------------------

/// `std::str::from_utf8`, asked only whether it succeeds. The standard
/// library documents that it succeeds exactly when the bytes are valid
/// UTF-8, which is what vstd's `valid_utf8` defines.
#[verifier::external_body]
fn is_valid_utf8(bytes: &[u8]) -> (r: bool)
    ensures
        r == valid_utf8(bytes@),
{
    std::str::from_utf8(bytes).is_ok()
}

/// A byte that a comment takes as it is, in runs.
pub open spec fn is_comment_byte(b: u8) -> bool {
    b != 42u8 && b != 35u8 && b != 13u8 && b != 10u8 && b != 12u8
}

pub open spec fn comment_run_end(s: Seq<u8>, i: int) -> int
    decreases s.len() - i,
{
    if 0 <= i < s.len() && is_comment_byte(s[i]) {
        comment_run_end(s, i + 1)
    } else {
        i
    }
}

pub proof fn lemma_comment_run_end(s: Seq<u8>, i: int)
    requires
        0 <= i <= s.len(),
    ensures
        i <= comment_run_end(s, i) <= s.len(),
    decreases s.len() - i,
{
    if i < s.len() && is_comment_byte(s[i]) {
        lemma_comment_run_end(s, i + 1);
    }
}

/// Where the parts of a comment end: `*/` ends it, anything else fails.
pub open spec fn comment_close(s: Seq<u8>, i: int, acc: Seq<StringPartV>) -> Option<
    (int, Seq<StringPartV>),
> {
    if at(s, i, 42u8) && at(s, i + 1, 47u8) {
        Some((i + 2, acc))
    } else {
        None
    }
}

/// The parts of a comment after `/*`, with the parts read so far in `acc`:
/// runs of plain bytes that are valid UTF-8; a line break (`\r\n`, `\n`,
/// `\r` or form feed) read as `\n`; a `*` that is not followed by `/`;
/// an interpolation; a `#`. Then `*/`.
pub open spec fn spec_comment_parts(s: Seq<u8>, f: usize, i: int, acc: Seq<StringPartV>) -> Option<
    (int, Seq<StringPartV>),
>
    decreases s.len() - i,
{
    if !(0 <= i <= s.len()) {
        None
    } else {
        let j = comment_run_end(s, i);
        if i < j <= s.len() {
            if valid_utf8(s.subrange(i, j)) {
                spec_comment_parts(s, f, j, push_part(acc, StringPartV::Raw(s.subrange(i, j))))
            } else {
                comment_close(s, i, acc)
            }
        } else if at(s, i, 13u8) && at(s, i + 1, 10u8) {
            spec_comment_parts(s, f, i + 2, push_part(acc, StringPartV::Raw(seq![10u8])))
        } else if at(s, i, 10u8) || at(s, i, 13u8) || at(s, i, 12u8) {
            spec_comment_parts(s, f, i + 1, push_part(acc, StringPartV::Raw(seq![10u8])))
        } else if at(s, i, 42u8) && !at(s, i + 1, 47u8) {
            spec_comment_parts(s, f, i + 1, push_part(acc, StringPartV::Raw(seq![42u8])))
        } else {
            match spec_interpolation(s, f, i) {
                Some((k, v)) => if i < k <= s.len() {
                    spec_comment_parts(s, f, k, push_part(acc, StringPartV::Interpolation(v)))
                } else {
                    None
                },
                None => if at(s, i, 35u8) {
                    spec_comment_parts(s, f, i + 1, push_part(acc, StringPartV::Raw(seq![35u8])))
                } else {
                    comment_close(s, i, acc)
                },
            }
        }
    }
}

/// What follows `/*`: the comment text up to and with `*/`.
pub open spec fn spec_comment2(s: Seq<u8>, f: usize, i: int) -> Option<(int, SassStringV)> {
    match spec_comment_parts(s, f, i, Seq::empty()) {
        Some((j, ps)) => Some((j, SassStringV { parts: ps, quotes: Quotes::NoQuotes })),
        None => None,
    }
}

/// A block comment: `/*` and what `comment2` takes.
pub open spec fn spec_comment(s: Seq<u8>, f: usize, i: int) -> Option<(int, SassStringV)> {
    if at(s, i, 47u8) && at(s, i + 1, 42u8) {
        spec_comment2(s, f, i + 2)
    } else {
        None
    }
}

fn comment_run(input: &[u8], pos: usize) -> (j: usize)
    requires
        pos <= input.len(),
    ensures
        j == comment_run_end(input@, pos as int),
        pos <= j <= input.len(),
{
    let mut j = pos;
    while j < input.len() && input[j] != 42u8 && input[j] != 35u8 && input[j] != 13u8 && input[j]
        != 10u8 && input[j] != 12u8
        invariant
            pos <= j <= input.len(),
            comment_run_end(input@, pos as int) == comment_run_end(input@, j as int),
        decreases input.len() - j,
    {
        j = j + 1;
    }
    j
}

fn one_part(b: u8) -> (r: StringPart)
    ensures
        r.view() == StringPartV::Raw(seq![b]),
{
    let mut v: Vec<u8> = Vec::new();
    v.push(b);
    assert(v@ =~= seq![b]);
    StringPart::Raw(v)
}

fn close(input: &[u8], pos: usize, acc: Vec<StringPart>) -> (res: PResult<Vec<StringPart>>)
    requires
        pos <= input.len(),
    ensures
        parsed_parts(res, comment_close(input@, pos as int, parts_view(acc@))),
        res matches Some((j, _)) ==> pos < j <= input.len(),
{
    if byte_at(input, pos, 42u8) && byte_at(input, pos + 1, 47u8) {
        Some((pos + 2, acc))
    } else {
        None
    }
}

fn comment_parts(input: &Span, pos: usize, acc: Vec<StringPart>) -> (res: PResult<
    Vec<StringPart>,
>)
    requires
        pos <= input.data.len(),
    ensures
        parsed_parts(res, spec_comment_parts(input.data@, input.file, pos as int, parts_view(acc@))),
        res matches Some((j, _)) ==> pos < j <= input.data.len(),
    decreases input.data.len() - pos,
{
    let s = input.data;
    let mut acc = acc;
    let j = comment_run(s, pos);
    if j > pos {
        if is_valid_utf8(slice_subrange(s, pos, j)) {
            push_part_exec(&mut acc, StringPart::Raw(bytes_between(s, pos, j)));
            return comment_parts(input, j, acc);
        } else {
            return close(s, pos, acc);
        }
    }
    if byte_at(s, pos, 13u8) && byte_at(s, pos + 1, 10u8) {
        push_part_exec(&mut acc, one_part(10u8));
        return comment_parts(input, pos + 2, acc);
    }
    if byte_at(s, pos, 10u8) || byte_at(s, pos, 13u8) || byte_at(s, pos, 12u8) {
        push_part_exec(&mut acc, one_part(10u8));
        return comment_parts(input, pos + 1, acc);
    }
    if byte_at(s, pos, 42u8) && !byte_at(s, pos + 1, 47u8) {
        push_part_exec(&mut acc, one_part(42u8));
        return comment_parts(input, pos + 1, acc);
    }
    match string_part_interpolation(input, pos) {
        Some((k, v)) => {
            push_part_exec(&mut acc, StringPart::Interpolation(v));
            comment_parts(input, k, acc)
        },
        None => {
            if byte_at(s, pos, 35u8) {
                push_part_exec(&mut acc, one_part(35u8));
                comment_parts(input, pos + 1, acc)
            } else {
                close(s, pos, acc)
            }
        },
    }
}

pub open spec fn parsed_comment(res: PResult<SassString>, sp: Option<(int, SassStringV)>) -> bool {
    match res {
        Some((j, v)) => sp == Some((j as int, v.view())),
        None => sp is None,
    }
}

/// Parses the rest of a block comment after `/*`.
pub fn comment2(input: &Span, pos: usize) -> (res: PResult<SassString>)
    requires
        pos <= input.data.len(),
    ensures
        parsed_comment(res, spec_comment2(input.data@, input.file, pos as int)),
        res matches Some((j, _)) ==> pos < j <= input.data.len(),
{
    let e: Vec<StringPart> = Vec::new();
    proof {
        assert(parts_view(e@) =~= Seq::<StringPartV>::empty());
    }
    match comment_parts(input, pos, e) {
        Some((j, ps)) => {
            let r = SassString { parts: ps, quotes: Quotes::NoQuotes };
            proof {
                lemma_sstring_view(&r);
            }
            Some((j, r))
        },
        None => None,
    }
}

/// Parses a block comment.
pub fn comment(input: &Span, pos: usize) -> (res: PResult<SassString>)
    requires
        pos <= input.data.len(),
    ensures
        parsed_comment(res, spec_comment(input.data@, input.file, pos as int)),
        res matches Some((j, _)) ==> pos < j <= input.data.len(),
{
    if byte_at(input.data, pos, 47u8) && byte_at(input.data, pos + 1, 42u8) {
        comment2(input, pos + 2)
    } else {
        None
    }
}

// ---------------------------------------------------------------------
// Space and comments together
// ---------------------------------------------------------------------

/// One step of `ignore_comments`: space, a line comment, or a block comment.
pub open spec fn spec_comments_step(s: Seq<u8>, f: usize, i: int) -> Option<int> {
    match spec_space_step(s, i) {
        Some(j) => Some(j),
        None => match spec_comment(s, f, i) {
            Some((j, _)) => Some(j),
            None => None,
        },
    }
}

/// The end of the longest run of `ignore_comments` steps from `i`.
pub open spec fn comments_end(s: Seq<u8>, f: usize, i: int) -> int
    decreases s.len() - i,
{
    match spec_comments_step(s, f, i) {
        Some(j) => if i < j <= s.len() {
            comments_end(s, f, j)
        } else {
            i
        },
        None => i,
    }
}

/// Zero or more spaces, line comments and block comments.
pub open spec fn spec_ignore_comments(s: Seq<u8>, f: usize, i: int) -> Option<int> {
    Some(comments_end(s, f, i))
}

fn comments_step(input: &Span, pos: usize) -> (res: PResult<()>)
    requires
        pos <= input.data.len(),
    ensures
        end_of(res) == spec_comments_step(input.data@, input.file, pos as int),
        res matches Some((j, _)) ==> pos < j <= input.data.len(),
{
    proof {
        lemma_space_step(input.data@, pos as int);
    }
    match space_step(input.data, pos) {
        Some(r) => Some(r),
        None => match comment(input, pos) {
            Some((k, _)) => Some((k, ())),
            None => None,
        },
    }
}

/// Skips zero or more spaces, line comments and block comments.
pub fn ignore_comments(input: &Span, pos: usize) -> (res: PResult<()>)
    requires
        pos <= input.data.len(),
    ensures
        end_of(res) == spec_ignore_comments(input.data@, input.file, pos as int),
        res matches Some((j, _)) ==> pos <= j <= input.data.len(),
{
    let mut j = pos;
    loop
        invariant
            pos <= j <= input.data.len(),
            comments_end(input.data@, input.file, pos as int) == comments_end(
                input.data@,
                input.file,
                j as int,
            ),
        decreases input.data.len() - j,
    {
        match comments_step(input, j) {
            Some((k, _)) => {
                j = k;
            },
            None => {
                return Some((j, ()));
            },
        }
    }
}

/// Space-like input, then any comments.
pub open spec fn spec_spacelike2(s: Seq<u8>, f: usize, i: int) -> Option<int> {
    match spec_spacelike(s, i) {
        Some(j) => Some(comments_end(s, f, j)),
        None => None,
    }
}

/// Skips one or more space steps, then any comments.
pub fn spacelike2(input: &Span, pos: usize) -> (res: PResult<()>)
    requires
        pos <= input.data.len(),
    ensures
        end_of(res) == spec_spacelike2(input.data@, input.file, pos as int),
        res matches Some((j, _)) ==> pos < j <= input.data.len(),
{
    match spacelike(input.data, pos) {
        Some((j, _)) => {
            proof {
                lemma_space_step(input.data@, pos as int);
                lemma_spacelike_end(input.data@, pos as int);
            }
            ignore_comments(input, j)
        },
        None => None,
    }
}

/// Space-like input, then `;`, the end of the input, or a `}` that is
/// left in place.
pub open spec fn spec_semi_or_end(s: Seq<u8>, i: int) -> Option<int> {
    let j = spacelike_end(s, i);
    if at(s, j, 59u8) {
        Some(j + 1)
    } else if j == s.len() {
        Some(j)
    } else if at(s, j, 125u8) {
        Some(j)
    } else {
        None
    }
}

/// Recognizes the end of a statement.
pub fn semi_or_end(input: &[u8], pos: usize) -> (res: PResult<()>)
    requires
        pos <= input.len(),
    ensures
        end_of(res) == spec_semi_or_end(input@, pos as int),
        res matches Some((j, _)) ==> pos <= j <= input.len(),
{
    let j = skip_ws(input, pos);
    if byte_at(input, j, 59u8) {
        Some((j + 1, ()))
    } else if j == input.len() {
        Some((j, ()))
    } else if byte_at(input, j, 125u8) {
        Some((j, ()))
    } else {
        None
    }
}

// ---------------------------------------------------------------------
// Laws
// ---------------------------------------------------------------------

/// Skipping space-like input settles: where `opt_spacelike` stops, it
/// takes nothing more, and `spacelike` finds nothing to take.
pub proof fn law_opt_spacelike_settles(s: Seq<u8>, i: int)
    requires
        0 <= i <= s.len(),
    ensures
        spec_opt_spacelike(s, spacelike_end(s, i)) == Some(spacelike_end(s, i)),
        spec_spacelike(s, spacelike_end(s, i)) is None,
{
    lemma_spacelike_end(s, i);
}

/// A statement ends after its `;`, at the end of the input, or right
/// before a `}`, which is left for the enclosing block to take.
pub proof fn law_statement_end(s: Seq<u8>, i: int)
    requires
        0 <= i <= s.len(),
    ensures
        spec_semi_or_end(s, i) matches Some(j) ==> {
            &&& i <= j <= s.len()
            &&& (at(s, j - 1, 59u8) || j == s.len() || at(s, j, 125u8))
        },
        at(s, spacelike_end(s, i), 125u8) ==> spec_semi_or_end(s, i) == Some(spacelike_end(s, i)),
{
    lemma_spacelike_end(s, i);
}

proof fn lemma_plain_run(s: Seq<u8>, t: Seq<u8>, k: int)
    requires
        s.len() >= t.len() + 4,
        s.subrange(2, t.len() + 2int) == t,
        s[t.len() + 2int] == 42u8,
        forall|m: int| 0 <= m < t.len() ==> is_comment_byte(#[trigger] t[m]),
        2 <= k <= t.len() + 2,
    ensures
        comment_run_end(s, k) == t.len() + 2,
    decreases t.len() + 2 - k,
{
    if k < t.len() + 2 {
        assert(s[k] == t[k - 2]);
        lemma_plain_run(s, t, k + 1);
    }
}

/// A block comment of plain text, valid UTF-8 with no `*`, `#`, line
/// break or form feed, is read as that text, and the comment ends right
/// after its `*/`.
pub proof fn law_plain_comment(s: Seq<u8>, f: usize, t: Seq<u8>, rest: Seq<u8>)
    requires
        s == seq![47u8, 42u8] + t + seq![42u8, 47u8] + rest,
        valid_utf8(t),
        forall|k: int| 0 <= k < t.len() ==> is_comment_byte(#[trigger] t[k]),
    ensures
        spec_comment(s, f, 0) == Some(
            (
                t.len() + 4int,
                SassStringV {
                    parts: if t.len() == 0 {
                        seq![]
                    } else {
                        seq![StringPartV::Raw(t)]
                    },
                    quotes: Quotes::NoQuotes,
                },
            ),
        ),
{
    let n = t.len() as int;
    assert(s.subrange(2, n + 2) =~= t);
    assert(s[n + 2] == 42u8 && s[n + 3] == 47u8);
    assert forall|m: int| 0 <= m < t.len() implies is_comment_byte(#[trigger] t[m]) by {}
    lemma_plain_run(s, t, 2);
    lemma_plain_run(s, t, n + 2);
    let e: Seq<StringPartV> = Seq::empty();
    if n > 0 {
        assert(push_part(e, StringPartV::Raw(t)) =~= seq![StringPartV::Raw(t)]);
        assert(spec_comment_parts(s, f, n + 2, seq![StringPartV::Raw(t)]) == Some(
            (n + 4, seq![StringPartV::Raw(t)]),
        ));
    } else {
        assert(spec_comment_parts(s, f, 2, e) == Some((4int, e)));
    }
}

/// A byte that css takes as white space: space, tab, line feed or
/// carriage return.
pub open spec fn is_white(b: u8) -> bool {
    b == 32u8 || b == 9u8 || b == 10u8 || b == 13u8
}

proof fn lemma_space_end_run(s: Seq<u8>, i: int, j: int)
    requires
        0 <= i <= j <= s.len(),
        forall|k: int| i <= k < j ==> is_white(#[trigger] s[k]),
        j == s.len() || !is_white(s[j]),
    ensures
        space_end(s, i) == j,
    decreases j - i,
{
    if i < j {
        lemma_space_end_run(s, i + 1, j);
    }
}

/// A run of white space is skipped whole: from a byte that is a space,
/// a tab, a line feed or a carriage return, space-like input ends at the
/// first byte after the run, when that byte is not white space and does
/// not start a line comment.
pub proof fn law_white_space_run(s: Seq<u8>, i: int, j: int)
    requires
        0 <= i < j <= s.len(),
        forall|k: int| i <= k < j ==> is_white(#[trigger] s[k]),
        j == s.len() || (!is_white(s[j]) && s[j] != 47u8),
    ensures
        spec_spacelike(s, i) == Some(j),
        spec_opt_spacelike(s, i) == Some(j),
        spec_ignore_space(s, i) == Some(j),
{
    lemma_space_end_run(s, i, j);
    lemma_space_end_run(s, j, j);
    assert(spec_space_step(s, i) == Some(j));
    assert(spec_space_step(s, j) is None);
    assert(spacelike_end(s, j) == j);
}

/// Space-like input starts at any white space byte: there, skipping it
/// succeeds and goes past that byte.
pub proof fn law_white_space_is_space(s: Seq<u8>, i: int)
    requires
        0 <= i < s.len(),
        is_white(s[i]),
    ensures
        spec_spacelike(s, i) matches Some(j) && i < j <= s.len(),
        spec_ignore_space(s, i) matches Some(j) && i < j <= s.len(),
{
    lemma_space_end(s, i + 1);
    assert(space_end(s, i) == space_end(s, i + 1));
    lemma_space_step(s, i);
    lemma_spacelike_end(s, space_end(s, i));
    assert(spacelike_end(s, i) == spacelike_end(s, space_end(s, i)));
}

/// Bytes below 128 are valid UTF-8.
pub proof fn lemma_ascii_valid_utf8(b: Seq<u8>)
    requires
        forall|k: int| 0 <= k < b.len() ==> #[trigger] b[k] < 128u8,
    ensures
        valid_utf8(b),
    decreases b.len(),
{
    if b.len() > 0 {
        let x = b[0];
        assert(x < 128u8);
        assert((x & 0x7Fu8) == x) by (bit_vector)
            requires
                x < 128u8,
        ;
        assert(vstd::utf8::is_leading_byte_width_1(x));
        assert(vstd::utf8::valid_first_scalar(b));
        let r = vstd::utf8::pop_first_scalar(b);
        assert(r =~= b.subrange(1, b.len() as int));
        lemma_ascii_valid_utf8(r);
    }
}

/// No `#` of the text starts an interpolation.
pub open spec fn no_interpolation(t: Seq<u8>) -> bool {
    forall|k: int| 0 <= k < t.len() - 1 && #[trigger] t[k] == 35u8 ==> t[k + 1] != 123u8
}

/// No `*` of the text closes the comment.
pub open spec fn no_close(t: Seq<u8>) -> bool {
    forall|k: int| 0 <= k < t.len() - 1 && #[trigger] t[k] == 42u8 ==> t[k + 1] != 47u8
}

/// A comment text of plain bytes: ascii, with no line break or form
/// feed, no `#{` and no `*/`.
pub open spec fn plain_comment_text(t: Seq<u8>) -> bool {
    &&& forall|k: int| 0 <= k < t.len() ==> #[trigger] t[k] < 128u8
    &&& forall|k: int| 0 <= k < t.len() ==> (is_comment_byte(#[trigger] t[k]) || t[k] == 35u8
        || t[k] == 42u8)
    &&& no_interpolation(t)
    &&& no_close(t)
}

/// The parts read so far of a plain comment text, when its first `m`
/// bytes were read.
pub open spec fn text_parts(t: Seq<u8>, m: int) -> Seq<StringPartV> {
    if m <= 0 {
        seq![]
    } else {
        seq![StringPartV::Raw(t.take(m))]
    }
}

proof fn lemma_run_to_hash(s: Seq<u8>, t: Seq<u8>, k: int, e: int)
    requires
        s.len() >= t.len() + 4,
        s.subrange(2, t.len() + 2int) == t,
        s[t.len() + 2int] == 42u8,
        plain_comment_text(t),
        2 <= k <= e <= t.len() + 2,
        forall|m: int| k <= m < e ==> s[m] != 35u8 && s[m] != 42u8,
        e == t.len() + 2 || s[e] == 35u8 || s[e] == 42u8,
    ensures
        comment_run_end(s, k) == e,
    decreases e - k,
{
    if k < e {
        assert(s[k] == t[k - 2]);
        lemma_run_to_hash(s, t, k + 1, e);
    }
}

/// The first `#` or `*` at or after `k`, or the end of the text.
pub open spec fn next_hash(s: Seq<u8>, k: int, end: int) -> int
    decreases end - k,
{
    if k >= end {
        end
    } else if s[k] == 35u8 || s[k] == 42u8 {
        k
    } else {
        next_hash(s, k + 1, end)
    }
}

proof fn lemma_next_hash(s: Seq<u8>, k: int, end: int)
    requires
        k <= end,
    ensures
        k <= next_hash(s, k, end) <= end,
        forall|m: int| k <= m < next_hash(s, k, end) ==> s[m] != 35u8 && s[m] != 42u8,
        next_hash(s, k, end) == end || s[next_hash(s, k, end)] == 35u8 || s[next_hash(s, k, end)]
            == 42u8,
    decreases end - k,
{
    if k < end && s[k] != 35u8 && s[k] != 42u8 {
        lemma_next_hash(s, k + 1, end);
    }
}

proof fn lemma_plain_comment_from(s: Seq<u8>, f: usize, t: Seq<u8>, k: int)
    requires
        s.len() >= t.len() + 4,
        s.subrange(2, t.len() + 2int) == t,
        s[t.len() + 2int] == 42u8,
        s[t.len() + 3int] == 47u8,
        plain_comment_text(t),
        2 <= k <= t.len() + 2,
    ensures
        spec_comment_parts(s, f, k, text_parts(t, k - 2)) == Some(
            (t.len() + 4int, text_parts(t, t.len() as int)),
        ),
    decreases t.len() + 2 - k,
{
    let n = t.len() as int;
    let acc = text_parts(t, k - 2);
    if k == n + 2 {
        lemma_run_to_hash(s, t, k, k);
        assert(spec_interpolation(s, f, k) is None);
        assert(t.take(n) =~= t);
    } else {
        lemma_next_hash(s, k, n + 2);
        let e = next_hash(s, k, n + 2);
        lemma_run_to_hash(s, t, k, e);
        if e > k {
            let run = s.subrange(k, e);
            assert forall|m: int| 0 <= m < run.len() implies #[trigger] run[m] < 128u8 by {
                assert(run[m] == t[k - 2 + m]);
            }
            lemma_ascii_valid_utf8(run);
            assert(run =~= t.subrange(k - 2, e - 2));
            if k > 2 {
                assert(t.take(k - 2) + run =~= t.take(e - 2));
            } else {
                assert(run =~= t.take(e - 2));
            }
            assert(push_part(acc, StringPartV::Raw(run)) == text_parts(t, e - 2));
            lemma_plain_comment_from(s, f, t, e);
        } else if s[k] == 42u8 {
            assert(s[k] == t[k - 2]);
            assert(s[k + 1] != 47u8) by {
                if k + 1 < n + 2 {
                    assert(s[k + 1] == t[k - 1]);
                }
            }
            if k > 2 {
                assert(t.take(k - 2) + seq![42u8] =~= t.take(k - 1));
            } else {
                assert(seq![42u8] =~= t.take(1));
            }
            assert(push_part(acc, StringPartV::Raw(seq![42u8])) == text_parts(t, k - 1));
            lemma_plain_comment_from(s, f, t, k + 1);
        } else {
            assert(s[k] == t[k - 2]);
            assert(s[k] == 35u8);
            assert(s[k + 1] != 123u8) by {
                if k + 1 < n + 2 {
                    assert(s[k + 1] == t[k - 1]);
                }
            }
            assert(spec_interpolation(s, f, k) is None);
            if k > 2 {
                assert(t.take(k - 2).push(35u8) =~= t.take(k - 1));
                assert(t.take(k - 2) + seq![35u8] =~= t.take(k - 1));
            } else {
                assert(seq![35u8] =~= t.take(1));
            }
            assert(push_part(acc, StringPartV::Raw(seq![35u8])) == text_parts(t, k - 1));
            lemma_plain_comment_from(s, f, t, k + 1);
        }
    }
}

/// A block comment whose text is plain ascii with no line break or form
/// feed, `#` bytes included where no `{` follows them and `*` bytes where
/// no `/` follows them, is read as exactly that text, and ends right
/// after its `*/`.
pub proof fn law_plain_comment_text(s: Seq<u8>, f: usize, t: Seq<u8>, rest: Seq<u8>)
    requires
        s == seq![47u8, 42u8] + t + seq![42u8, 47u8] + rest,
        plain_comment_text(t),
    ensures
        spec_comment(s, f, 0) == Some(
            (
                t.len() + 4int,
                SassStringV {
                    parts: if t.len() == 0 {
                        seq![]
                    } else {
                        seq![StringPartV::Raw(t)]
                    },
                    quotes: Quotes::NoQuotes,
                },
            ),
        ),
{
    let n = t.len() as int;
    assert(s.subrange(2, n + 2) =~= t);
    assert(s[n + 2] == 42u8 && s[n + 3] == 47u8);
    lemma_plain_comment_from(s, f, t, 2);
    assert(text_parts(t, 0) =~= Seq::<StringPartV>::empty());
    if n > 0 {
        assert(t.take(n) =~= t);
    }
}

/// A statement ends after white space at the `;` that follows it
/// (taken), at a `}` (left in place), or at the end of the input.
pub proof fn law_statement_end_after_space(s: Seq<u8>, i: int, j: int)
    requires
        0 <= i <= j <= s.len(),
        forall|k: int| i <= k < j ==> is_white(#[trigger] s[k]),
        j == s.len() || s[j] == 59u8 || s[j] == 125u8,
    ensures
        j < s.len() && s[j] == 59u8 ==> spec_semi_or_end(s, i) == Some(j + 1),
        j < s.len() && s[j] == 125u8 ==> spec_semi_or_end(s, i) == Some(j),
        j == s.len() ==> spec_semi_or_end(s, i) == Some(j),
{
    lemma_space_end_run(s, j, j);
    assert(spec_space_step(s, j) is None);
    assert(spacelike_end(s, j) == j);
    if i < j {
        law_white_space_run(s, i, j);
    }
}

/// A text with its line breaks as css writes them in comments: `\r\n`,
/// `\r`, `\n` and form feed each become `\n`.
pub open spec fn norm_breaks(t: Seq<u8>) -> Seq<u8>
    decreases t.len(),
{
    if t.len() == 0 {
        seq![]
    } else if t.len() >= 2 && t[0] == 13u8 && t[1] == 10u8 {
        seq![10u8] + norm_breaks(t.skip(2))
    } else if t[0] == 13u8 || t[0] == 10u8 || t[0] == 12u8 {
        seq![10u8] + norm_breaks(t.skip(1))
    } else {
        seq![t[0]] + norm_breaks(t.skip(1))
    }
}

proof fn lemma_norm_concat(a: Seq<u8>, b: Seq<u8>)
    requires
        a.len() == 0 || b.len() == 0 || a.last() != 13u8 || b[0] != 10u8,
    ensures
        norm_breaks(a + b) == norm_breaks(a) + norm_breaks(b),
    decreases a.len(),
{
    if a.len() == 0 {
        assert(a + b =~= b);
    } else if a.len() >= 2 && a[0] == 13u8 && a[1] == 10u8 {
        assert((a + b).skip(2) =~= a.skip(2) + b);
        lemma_norm_concat(a.skip(2), b);
    } else {
        assert((a + b)[0] == a[0]);
        assert((a + b).skip(1) =~= a.skip(1) + b);
        if a.len() == 1 && a[0] == 13u8 && b.len() >= 1 {
            assert(b[0] != 10u8);
        }
        lemma_norm_concat(a.skip(1), b);
    }
}

proof fn lemma_norm_one(b: u8)
    ensures
        norm_breaks(seq![b]) == if b == 13u8 || b == 10u8 || b == 12u8 {
            seq![10u8]
        } else {
            seq![b]
        },
        norm_breaks(seq![13u8, 10u8]) == seq![10u8],
        norm_breaks(Seq::<u8>::empty()) == Seq::<u8>::empty(),
{
    assert(seq![b].skip(1) =~= Seq::<u8>::empty());
    assert(seq![13u8, 10u8].skip(2) =~= Seq::<u8>::empty());
    assert(norm_breaks(Seq::<u8>::empty()) == Seq::<u8>::empty());
    assert(seq![10u8] + Seq::<u8>::empty() =~= seq![10u8]);
    assert(seq![b] + Seq::<u8>::empty() =~= seq![b]);
}

proof fn lemma_norm_plain(r: Seq<u8>)
    requires
        forall|k: int| 0 <= k < r.len() ==> is_comment_byte(#[trigger] r[k]),
    ensures
        norm_breaks(r) == r,
    decreases r.len(),
{
    if r.len() > 0 {
        assert(is_comment_byte(r[0]));
        assert forall|k: int| 0 <= k < r.skip(1).len() implies is_comment_byte(#[trigger] r.skip(1)[k]) by {
            assert(r.skip(1)[k] == r[k + 1]);
        }
        lemma_norm_plain(r.skip(1));
        assert(seq![r[0]] + r.skip(1) =~= r);
    }
}

/// A comment text that can be read as it stands: ascii, with no `#{`
/// and no `*/`.
pub open spec fn readable_comment_text(t: Seq<u8>) -> bool {
    &&& forall|k: int| 0 <= k < t.len() ==> #[trigger] t[k] < 128u8
    &&& no_interpolation(t)
    &&& no_close(t)
}

/// The parts read so far of a comment text, when its first `m` bytes
/// were read.
pub open spec fn read_parts(t: Seq<u8>, m: int) -> Seq<StringPartV> {
    if m <= 0 {
        seq![]
    } else {
        seq![StringPartV::Raw(norm_breaks(t.take(m)))]
    }
}

/// The first byte at or after `k` that is not plain comment text, or the
/// end.
pub open spec fn next_special(s: Seq<u8>, k: int, end: int) -> int
    decreases end - k,
{
    if k >= end {
        end
    } else if !is_comment_byte(s[k]) {
        k
    } else {
        next_special(s, k + 1, end)
    }
}

proof fn lemma_next_special(s: Seq<u8>, k: int, end: int)
    requires
        0 <= k <= end <= s.len(),
    ensures
        k <= next_special(s, k, end) <= end,
        forall|m: int| k <= m < next_special(s, k, end) ==> is_comment_byte(#[trigger] s[m]),
        next_special(s, k, end) == end || !is_comment_byte(s[next_special(s, k, end)]),
        next_special(s, k, end) < end || end == s.len() || !is_comment_byte(s[end]) ==> comment_run_end(
            s,
            k,
        ) == next_special(s, k, end),
    decreases end - k,
{
    if k < end && is_comment_byte(s[k]) {
        lemma_next_special(s, k + 1, end);
    }
}

proof fn lemma_norm_take_step(t: Seq<u8>, m: int, e: int)
    requires
        0 <= m < e <= t.len(),
        m == 0 || t[m - 1] != 13u8 || t[m] != 10u8,
    ensures
        norm_breaks(t.take(e)) == norm_breaks(t.take(m)) + norm_breaks(t.subrange(m, e)),
{
    assert(t.take(e) =~= t.take(m) + t.subrange(m, e));
    if m > 0 {
        assert(t.take(m).last() == t[m - 1]);
        assert(t.subrange(m, e)[0] == t[m]);
    }
    lemma_norm_concat(t.take(m), t.subrange(m, e));
}

#[verifier::rlimit(60)]
proof fn lemma_comment_from(s: Seq<u8>, f: usize, t: Seq<u8>, k: int)
    requires
        s.len() >= t.len() + 4,
        s.subrange(2, t.len() + 2int) == t,
        s[t.len() + 2int] == 42u8,
        s[t.len() + 3int] == 47u8,
        readable_comment_text(t),
        2 <= k <= t.len() + 2,
        k == 2 || k == t.len() + 2 || t[k - 3] != 13u8 || t[k - 2] != 10u8,
    ensures
        spec_comment_parts(s, f, k, read_parts(t, k - 2)) == Some(
            (t.len() + 4int, read_parts(t, t.len() as int)),
        ),
    decreases t.len() + 2 - k,
{
    let n = t.len() as int;
    let m = k - 2;
    let acc = read_parts(t, m);
    if k == n + 2 {
        lemma_next_special(s, k, k);
        assert(comment_run_end(s, k) == k);
        assert(spec_interpolation(s, f, k) is None);
    } else {
        assert(s[k] == t[m]);
        lemma_next_special(s, k, n + 2);
        let e = next_special(s, k, n + 2);
        assert(comment_run_end(s, k) == e);
        if e > k {
            let run = s.subrange(k, e);
            assert(run =~= t.subrange(m, e - 2));
            assert forall|j: int| 0 <= j < run.len() implies #[trigger] run[j] < 128u8 by {
                assert(run[j] == t[m + j]);
            }
            assert forall|j: int| 0 <= j < run.len() implies is_comment_byte(#[trigger] run[j]) by {
                assert(run[j] == s[k + j]);
            }
            lemma_ascii_valid_utf8(run);
            lemma_norm_plain(run);
            lemma_norm_take_step(t, m, e - 2);
            if m == 0 {
                assert(t.take(0) =~= Seq::<u8>::empty());
                assert(norm_breaks(t.take(0)) =~= Seq::<u8>::empty());
                assert(Seq::<u8>::empty() + run =~= run);
            }
            assert(push_part(acc, StringPartV::Raw(run)) == read_parts(t, e - 2));
            assert(e - 2 == n || t[e - 3] != 13u8);
            lemma_comment_from(s, f, t, e);
        } else {
            let b = s[k];
            assert(!is_comment_byte(b));
            if b == 13u8 && at(s, k + 1, 10u8) {
                assert(k + 1 < n + 2);
                assert(t[m + 1] == 10u8);
                lemma_norm_take_step(t, m, m + 2);
                assert(t.subrange(m, m + 2) =~= seq![13u8, 10u8]);
                lemma_norm_one(13u8);
                if m == 0 {
                    assert(t.take(0) =~= Seq::<u8>::empty());
                }
                assert(push_part(acc, StringPartV::Raw(seq![10u8])) == read_parts(t, m + 2));
                lemma_comment_from(s, f, t, k + 2);
            } else if b == 10u8 || b == 13u8 || b == 12u8 {
                lemma_norm_take_step(t, m, m + 1);
                assert(t.subrange(m, m + 1) =~= seq![b]);
                lemma_norm_one(b);
                if m == 0 {
                    assert(t.take(0) =~= Seq::<u8>::empty());
                }
                assert(push_part(acc, StringPartV::Raw(seq![10u8])) == read_parts(t, m + 1));
                if b == 13u8 && m + 1 < n {
                    assert(s[k + 1] == t[m + 1]);
                }
                lemma_comment_from(s, f, t, k + 1);
            } else if b == 42u8 {
                assert(s[k + 1] != 47u8) by {
                    if k + 1 < n + 2 {
                        assert(s[k + 1] == t[m + 1]);
                    }
                }
                lemma_norm_take_step(t, m, m + 1);
                assert(t.subrange(m, m + 1) =~= seq![42u8]);
                lemma_norm_one(42u8);
                if m == 0 {
                    assert(t.take(0) =~= Seq::<u8>::empty());
                }
                assert(push_part(acc, StringPartV::Raw(seq![42u8])) == read_parts(t, m + 1));
                lemma_comment_from(s, f, t, k + 1);
            } else {
                assert(b == 35u8);
                assert(s[k + 1] != 123u8) by {
                    if k + 1 < n + 2 {
                        assert(s[k + 1] == t[m + 1]);
                    }
                }
                assert(spec_interpolation(s, f, k) is None);
                lemma_norm_take_step(t, m, m + 1);
                assert(t.subrange(m, m + 1) =~= seq![35u8]);
                lemma_norm_one(35u8);
                if m == 0 {
                    assert(t.take(0) =~= Seq::<u8>::empty());
                }
                assert(push_part(acc, StringPartV::Raw(seq![35u8])) == read_parts(t, m + 1));
                lemma_comment_from(s, f, t, k + 1);
            }
        }
    }
}

/// A block comment whose text is ascii with no `#{` and no `*/` is read
/// as that text with its line breaks written as `\n` (`\r\n`, `\r`, `\n`
/// and form feed alike), and ends right after its `*/`.
pub proof fn law_comment_text(s: Seq<u8>, f: usize, t: Seq<u8>, rest: Seq<u8>)
    requires
        s == seq![47u8, 42u8] + t + seq![42u8, 47u8] + rest,
        readable_comment_text(t),
    ensures
        spec_comment(s, f, 0) == Some(
            (
                t.len() + 4int,
                SassStringV {
                    parts: if t.len() == 0 {
                        seq![]
                    } else {
                        seq![StringPartV::Raw(norm_breaks(t))]
                    },
                    quotes: Quotes::NoQuotes,
                },
            ),
        ),
{
    let n = t.len() as int;
    assert(s.subrange(2, n + 2) =~= t);
    assert(s[n + 2] == 42u8 && s[n + 3] == 47u8);
    lemma_comment_from(s, f, t, 2);
    assert(read_parts(t, 0) =~= Seq::<StringPartV>::empty());
    if n > 0 {
        assert(t.take(n) =~= t);
    }
}

proof fn lemma_line_end_run(s: Seq<u8>, i: int, j: int)
    requires
        0 <= i <= j < s.len(),
        forall|k: int| i <= k < j ==> #[trigger] s[k] != 10u8,
        s[j] == 10u8,
    ensures
        line_end(s, i) == j,
    decreases j - i,
{
    if i < j {
        lemma_line_end_run(s, i + 1, j);
    }
}

/// A line comment is space-like: from `//`, space-like input goes past
/// the rest of the line and its line feed, up to a byte that is neither
/// white space nor `/`.
pub proof fn law_line_comment_skipped(s: Seq<u8>, i: int, j: int)
    requires
        0 <= i,
        i + 2 <= j < s.len(),
        s[i] == 47u8,
        s[i + 1] == 47u8,
        forall|k: int| i + 2 <= k < j ==> #[trigger] s[k] != 10u8,
        s[j] == 10u8,
        j + 1 == s.len() || (!is_white(s[j + 1]) && s[j + 1] != 47u8),
    ensures
        spec_spacelike(s, i) == Some(j + 1),
{
    lemma_line_end_run(s, i + 2, j);
    assert(space_end(s, i) == i);
    assert(spec_space_step(s, i) == Some(j));
    law_white_space_run(s, j, j + 1);
    assert(spacelike_end(s, j) == j + 1);
}

} // verus!
