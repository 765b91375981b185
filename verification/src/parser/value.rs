//! Value expressions: numbers, names, quoted and unquoted strings with
//! interpolation, variables, function calls, `+`, and space and comma
//! separated lists.
use super::span::Span;
use super::util::{lemma_spacelike_end, skip_ws, spacelike, spacelike_end, spec_spacelike};
use super::{at, byte_at, bytes_eq, PResult};
use crate::sass::{
    CallArg, CallArgV, ListSep, Number, NumberV, Quotes, SassString, SassStringV, SourcePos, StringPart,
    StringPartV, Value, ValueV, push_part, push_part_exec, parts_view, values_view, args_view,
    lemma_sstring_view, lemma_list_view, lemma_call_view,
};
use vstd::prelude::*;
use vstd::string::StringSliceAdditionalSpecFns;

verus! {

// ---------------------------------------------------------------------
// Byte classes and runs
// ---------------------------------------------------------------------

pub open spec fn is_digit(b: u8) -> bool {
    48u8 <= b <= 57u8
}

pub open spec fn is_alpha(b: u8) -> bool {
    (65u8 <= b <= 90u8) || (97u8 <= b <= 122u8)
}

/// A byte that may start a name: a letter, `_`, or any non-ascii byte.
pub open spec fn is_name_start(b: u8) -> bool {
    is_alpha(b) || b == 95u8 || b >= 128u8
}

/// A byte that may continue a name.
pub open spec fn is_name_char(b: u8) -> bool {
    is_name_start(b) || is_digit(b) || b == 45u8
}

pub open spec fn name_char_end(s: Seq<u8>, i: int) -> int
    decreases s.len() - i,
{
    if 0 <= i < s.len() && is_name_char(s[i]) {
        name_char_end(s, i + 1)
    } else {
        i
    }
}

pub open spec fn digit_end(s: Seq<u8>, i: int) -> int
    decreases s.len() - i,
{
    if 0 <= i < s.len() && is_digit(s[i]) {
        digit_end(s, i + 1)
    } else {
        i
    }
}

pub open spec fn alpha_end(s: Seq<u8>, i: int) -> int
    decreases s.len() - i,
{
    if 0 <= i < s.len() && is_alpha(s[i]) {
        alpha_end(s, i + 1)
    } else {
        i
    }
}

pub proof fn lemma_name_char_end(s: Seq<u8>, i: int)
    requires
        0 <= i <= s.len(),
    ensures
        i <= name_char_end(s, i) <= s.len(),
    decreases s.len() - i,
{
    if i < s.len() && is_name_char(s[i]) {
        lemma_name_char_end(s, i + 1);
    }
}

pub proof fn lemma_digit_end(s: Seq<u8>, i: int)
    requires
        0 <= i <= s.len(),
    ensures
        i <= digit_end(s, i) <= s.len(),
        forall|k: int| i <= k < digit_end(s, i) ==> is_digit(#[trigger] s[k]),
    decreases s.len() - i,
{
    if i < s.len() && is_digit(s[i]) {
        lemma_digit_end(s, i + 1);
    }
}

pub proof fn lemma_alpha_end(s: Seq<u8>, i: int)
    requires
        0 <= i <= s.len(),
    ensures
        i <= alpha_end(s, i) <= s.len(),
    decreases s.len() - i,
{
    if i < s.len() && is_alpha(s[i]) {
        lemma_alpha_end(s, i + 1);
    }
}

/// A copy of the bytes from `a` to `b`.
pub fn bytes_between(input: &[u8], a: usize, b: usize) -> (r: Vec<u8>)
    requires
        a <= b <= input.len(),
    ensures
        r@ == input@.subrange(a as int, b as int),
{
    let mut r: Vec<u8> = Vec::new();
    let mut k = a;
    while k < b
        invariant
            a <= k <= b <= input.len(),
            r@ == input@.subrange(a as int, k as int),
        decreases b - k,
    {
        r.push(input[k]);
        k = k + 1;
        assert(r@ =~= input@.subrange(a as int, k as int));
    }
    r
}

fn name_char_run(input: &[u8], pos: usize) -> (j: usize)
    requires
        pos <= input.len(),
    ensures
        j == name_char_end(input@, pos as int),
        pos <= j <= input.len(),
{
    let mut j = pos;
    while j < input.len() && ((65u8 <= input[j] && input[j] <= 90u8) || (97u8 <= input[j]
        && input[j] <= 122u8) || input[j] == 95u8 || input[j] >= 128u8 || (48u8 <= input[j]
        && input[j] <= 57u8) || input[j] == 45u8)
        invariant
            pos <= j <= input.len(),
            name_char_end(input@, pos as int) == name_char_end(input@, j as int),
        decreases input.len() - j,
    {
        j = j + 1;
    }
    j
}

fn digit_run(input: &[u8], pos: usize) -> (j: usize)
    requires
        pos <= input.len(),
    ensures
        j == digit_end(input@, pos as int),
        pos <= j <= input.len(),
{
    let mut j = pos;
    while j < input.len() && 48u8 <= input[j] && input[j] <= 57u8
        invariant
            pos <= j <= input.len(),
            digit_end(input@, pos as int) == digit_end(input@, j as int),
        decreases input.len() - j,
    {
        j = j + 1;
    }
    j
}

fn alpha_run(input: &[u8], pos: usize) -> (j: usize)
    requires
        pos <= input.len(),
    ensures
        j == alpha_end(input@, pos as int),
        pos <= j <= input.len(),
{
    let mut j = pos;
    while j < input.len() && ((65u8 <= input[j] && input[j] <= 90u8) || (97u8 <= input[j]
        && input[j] <= 122u8))
        invariant
            pos <= j <= input.len(),
            alpha_end(input@, pos as int) == alpha_end(input@, j as int),
        decreases input.len() - j,
    {
        j = j + 1;
    }
    j
}

// ---------------------------------------------------------------------
// Names
// ---------------------------------------------------------------------

/// A name: a name-start byte, or `-` followed by a name-start byte or
/// another `-`, and then any name bytes.
pub open spec fn spec_name(s: Seq<u8>, i: int) -> Option<(int, Seq<u8>)> {
    if (0 <= i < s.len() && is_name_start(s[i])) || (at(s, i, 45u8) && i + 1 < s.len() && (
    is_name_start(s[i + 1]) || s[i + 1] == 45u8)) {
        let j = name_char_end(s, i + 1);
        Some((j, s.subrange(i, j)))
    } else {
        None
    }
}

pub open spec fn parsed_bytes(res: PResult<Vec<u8>>, sp: Option<(int, Seq<u8>)>) -> bool {
    match res {
        Some((j, v)) => sp == Some((j as int, v@)),
        None => sp is None,
    }
}

/// Parses a name.
pub fn name(input: &[u8], pos: usize) -> (res: PResult<Vec<u8>>)
    requires
        pos <= input.len(),
    ensures
        parsed_bytes(res, spec_name(input@, pos as int)),
        res matches Some((j, _)) ==> pos < j <= input.len(),
{
    let ok = if pos < input.len() && ((65u8 <= input[pos] && input[pos] <= 90u8) || (97u8
        <= input[pos] && input[pos] <= 122u8) || input[pos] == 95u8 || input[pos] >= 128u8) {
        true
    } else if byte_at(input, pos, 45u8) && pos + 1 < input.len() {
        let b = input[pos + 1];
        (65u8 <= b && b <= 90u8) || (97u8 <= b && b <= 122u8) || b == 95u8 || b >= 128u8 || b
            == 45u8
    } else {
        false
    };
    if ok {
        let j = name_char_run(input, pos + 1);
        Some((j, bytes_between(input, pos, j)))
    } else {
        None
    }
}

// ---------------------------------------------------------------------
// Numbers
// ---------------------------------------------------------------------

pub open spec fn pow10(n: nat) -> int
    decreases n,
{
    if n == 0 {
        1
    } else {
        10 * pow10((n - 1) as nat)
    }
}

/// The value of the decimal digits from `a` to `b`.
pub open spec fn digits_value(s: Seq<u8>, a: int, b: int) -> int
    decreases b - a,
{
    if b <= a {
        0
    } else {
        digits_value(s, a, b - 1) * 10 + (s[b - 1] - 48u8)
    }
}

pub proof fn lemma_pow10_pos(n: nat)
    ensures
        pow10(n) >= 1,
    decreases n,
{
    if n > 0 {
        lemma_pow10_pos((n - 1) as nat);
    }
}

pub proof fn lemma_digits_value(s: Seq<u8>, a: int, b: int)
    requires
        0 <= a <= b <= s.len(),
        forall|k: int| a <= k < b ==> is_digit(#[trigger] s[k]),
    ensures
        0 <= digits_value(s, a, b) < pow10((b - a) as nat),
    decreases b - a,
{
    if b > a {
        lemma_digits_value(s, a, b - 1);
        assert(is_digit(s[b - 1]));
    }
}

/// The longest run of fraction digits that counts: ten digits at most.
pub open spec fn frac_len(a: int, e: int) -> int {
    if e - a > 10 {
        10
    } else {
        e - a
    }
}

/// A number: an optional sign, digits (at most eighteen before the
/// point), an optional fraction (digits after the tenth are read and
/// dropped), and a unit that is `%` or a run of letters.
pub open spec fn spec_number(s: Seq<u8>, i: int) -> Option<(int, NumberV)> {
    let neg = at(s, i, 45u8);
    let k = if at(s, i, 45u8) || at(s, i, 43u8) {
        i + 1
    } else {
        i
    };
    let ie = digit_end(s, k);
    let has_frac = at(s, ie, 46u8) && ie + 1 < s.len() && is_digit(s[ie + 1]);
    let fe = if has_frac {
        digit_end(s, ie + 1)
    } else {
        ie
    };
    if ie == k && !has_frac {
        None
    } else if ie - k > 18 {
        None
    } else {
        let fl = if has_frac {
            frac_len(ie + 1, fe)
        } else {
            0
        };
        let frac = if has_frac {
            digits_value(s, ie + 1, ie + 1 + fl) * pow10((10 - fl) as nat)
        } else {
            0
        };
        let mag = digits_value(s, k, ie) * pow10(10) + frac;
        let value = if neg {
            -mag
        } else {
            mag
        };
        if at(s, fe, 37u8) {
            Some((fe + 1, NumberV { value: value as i128, unit: seq![37u8] }))
        } else {
            let ue = alpha_end(s, fe);
            Some((ue, NumberV { value: value as i128, unit: s.subrange(fe, ue) }))
        }
    }
}

fn digits_exec(input: &[u8], a: usize, b: usize) -> (v: i128)
    requires
        a <= b <= input.len(),
        b - a <= 18,
        forall|k: int| a <= k < b ==> is_digit(#[trigger] input@[k]),
    ensures
        v == digits_value(input@, a as int, b as int),
        0 <= v < pow10((b - a) as nat),
{
    let mut v: i128 = 0;
    let mut k = a;
    proof {
        reveal_with_fuel(pow10, 19);
    }
    while k < b
        invariant
            a <= k <= b <= input.len(),
            b - a <= 18,
            forall|q: int| a <= q < b ==> is_digit(#[trigger] input@[q]),
            v == digits_value(input@, a as int, k as int),
            0 <= v < pow10((k - a) as nat),
            pow10(18) == 1000000000000000000,
        decreases b - k,
    {
        proof {
            lemma_digits_value(input@, a as int, b as int);
            assert(is_digit(input@[k as int]));
            lemma_pow10_mono((k - a) as nat, 17);
        }
        let d = (input[k] - 48u8) as i128;
        v = v * 10 + d;
        k = k + 1;
    }
    v
}

pub proof fn lemma_pow10_mono(n: nat, m: nat)
    requires
        n <= m,
    ensures
        pow10(n) <= pow10(m),
    decreases m,
{
    lemma_pow10_pos(n);
    if n < m {
        lemma_pow10_mono(n, (m - 1) as nat);
        lemma_pow10_pos((m - 1) as nat);
    }
}

fn pow10_exec(n: usize) -> (r: i128)
    requires
        n <= 10,
    ensures
        r == pow10(n as nat),
        1 <= r <= 10000000000,
{
    proof {
        reveal_with_fuel(pow10, 11);
    }
    let mut r: i128 = 1;
    let mut k: usize = 0;
    while k < n
        invariant
            k <= n <= 10,
            r == pow10(k as nat),
            1 <= r <= pow10(k as nat),
            pow10(10) == 10000000000,
        decreases n - k,
    {
        proof {
            lemma_pow10_mono((k + 1) as nat, 10);
        }
        r = r * 10;
        k = k + 1;
    }
    proof {
        lemma_pow10_mono(n as nat, 10);
    }
    r
}

pub open spec fn parsed_number(res: PResult<Number>, sp: Option<(int, NumberV)>) -> bool {
    match res {
        Some((j, v)) => sp == Some((j as int, v@)),
        None => sp is None,
    }
}

/// Parses a number.
pub fn number(input: &[u8], pos: usize) -> (res: PResult<Number>)
    requires
        pos <= input.len(),
    ensures
        parsed_number(res, spec_number(input@, pos as int)),
        res matches Some((j, _)) ==> pos < j <= input.len(),
{
    let s = Ghost(input@);
    let neg = byte_at(input, pos, 45u8);
    let k = if neg || byte_at(input, pos, 43u8) {
        pos + 1
    } else {
        pos
    };
    let ie = digit_run(input, k);
    let has_frac = byte_at(input, ie, 46u8) && ie + 1 < input.len() && 48u8 <= input[ie + 1]
        && input[ie + 1] <= 57u8;
    let fe = if has_frac {
        digit_run(input, ie + 1)
    } else {
        ie
    };
    if ie == k && !has_frac {
        return None;
    }
    if ie - k > 18 {
        return None;
    }
    proof {
        lemma_digit_end(s@, k as int);
        if has_frac {
            lemma_digit_end(s@, ie + 1);
        }
        reveal_with_fuel(pow10, 11);
    }
    let fl: usize = if has_frac {
        if fe - (ie + 1) > 10 {
            10
        } else {
            fe - (ie + 1)
        }
    } else {
        0
    };
    let frac: i128 = if has_frac {
        let fv = digits_exec(input, ie + 1, ie + 1 + fl);
        let p = pow10_exec(10 - fl);
        proof {
            lemma_pow10_mono(fl as nat, 10);
            assert(fv * p < pow10(fl as nat) * p) by (nonlinear_arith)
                requires
                    0 <= fv < pow10(fl as nat),
                    p >= 1,
            ;
            lemma_pow10_split(fl as nat);
        }
        assert(fv * p < 10000000000);
        fv * p
    } else {
        0
    };
    assert(0 <= frac < 10000000000);
    let iv = digits_exec(input, k, ie);
    proof {
        lemma_pow10_mono((ie - k) as nat, 18);
        assert(pow10(18) == 1000000000000000000) by {
            reveal_with_fuel(pow10, 19);
        }
        assert(0 <= iv < 1000000000000000000);
        assert(0 <= iv * 10000000000 < 10000000000000000000000000000) by (nonlinear_arith)
            requires
                0 <= iv < 1000000000000000000,
        ;
    }
    let mag = iv * 10000000000i128 + frac;
    let value = if neg {
        -mag
    } else {
        mag
    };
    if byte_at(input, fe, 37u8) {
        let mut unit: Vec<u8> = Vec::new();
        unit.push(37u8);
        proof {
            assert(unit@ =~= seq![37u8]);
        }
        Some((fe + 1, Number { value, unit }))
    } else {
        let ue = alpha_run(input, fe);
        Some((ue, Number { value, unit: bytes_between(input, fe, ue) }))
    }
}

pub proof fn lemma_pow10_split(n: nat)
    requires
        n <= 10,
    ensures
        pow10(n) * pow10((10 - n) as nat) == pow10(10),
    decreases n,
{
    if n > 0 {
        lemma_pow10_split((n - 1) as nat);
        assert(pow10(n) == 10 * pow10((n - 1) as nat));
        assert(pow10((10 - (n - 1)) as nat) == 10 * pow10((10 - n) as nat));
        assert(pow10(n) * pow10((10 - n) as nat) == pow10((n - 1) as nat) * pow10(
            (10 - (n - 1)) as nat,
        )) by (nonlinear_arith)
            requires
                pow10(n) == 10 * pow10((n - 1) as nat),
                pow10((10 - (n - 1)) as nat) == 10 * pow10((10 - n) as nat),
        ;
    }
}


// ---------------------------------------------------------------------
// The grammar of values
// ---------------------------------------------------------------------

/// A source span in file `f` from `a` to `b`.
pub open spec fn pos_of(f: usize, a: int, b: int) -> SourcePos {
    SourcePos { file: f, start: a as usize, end: b as usize }
}

/// The end of a run of bytes that a quoted string takes as they are.
pub open spec fn quoted_raw_end(s: Seq<u8>, i: int, q: u8) -> int
    decreases s.len() - i,
{
    if 0 <= i < s.len() && s[i] != q && s[i] != 92u8 && s[i] != 35u8 && s[i] != 10u8 {
        quoted_raw_end(s, i + 1, q)
    } else {
        i
    }
}

pub proof fn lemma_quoted_raw_end(s: Seq<u8>, i: int, q: u8)
    requires
        0 <= i <= s.len(),
    ensures
        i <= quoted_raw_end(s, i, q) <= s.len(),
    decreases s.len() - i,
{
    if i < s.len() && s[i] != q && s[i] != 92u8 && s[i] != 35u8 && s[i] != 10u8 {
        lemma_quoted_raw_end(s, i + 1, q);
    }
}

/// A byte that an unquoted `url(...)` may hold.
pub open spec fn is_url_char(b: u8) -> bool {
    b > 32u8 && b != 34u8 && b != 39u8 && b != 40u8 && b != 41u8 && b != 92u8 && b != 127u8
}

pub open spec fn url_char_end(s: Seq<u8>, i: int) -> int
    decreases s.len() - i,
{
    if 0 <= i < s.len() && is_url_char(s[i]) {
        url_char_end(s, i + 1)
    } else {
        i
    }
}

pub proof fn lemma_url_char_end(s: Seq<u8>, i: int)
    requires
        0 <= i <= s.len(),
    ensures
        i <= url_char_end(s, i) <= s.len(),
    decreases s.len() - i,
{
    if i < s.len() && is_url_char(s[i]) {
        lemma_url_char_end(s, i + 1);
    }
}

/// `url(` followed by url bytes and `)`, taken as one literal text.
pub open spec fn spec_special_url(s: Seq<u8>, i: int) -> Option<(int, Seq<u8>)> {
    if at(s, i, 117u8) && at(s, i + 1, 114u8) && at(s, i + 2, 108u8) && at(s, i + 3, 40u8) {
        let e = url_char_end(s, i + 4);
        if at(s, e, 41u8) {
            Some((e + 1, s.subrange(i, e + 1)))
        } else {
            None
        }
    } else {
        None
    }
}

/// `#{`, a comma list, and `}`.
pub open spec fn spec_interpolation(s: Seq<u8>, f: usize, i: int) -> Option<(int, ValueV)>
    decreases s.len() - i, 0nat,
{
    if at(s, i, 35u8) && at(s, i + 1, 123u8) {
        let a = spacelike_end(s, i + 2);
        if i + 2 <= a <= s.len() {
            match spec_comma_list(s, f, a) {
                Some((b, v)) => if a < b <= s.len() {
                    let c = spacelike_end(s, b);
                    if at(s, c, 125u8) {
                        Some((c + 1, v))
                    } else {
                        None
                    }
                } else {
                    None
                },
                None => None,
            }
        } else {
            None
        }
    } else {
        None
    }
}

/// The rest of a string quoted by `q`, after the opening quote, with the
/// parts read so far in `acc`. A backslash makes the next byte literal;
/// `#{...}` is an interpolation, and a `#` that does not start one is
/// literal; a line feed is not allowed.
pub open spec fn spec_quoted_parts(
    s: Seq<u8>,
    f: usize,
    i: int,
    q: u8,
    acc: Seq<StringPartV>,
) -> Option<(int, Seq<StringPartV>)>
    decreases s.len() - i, 1nat,
{
    if !(0 <= i < s.len()) {
        None
    } else if s[i] == q {
        Some((i + 1, acc))
    } else if s[i] == 92u8 {
        if i + 1 < s.len() {
            spec_quoted_parts(s, f, i + 2, q, push_part(acc, StringPartV::Raw(seq![s[i + 1]])))
        } else {
            None
        }
    } else if s[i] == 35u8 {
        match spec_interpolation(s, f, i) {
            Some((j, v)) => if i < j <= s.len() {
                spec_quoted_parts(s, f, j, q, push_part(acc, StringPartV::Interpolation(v)))
            } else {
                None
            },
            None => spec_quoted_parts(s, f, i + 1, q, push_part(acc, StringPartV::Raw(seq![35u8]))),
        }
    } else if s[i] == 10u8 {
        None
    } else {
        let j = quoted_raw_end(s, i, q);
        if i < j <= s.len() {
            spec_quoted_parts(s, f, j, q, push_part(acc, StringPartV::Raw(s.subrange(i, j))))
        } else {
            None
        }
    }
}

/// More parts of an unquoted string: interpolations and runs of name bytes.
pub open spec fn spec_unquoted_tail(s: Seq<u8>, f: usize, i: int, acc: Seq<StringPartV>) -> (
    int,
    Seq<StringPartV>,
)
    decreases s.len() - i, 1nat,
{
    if !(0 <= i <= s.len()) {
        (i, acc)
    } else if at(s, i, 35u8) && at(s, i + 1, 123u8) {
        match spec_interpolation(s, f, i) {
            Some((j, v)) => if i < j <= s.len() {
                spec_unquoted_tail(s, f, j, push_part(acc, StringPartV::Interpolation(v)))
            } else {
                (i, acc)
            },
            None => (i, acc),
        }
    } else {
        let j = name_char_end(s, i);
        if i < j <= s.len() {
            spec_unquoted_tail(s, f, j, push_part(acc, StringPartV::Raw(s.subrange(i, j))))
        } else {
            (i, acc)
        }
    }
}

/// An unquoted string: an interpolation or a name, then more parts.
pub open spec fn spec_unquoted(s: Seq<u8>, f: usize, i: int) -> Option<(int, SassStringV)>
    decreases s.len() - i, 2nat,
{
    if !(0 <= i <= s.len()) {
        None
    } else if at(s, i, 35u8) && at(s, i + 1, 123u8) {
        match spec_interpolation(s, f, i) {
            Some((j, v)) => if i < j <= s.len() {
                let (k, ps) = spec_unquoted_tail(s, f, j, seq![StringPartV::Interpolation(v)]);
                Some((k, SassStringV { parts: ps, quotes: Quotes::NoQuotes }))
            } else {
                None
            },
            None => None,
        }
    } else {
        match spec_name(s, i) {
            Some((j, n)) => if i < j <= s.len() {
                let (k, ps) = spec_unquoted_tail(s, f, j, seq![StringPartV::Raw(n)]);
                Some((k, SassStringV { parts: ps, quotes: Quotes::NoQuotes }))
            } else {
                None
            },
            None => None,
        }
    }
}

/// The bytes of a keyword.
pub open spec fn kw(k: &str) -> Seq<u8> {
    k.spec_bytes()
}

/// An unquoted string that is exactly `null`, `true` or `false` is that
/// value; any other is a literal.
pub open spec fn keyword_or_literal(ss: SassStringV) -> ValueV {
    if ss.parts.len() == 1 && ss.parts[0] is Raw && ss.parts[0]->Raw_0 == kw("null") {
        ValueV::Null
    } else if ss.parts.len() == 1 && ss.parts[0] is Raw && ss.parts[0]->Raw_0 == kw("true") {
        ValueV::True
    } else if ss.parts.len() == 1 && ss.parts[0] is Raw && ss.parts[0]->Raw_0 == kw("false") {
        ValueV::False
    } else {
        ValueV::Literal(ss)
    }
}

/// A single value: a parenthesized comma list, a number, a variable, a
/// quoted string, `url(...)`, a function call, or an unquoted string.
pub open spec fn spec_primary(s: Seq<u8>, f: usize, i: int) -> Option<(int, ValueV)>
    decreases s.len() - i, 3nat,
{
    if !(0 <= i <= s.len()) {
        None
    } else if at(s, i, 40u8) {
        let a = spacelike_end(s, i + 1);
        if i + 1 <= a <= s.len() {
            match spec_comma_list(s, f, a) {
                Some((b, v)) => if a < b <= s.len() {
                    let c = spacelike_end(s, b);
                    if at(s, c, 41u8) {
                        Some((c + 1, v))
                    } else {
                        None
                    }
                } else {
                    None
                },
                None => None,
            }
        } else {
            None
        }
    } else {
        match spec_number(s, i) {
            Some((j, n)) => Some((j, ValueV::Numeric(n))),
            None => if at(s, i, 36u8) {
                match spec_name(s, i + 1) {
                    Some((j, n)) => Some((j, ValueV::Variable(n, pos_of(f, i, j)))),
                    None => None,
                }
            } else if at(s, i, 34u8) || at(s, i, 39u8) {
                match spec_quoted_parts(s, f, i + 1, s[i], seq![]) {
                    Some((j, ps)) => Some(
                        (
                            j,
                            ValueV::Literal(
                                SassStringV {
                                    parts: ps,
                                    quotes: if s[i] == 34u8 {
                                        Quotes::Double
                                    } else {
                                        Quotes::Single
                                    },
                                },
                            ),
                        ),
                    ),
                    None => None,
                }
            } else {
                match spec_special_url(s, i) {
                    Some((j, b)) => Some(
                        (
                            j,
                            ValueV::Literal(
                                SassStringV {
                                    parts: seq![StringPartV::Raw(b)],
                                    quotes: Quotes::NoQuotes,
                                },
                            ),
                        ),
                    ),
                    None => match spec_name(s, i) {
                        Some((j, n)) => if i < j < s.len() && s[j] == 40u8 {
                            match spec_call_args(s, f, j + 1, seq![]) {
                                Some((k, args)) => Some((k, ValueV::Call(n, args, pos_of(f, i, k)))),
                                None => None,
                            }
                        } else {
                            match spec_unquoted(s, f, i) {
                                Some((k, ss)) => Some((k, keyword_or_literal(ss))),
                                None => None,
                            }
                        },
                        None => match spec_unquoted(s, f, i) {
                            Some((k, ss)) => Some((k, keyword_or_literal(ss))),
                            None => None,
                        },
                    },
                }
            },
        }
    }
}

/// More terms of a sum, each after `+`.
pub open spec fn spec_sum_tail(s: Seq<u8>, f: usize, i: int, acc: ValueV) -> (int, ValueV)
    decreases s.len() - i, 7nat,
{
    if !(0 <= i <= s.len()) {
        (i, acc)
    } else {
        let a = spacelike_end(s, i);
        if at(s, a, 43u8) {
            let b = spacelike_end(s, a + 1);
            if i < b <= s.len() {
                match spec_primary(s, f, b) {
                    Some((c, v)) => if b < c <= s.len() {
                        spec_sum_tail(s, f, c, ValueV::Plus(Box::new(acc), Box::new(v)))
                    } else {
                        (i, acc)
                    },
                    None => (i, acc),
                }
            } else {
                (i, acc)
            }
        } else {
            (i, acc)
        }
    }
}

/// Single values joined by `+`, grouped from the left.
pub open spec fn spec_sum(s: Seq<u8>, f: usize, i: int) -> Option<(int, ValueV)>
    decreases s.len() - i, 4nat,
{
    match spec_primary(s, f, i) {
        Some((j, v)) => if i < j <= s.len() {
            Some(spec_sum_tail(s, f, j, v))
        } else {
            None
        },
        None => None,
    }
}

/// Whether a list item may follow the one before it at `i` with no
/// space between: when a quote ends the one or starts the other.
pub open spec fn quote_adjacent(s: Seq<u8>, i: int) -> bool {
    ||| at(s, i, 34u8)
    ||| at(s, i, 39u8)
    ||| (0 < i <= s.len() && (s[i - 1] == 34u8 || s[i - 1] == 39u8))
}

/// More items of a space separated list: each after space, or right
/// after a quoted string or right before one.
pub open spec fn spec_space_tail(s: Seq<u8>, f: usize, i: int, acc: Seq<ValueV>) -> (
    int,
    Seq<ValueV>,
)
    decreases s.len() - i, 7nat,
{
    if !(0 <= i <= s.len()) {
        (i, acc)
    } else {
        match spec_spacelike(s, i) {
            Some(a) => if i < a <= s.len() {
                match spec_sum(s, f, a) {
                    Some((c, v)) => if a < c <= s.len() {
                        spec_space_tail(s, f, c, acc.push(v))
                    } else {
                        (i, acc)
                    },
                    None => (i, acc),
                }
            } else {
                (i, acc)
            },
            None => if quote_adjacent(s, i) {
                match spec_sum(s, f, i) {
                    Some((c, v)) => if i < c <= s.len() {
                        spec_space_tail(s, f, c, acc.push(v))
                    } else {
                        (i, acc)
                    },
                    None => (i, acc),
                }
            } else {
                (i, acc)
            },
        }
    }
}

/// Sums separated by space; one sum is itself, more make a space list.
pub open spec fn spec_space_list(s: Seq<u8>, f: usize, i: int) -> Option<(int, ValueV)>
    decreases s.len() - i, 5nat,
{
    match spec_sum(s, f, i) {
        Some((j, v)) => if i < j <= s.len() {
            let (k, vs) = spec_space_tail(s, f, j, seq![v]);
            Some(
                (
                    k,
                    if vs.len() == 1 {
                        vs[0]
                    } else {
                        ValueV::List(vs, ListSep::Space)
                    },
                ),
            )
        } else {
            None
        },
        None => None,
    }
}

/// More items of a comma separated list.
pub open spec fn spec_comma_tail(s: Seq<u8>, f: usize, i: int, acc: Seq<ValueV>) -> (
    int,
    Seq<ValueV>,
)
    decreases s.len() - i, 7nat,
{
    if !(0 <= i <= s.len()) {
        (i, acc)
    } else {
        let a = spacelike_end(s, i);
        if at(s, a, 44u8) {
            let b = spacelike_end(s, a + 1);
            if i < b <= s.len() {
                match spec_space_list(s, f, b) {
                    Some((c, v)) => if b < c <= s.len() {
                        spec_comma_tail(s, f, c, acc.push(v))
                    } else {
                        (i, acc)
                    },
                    None => (i, acc),
                }
            } else {
                (i, acc)
            }
        } else {
            (i, acc)
        }
    }
}

/// Space lists separated by commas; one is itself, more make a comma list.
pub open spec fn spec_comma_list(s: Seq<u8>, f: usize, i: int) -> Option<(int, ValueV)>
    decreases s.len() - i, 6nat,
{
    match spec_space_list(s, f, i) {
        Some((j, v)) => if i < j <= s.len() {
            let (k, vs) = spec_comma_tail(s, f, j, seq![v]);
            Some(
                (
                    k,
                    if vs.len() == 1 {
                        vs[0]
                    } else {
                        ValueV::List(vs, ListSep::Comma)
                    },
                ),
            )
        } else {
            None
        },
        None => None,
    }
}

/// `$name:` that starts a named argument: the position after `:` and the name.
pub open spec fn spec_arg_name(s: Seq<u8>, i: int) -> Option<(int, Seq<u8>)> {
    if at(s, i, 36u8) {
        match spec_name(s, i + 1) {
            Some((j, n)) => {
                let a = spacelike_end(s, j);
                if at(s, a, 58u8) {
                    Some((a + 1, n))
                } else {
                    None
                }
            },
            None => None,
        }
    } else {
        None
    }
}

/// One argument of a call: `$name:` and a space list, or a space list.
pub open spec fn spec_call_arg(s: Seq<u8>, f: usize, i: int) -> Option<(int, CallArgV)>
    decreases s.len() - i, 6nat,
{
    let named = spec_arg_name(s, i);
    match named {
        Some((a, n)) => {
            let b = spacelike_end(s, a);
            if i < b <= s.len() {
                match spec_space_list(s, f, b) {
                    Some((c, v)) => Some((c, CallArgV { name: Some(n), value: v })),
                    None => None,
                }
            } else {
                None
            }
        },
        None => match spec_space_list(s, f, i) {
            Some((c, v)) => Some((c, CallArgV { name: None, value: v })),
            None => None,
        },
    }
}

/// The arguments of a call after `(`, up to and with `)`, separated by
/// commas; a comma may end the list.
pub open spec fn spec_call_args(s: Seq<u8>, f: usize, i: int, acc: Seq<CallArgV>) -> Option<
    (int, Seq<CallArgV>),
>
    decreases s.len() - i, 7nat,
{
    if !(0 <= i <= s.len()) {
        None
    } else {
        let a = spacelike_end(s, i);
        if !(i <= a <= s.len()) {
            None
        } else if at(s, a, 41u8) {
            Some((a + 1, acc))
        } else {
            match spec_call_arg(s, f, a) {
                Some((b, arg)) => if a < b <= s.len() {
                    let c = spacelike_end(s, b);
                    if at(s, c, 44u8) {
                        if i < c + 1 <= s.len() {
                            spec_call_args(s, f, c + 1, acc.push(arg))
                        } else {
                            None
                        }
                    } else if at(s, c, 41u8) {
                        Some((c + 1, acc.push(arg)))
                    } else {
                        None
                    }
                } else {
                    None
                },
                None => None,
            }
        }
    }
}


// ---------------------------------------------------------------------
// The parsers
// ---------------------------------------------------------------------

pub open spec fn parsed_value(res: PResult<Value>, sp: Option<(int, ValueV)>) -> bool {
    match res {
        Some((j, v)) => sp == Some((j as int, v.view())),
        None => sp is None,
    }
}

pub open spec fn parsed_parts(res: PResult<Vec<StringPart>>, sp: Option<(int, Seq<StringPartV>)>) -> bool {
    match res {
        Some((j, v)) => sp == Some((j as int, parts_view(v@))),
        None => sp is None,
    }
}

pub open spec fn parsed_sstring(res: PResult<SassString>, sp: Option<(int, SassStringV)>) -> bool {
    match res {
        Some((j, v)) => sp == Some((j as int, v.view())),
        None => sp is None,
    }
}

pub open spec fn parsed_arg(res: PResult<CallArg>, sp: Option<(int, CallArgV)>) -> bool {
    match res {
        Some((j, v)) => sp == Some((j as int, v.view())),
        None => sp is None,
    }
}

pub open spec fn parsed_args(res: PResult<Vec<CallArg>>, sp: Option<(int, Seq<CallArgV>)>) -> bool {
    match res {
        Some((j, v)) => sp == Some((j as int, args_view(v@))),
        None => sp is None,
    }
}

fn quoted_raw_run(input: &[u8], pos: usize, q: u8) -> (j: usize)
    requires
        pos <= input.len(),
    ensures
        j == quoted_raw_end(input@, pos as int, q),
        pos <= j <= input.len(),
{
    let mut j = pos;
    while j < input.len() && input[j] != q && input[j] != 92u8 && input[j] != 35u8 && input[j]
        != 10u8
        invariant
            pos <= j <= input.len(),
            quoted_raw_end(input@, pos as int, q) == quoted_raw_end(input@, j as int, q),
        decreases input.len() - j,
    {
        j = j + 1;
    }
    j
}

/// Parses `url(...)` without quotes.
pub fn special_url(input: &[u8], pos: usize) -> (res: PResult<Vec<u8>>)
    requires
        pos <= input.len(),
    ensures
        parsed_bytes(res, spec_special_url(input@, pos as int)),
        res matches Some((j, _)) ==> pos < j <= input.len(),
{
    if byte_at(input, pos, 117u8) && byte_at(input, pos + 1, 114u8) && byte_at(input, pos + 2, 108u8)
        && byte_at(input, pos + 3, 40u8) {
        let mut e = pos + 4;
        while e < input.len() && input[e] > 32u8 && input[e] != 34u8 && input[e] != 39u8
            && input[e] != 40u8 && input[e] != 41u8 && input[e] != 92u8 && input[e] != 127u8
            invariant
                pos + 4 <= e <= input.len(),
                url_char_end(input@, pos + 4) == url_char_end(input@, e as int),
            decreases input.len() - e,
        {
            e = e + 1;
        }
        if byte_at(input, e, 41u8) {
            Some((e + 1, bytes_between(input, pos, e + 1)))
        } else {
            None
        }
    } else {
        None
    }
}

/// Parses `#{`, a value, and `}`.
pub fn string_part_interpolation(input: &Span, pos: usize) -> (res: PResult<Value>)
    requires
        pos <= input.data.len(),
    ensures
        parsed_value(res, spec_interpolation(input.data@, input.file, pos as int)),
        res matches Some((j, _)) ==> pos < j <= input.data.len(),
    decreases input.data.len() - pos, 0nat,
{
    let s = input.data;
    if byte_at(s, pos, 35u8) && byte_at(s, pos + 1, 123u8) {
        let a = skip_ws(s, pos + 2);
        match comma_list(input, a) {
            Some((b, v)) => {
                let c = skip_ws(s, b);
                if byte_at(s, c, 125u8) {
                    Some((c + 1, v))
                } else {
                    None
                }
            },
            None => None,
        }
    } else {
        None
    }
}

fn one_byte(b: u8) -> (r: Vec<u8>)
    ensures
        r@ == seq![b],
{
    let mut r: Vec<u8> = Vec::new();
    r.push(b);
    assert(r@ =~= seq![b]);
    r
}

/// Parses the rest of a string quoted by `q`.
pub fn quoted_parts(input: &Span, pos: usize, q: u8, acc: Vec<StringPart>) -> (res: PResult<
    Vec<StringPart>,
>)
    requires
        pos <= input.data.len(),
    ensures
        parsed_parts(
            res,
            spec_quoted_parts(input.data@, input.file, pos as int, q, parts_view(acc@)),
        ),
        res matches Some((j, _)) ==> pos < j <= input.data.len(),
    decreases input.data.len() - pos, 1nat,
{
    let s = input.data;
    let mut acc = acc;
    if pos >= s.len() {
        return None;
    }
    let b = s[pos];
    if b == q {
        return Some((pos + 1, acc));
    }
    if b == 92u8 {
        if pos + 1 < s.len() {
            push_part_exec(&mut acc, StringPart::Raw(one_byte(s[pos + 1])));
            return quoted_parts(input, pos + 2, q, acc);
        } else {
            return None;
        }
    }
    if b == 35u8 {
        match string_part_interpolation(input, pos) {
            Some((j, v)) => {
                push_part_exec(&mut acc, StringPart::Interpolation(v));
                return quoted_parts(input, j, q, acc);
            },
            None => {
                push_part_exec(&mut acc, StringPart::Raw(one_byte(35u8)));
                return quoted_parts(input, pos + 1, q, acc);
            },
        }
    }
    if b == 10u8 {
        return None;
    }
    let j = quoted_raw_run(s, pos, q);
    proof {
        lemma_quoted_raw_end(s@, pos + 1, q);
    }
    push_part_exec(&mut acc, StringPart::Raw(bytes_between(s, pos, j)));
    quoted_parts(input, j, q, acc)
}

fn unquoted_tail(input: &Span, pos: usize, acc: Vec<StringPart>) -> (res: (usize, Vec<StringPart>))
    requires
        pos <= input.data.len(),
    ensures
        spec_unquoted_tail(input.data@, input.file, pos as int, parts_view(acc@)) == (
            res.0 as int,
            parts_view(res.1@),
        ),
        pos <= res.0 <= input.data.len(),
    decreases input.data.len() - pos, 1nat,
{
    let s = input.data;
    let mut acc = acc;
    if byte_at(s, pos, 35u8) && byte_at(s, pos + 1, 123u8) {
        match string_part_interpolation(input, pos) {
            Some((j, v)) => {
                push_part_exec(&mut acc, StringPart::Interpolation(v));
                unquoted_tail(input, j, acc)
            },
            None => (pos, acc),
        }
    } else {
        let j = name_char_run(s, pos);
        if j > pos {
            push_part_exec(&mut acc, StringPart::Raw(bytes_between(s, pos, j)));
            unquoted_tail(input, j, acc)
        } else {
            (pos, acc)
        }
    }
}

/// Parses an unquoted string that may hold interpolations.
pub fn unquoted(input: &Span, pos: usize) -> (res: PResult<SassString>)
    requires
        pos <= input.data.len(),
    ensures
        parsed_sstring(res, spec_unquoted(input.data@, input.file, pos as int)),
        res matches Some((j, _)) ==> pos < j <= input.data.len(),
    decreases input.data.len() - pos, 2nat,
{
    let s = input.data;
    let first = if byte_at(s, pos, 35u8) && byte_at(s, pos + 1, 123u8) {
        match string_part_interpolation(input, pos) {
            Some((j, v)) => Some((j, StringPart::Interpolation(v))),
            None => None,
        }
    } else {
        match name(s, pos) {
            Some((j, n)) => Some((j, StringPart::Raw(n))),
            None => None,
        }
    };
    match first {
        Some((j, p)) => {
            let mut acc: Vec<StringPart> = Vec::new();
            let ghost pv = p.view();
            push_part_exec(&mut acc, p);
            proof {
                assert(parts_view(acc@) =~= seq![pv]);
            }
            let (k, ps) = unquoted_tail(input, j, acc);
            let r = SassString { parts: ps, quotes: Quotes::NoQuotes };
            proof {
                lemma_sstring_view(&r);
            }
            Some((k, r))
        },
        None => None,
    }
}

/// `null`, `true` and `false` as values; any other string as a literal.
pub fn keyword_or_literal_exec(ss: SassString) -> (v: Value)
    ensures
        v.view() == keyword_or_literal(ss.view()),
{
    proof {
        lemma_sstring_view(&ss);
    }
    let k: u8 = if ss.parts.len() == 1 {
        match &ss.parts[0] {
            StringPart::Raw(b) => {
                if bytes_eq(b.as_slice(), "null".as_bytes()) {
                    1
                } else if bytes_eq(b.as_slice(), "true".as_bytes()) {
                    2
                } else if bytes_eq(b.as_slice(), "false".as_bytes()) {
                    3
                } else {
                    0
                }
            },
            _ => 0,
        }
    } else {
        0
    };
    if k == 1 {
        Value::Null
    } else if k == 2 {
        Value::True
    } else if k == 3 {
        Value::False
    } else {
        Value::Literal(ss)
    }
}

/// Parses a single value.
pub fn primary(input: &Span, pos: usize) -> (res: PResult<Value>)
    requires
        pos <= input.data.len(),
    ensures
        parsed_value(res, spec_primary(input.data@, input.file, pos as int)),
        res matches Some((j, _)) ==> pos < j <= input.data.len(),
    decreases input.data.len() - pos, 3nat,
{
    let s = input.data;
    if byte_at(s, pos, 40u8) {
        let a = skip_ws(s, pos + 1);
        return match comma_list(input, a) {
            Some((b, v)) => {
                let c = skip_ws(s, b);
                if byte_at(s, c, 41u8) {
                    Some((c + 1, v))
                } else {
                    None
                }
            },
            None => None,
        };
    }
    match number(s, pos) {
        Some((j, n)) => {
            return Some((j, Value::Numeric(n)));
        },
        None => {},
    }
    if byte_at(s, pos, 36u8) {
        return match name(s, pos + 1) {
            Some((j, n)) => Some(
                (j, Value::Variable(n, SourcePos { file: input.file, start: pos, end: j })),
            ),
            None => None,
        };
    }
    if byte_at(s, pos, 34u8) || byte_at(s, pos, 39u8) {
        let q = s[pos];
        let e: Vec<StringPart> = Vec::new();
        proof {
            assert(parts_view(e@) =~= Seq::<StringPartV>::empty());
        }
        return match quoted_parts(input, pos + 1, q, e) {
            Some((j, ps)) => {
                let r = SassString {
                    parts: ps,
                    quotes: if q == 34u8 {
                        Quotes::Double
                    } else {
                        Quotes::Single
                    },
                };
                proof {
                    lemma_sstring_view(&r);
                }
                Some((j, Value::Literal(r)))
            },
            None => None,
        };
    }
    match special_url(s, pos) {
        Some((j, b)) => {
            let ghost bv = b@;
            let mut ps: Vec<StringPart> = Vec::new();
            ps.push(StringPart::Raw(b));
            let r = SassString { parts: ps, quotes: Quotes::NoQuotes };
            proof {
                lemma_sstring_view(&r);
                assert(parts_view(ps@) =~= seq![StringPartV::Raw(bv)]);
            }
            return Some((j, Value::Literal(r)));
        },
        None => {},
    }
    match name(s, pos) {
        Some((j, n)) => {
            if j < s.len() && s[j] == 40u8 {
                let e: Vec<CallArg> = Vec::new();
                proof {
                    assert(args_view(e@) =~= Seq::<CallArgV>::empty());
                }
                return match call_args(input, j + 1, e) {
                    Some((k, args)) => {
                        let r = Value::Call(n, args, SourcePos { file: input.file, start: pos, end: k });
                        proof {
                            lemma_call_view(&r);
                        }
                        Some((k, r))
                    },
                    None => None,
                };
            }
        },
        None => {},
    }
    match unquoted(input, pos) {
        Some((k, ss)) => Some((k, keyword_or_literal_exec(ss))),
        None => None,
    }
}

fn sum_tail(input: &Span, pos: usize, acc: Value) -> (res: (usize, Value))
    requires
        pos <= input.data.len(),
    ensures
        spec_sum_tail(input.data@, input.file, pos as int, acc.view()) == (
            res.0 as int,
            res.1.view(),
        ),
        pos <= res.0 <= input.data.len(),
    decreases input.data.len() - pos, 7nat,
{
    let s = input.data;
    let a = skip_ws(s, pos);
    if byte_at(s, a, 43u8) {
        let b = skip_ws(s, a + 1);
        match primary(input, b) {
            Some((c, v)) => sum_tail(input, c, Value::Plus(Box::new(acc), Box::new(v))),
            None => (pos, acc),
        }
    } else {
        (pos, acc)
    }
}

/// Parses values joined by `+`.
pub fn sum(input: &Span, pos: usize) -> (res: PResult<Value>)
    requires
        pos <= input.data.len(),
    ensures
        parsed_value(res, spec_sum(input.data@, input.file, pos as int)),
        res matches Some((j, _)) ==> pos < j <= input.data.len(),
    decreases input.data.len() - pos, 4nat,
{
    match primary(input, pos) {
        Some((j, v)) => Some(sum_tail(input, j, v)),
        None => None,
    }
}

fn space_tail(input: &Span, pos: usize, acc: Vec<Value>) -> (res: (usize, Vec<Value>))
    requires
        pos <= input.data.len(),
    ensures
        spec_space_tail(input.data@, input.file, pos as int, values_view(acc@)) == (
            res.0 as int,
            values_view(res.1@),
        ),
        pos <= res.0 <= input.data.len(),
    decreases input.data.len() - pos, 7nat,
{
    let s = input.data;
    match spacelike(s, pos) {
        Some((a, _)) => {
            proof {
                crate::parser::util::lemma_space_step(s@, pos as int);
                lemma_spacelike_end(s@, pos as int);
            }
            match sum(input, a) {
                Some((c, v)) => {
                    let mut acc = acc;
                    let ghost a0 = values_view(acc@);
                    let ghost vv = v.view();
                    acc.push(v);
                    proof {
                        assert(values_view(acc@) =~= a0.push(vv));
                    }
                    space_tail(input, c, acc)
                },
                None => (pos, acc),
            }
        },
        None => {
            let adjacent = byte_at(s, pos, 34u8) || byte_at(s, pos, 39u8) || (0 < pos && (s[pos
                - 1] == 34u8 || s[pos - 1] == 39u8));
            if !adjacent {
                return (pos, acc);
            }
            match sum(input, pos) {
                Some((c, v)) => {
                    let mut acc = acc;
                    let ghost a0 = values_view(acc@);
                    let ghost vv = v.view();
                    acc.push(v);
                    proof {
                        assert(values_view(acc@) =~= a0.push(vv));
                    }
                    space_tail(input, c, acc)
                },
                None => (pos, acc),
            }
        },
    }
}

/// Parses a space separated list, or a single sum.
pub fn space_list(input: &Span, pos: usize) -> (res: PResult<Value>)
    requires
        pos <= input.data.len(),
    ensures
        parsed_value(res, spec_space_list(input.data@, input.file, pos as int)),
        res matches Some((j, _)) ==> pos < j <= input.data.len(),
    decreases input.data.len() - pos, 5nat,
{
    match sum(input, pos) {
        Some((j, v)) => {
            let ghost vv = v.view();
            let mut acc: Vec<Value> = Vec::new();
            acc.push(v);
            proof {
                assert(values_view(acc@) =~= seq![vv]);
            }
            let (k, mut vs) = space_tail(input, j, acc);
            if vs.len() == 1 {
                let v = vs.pop().unwrap();
                Some((k, v))
            } else {
                let r = Value::List(vs, ListSep::Space);
                proof {
                    lemma_list_view(&r);
                }
                Some((k, r))
            }
        },
        None => None,
    }
}

fn comma_tail(input: &Span, pos: usize, acc: Vec<Value>) -> (res: (usize, Vec<Value>))
    requires
        pos <= input.data.len(),
    ensures
        spec_comma_tail(input.data@, input.file, pos as int, values_view(acc@)) == (
            res.0 as int,
            values_view(res.1@),
        ),
        pos <= res.0 <= input.data.len(),
    decreases input.data.len() - pos, 7nat,
{
    let s = input.data;
    let a = skip_ws(s, pos);
    if byte_at(s, a, 44u8) {
        let b = skip_ws(s, a + 1);
        match space_list(input, b) {
            Some((c, v)) => {
                let mut acc = acc;
                let ghost a0 = values_view(acc@);
                let ghost vv = v.view();
                acc.push(v);
                proof {
                    assert(values_view(acc@) =~= a0.push(vv));
                }
                comma_tail(input, c, acc)
            },
            None => (pos, acc),
        }
    } else {
        (pos, acc)
    }
}

/// Parses a comma separated list, or a single space list: a whole value
/// expression.
pub fn comma_list(input: &Span, pos: usize) -> (res: PResult<Value>)
    requires
        pos <= input.data.len(),
    ensures
        parsed_value(res, spec_comma_list(input.data@, input.file, pos as int)),
        res matches Some((j, _)) ==> pos < j <= input.data.len(),
    decreases input.data.len() - pos, 6nat,
{
    match space_list(input, pos) {
        Some((j, v)) => {
            let ghost vv = v.view();
            let mut acc: Vec<Value> = Vec::new();
            acc.push(v);
            proof {
                assert(values_view(acc@) =~= seq![vv]);
            }
            let (k, mut vs) = comma_tail(input, j, acc);
            if vs.len() == 1 {
                let v = vs.pop().unwrap();
                Some((k, v))
            } else {
                let r = Value::List(vs, ListSep::Comma);
                proof {
                    lemma_list_view(&r);
                }
                Some((k, r))
            }
        },
        None => None,
    }
}

fn arg_name(input: &[u8], pos: usize) -> (res: PResult<Vec<u8>>)
    requires
        pos <= input.len(),
    ensures
        parsed_bytes(res, spec_arg_name(input@, pos as int)),
        res matches Some((j, _)) ==> pos < j <= input.len(),
{
    if byte_at(input, pos, 36u8) {
        match name(input, pos + 1) {
            Some((j, n)) => {
                let a = skip_ws(input, j);
                if byte_at(input, a, 58u8) {
                    Some((a + 1, n))
                } else {
                    None
                }
            },
            None => None,
        }
    } else {
        None
    }
}

/// Parses one argument of a call.
pub fn call_arg(input: &Span, pos: usize) -> (res: PResult<CallArg>)
    requires
        pos <= input.data.len(),
    ensures
        parsed_arg(res, spec_call_arg(input.data@, input.file, pos as int)),
        res matches Some((j, _)) ==> pos < j <= input.data.len(),
    decreases input.data.len() - pos, 6nat,
{
    let s = input.data;
    match arg_name(s, pos) {
        Some((a, n)) => {
            let b = skip_ws(s, a);
            match space_list(input, b) {
                Some((c, v)) => Some((c, CallArg { name: Some(n), value: v })),
                None => None,
            }
        },
        None => match space_list(input, pos) {
            Some((c, v)) => Some((c, CallArg { name: None, value: v })),
            None => None,
        },
    }
}

/// Parses the arguments of a call after `(`, up to and with `)`.
pub fn call_args(input: &Span, pos: usize, acc: Vec<CallArg>) -> (res: PResult<Vec<CallArg>>)
    requires
        pos <= input.data.len(),
    ensures
        parsed_args(res, spec_call_args(input.data@, input.file, pos as int, args_view(acc@))),
        res matches Some((j, _)) ==> pos < j <= input.data.len(),
    decreases input.data.len() - pos, 7nat,
{
    let s = input.data;
    let a = skip_ws(s, pos);
    if byte_at(s, a, 41u8) {
        return Some((a + 1, acc));
    }
    match call_arg(input, a) {
        Some((b, arg)) => {
            let c = skip_ws(s, b);
            let mut acc = acc;
            let ghost a0 = args_view(acc@);
            let ghost av = arg.view();
            if byte_at(s, c, 44u8) {
                acc.push(arg);
                proof {
                    assert(args_view(acc@) =~= a0.push(av));
                }
                call_args(input, c + 1, acc)
            } else if byte_at(s, c, 41u8) {
                acc.push(arg);
                proof {
                    assert(args_view(acc@) =~= a0.push(av));
                }
                Some((c + 1, acc))
            } else {
                None
            }
        },
        None => None,
    }
}

} // verus!
